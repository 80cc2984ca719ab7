//! Planning cargo instances: from a cargo's specification to the exact
//! engine-level container requests — names, hostnames, labels, injected
//! environment, secret mounts, network and restart policy — for every
//! replica, and for the init container run before them.

use vstd::prelude::*;

use crate::errors::{CoreError, ErrorKind};
use crate::keys::{init_name_of, key_of, process_name_of, replica_hostname_of, ProcessKind};
use crate::text::{dec_rep, lemma_pairs_view, lemma_strs_view, pairs_view, strs_view,
    u64_to_dec};

verus! {

/// The restart policy a container runs under.
#[derive(Clone, Copy, PartialEq, Eq, Structural, Debug)]
pub enum RestartPolicy {
    Always,
    UnlessStopped,
    OnFailure,
    Never,
}

/// The container template of a specification: what the user wrote.
pub struct ContainerTemplate {
    pub image: Option<String>,
    pub env: Vec<String>,
    pub hostname: Option<String>,
    pub labels: Vec<(String, String)>,
    pub binds: Vec<String>,
    pub network_mode: Option<String>,
    pub restart_policy: Option<RestartPolicy>,
    pub auto_remove: bool,
}

/// A cargo's specification.
pub struct CargoSpec {
    pub container: ContainerTemplate,
    pub init_container: Option<ContainerTemplate>,
    pub replication: Option<u64>,
    pub secrets: Vec<String>,
    pub image_pull_secret: Option<String>,
}

/// A cargo: a replicated container group living in a namespace.
pub struct Cargo {
    pub key: String,
    pub name: String,
    pub namespace: String,
    pub spec: CargoSpec,
}

impl Cargo {
    /// A cargo is well formed when its key follows the key grammar.
    pub open spec fn wf(self) -> bool {
        self.key@ == key_of(self.name@, self.namespace@)
    }
}

/// How many replicas a specification asks for: one when it does not say.
pub open spec fn replication_of(s: CargoSpec) -> nat {
    match s.replication {
        Some(n) => n as nat,
        None => 1,
    }
}

impl CargoSpec {
    /// How many replicas to run: one when the specification does not say.
    pub fn replica_count(&self) -> (n: u64)
        ensures
            n == replication_of(*self),
    {
        match self.replication {
            Some(n) => n,
            None => 1,
        }
    }
}

/// One planned engine container: exactly what the engine will be asked to
/// create.
pub struct InstancePlan {
    pub name: String,
    pub hostname: String,
    pub env: Vec<String>,
    pub labels: Vec<(String, String)>,
    pub binds: Vec<String>,
    pub network_mode: String,
    pub restart_policy: RestartPolicy,
    pub init: bool,
}

/// One `KEY=VALUE` environment line.
pub open spec fn env_line(k: Seq<char>, v: Seq<char>) -> Seq<char> {
    k + seq!['='] + v
}

/// The five well-known variables every cargo instance receives.
pub open spec fn builtin_env(
    node: Seq<char>,
    gateway: Seq<char>,
    cargo_key: Seq<char>,
    namespace: Seq<char>,
    ordinal: nat,
) -> Seq<Seq<char>> {
    seq![
        env_line(seq!['N', 'A', 'N', 'O', 'C', 'L', '_', 'N', 'O', 'D', 'E'], node),
        env_line(
            seq!['N', 'A', 'N', 'O', 'C', 'L', '_', 'N', 'O', 'D', 'E', '_', 'A', 'D', 'D', 'R'],
            gateway,
        ),
        env_line(
            seq!['N', 'A', 'N', 'O', 'C', 'L', '_', 'C', 'A', 'R', 'G', 'O', '_', 'K', 'E', 'Y'],
            cargo_key,
        ),
        env_line(
            seq!['N', 'A', 'N', 'O', 'C', 'L', '_', 'C', 'A', 'R', 'G', 'O', '_', 'N', 'A', 'M',
                'E', 'S', 'P', 'A', 'C', 'E'],
            namespace,
        ),
        env_line(
            seq!['N', 'A', 'N', 'O', 'C', 'L', '_', 'C', 'A', 'R', 'G', 'O', '_', 'I', 'N', 'S',
                'T', 'A', 'N', 'C', 'E'],
            dec_rep(ordinal),
        ),
    ]
}

/// The environment an instance runs with: the template's lines, then the
/// secret-sourced lines, then the built-in variables.
pub open spec fn instance_env(
    spec_env: Seq<Seq<char>>,
    secret_env: Seq<Seq<char>>,
    node: Seq<char>,
    gateway: Seq<char>,
    cargo_key: Seq<char>,
    namespace: Seq<char>,
    ordinal: nat,
) -> Seq<Seq<char>> {
    spec_env + secret_env + builtin_env(node, gateway, cargo_key, namespace, ordinal)
}

/// The ownership labels every cargo process carries; the last marks whether
/// it is the init container or a main one.
pub open spec fn cargo_labels(
    template: Seq<(Seq<char>, Seq<char>)>,
    cargo_key: Seq<char>,
    namespace: Seq<char>,
    init: bool,
) -> Seq<(Seq<char>, Seq<char>)> {
    template + seq![
        (seq!['i', 'o', '.', 'n', 'a', 'n', 'o', 'c', 'l', '.', 'c'], cargo_key),
        (seq!['i', 'o', '.', 'n', 'a', 'n', 'o', 'c', 'l', '.', 'n'], namespace),
        (
            if init {
                seq!['i', 'o', '.', 'n', 'a', 'n', 'o', 'c', 'l', '.', 'i', 'n', 'i', 't', '-',
                    'c']
            } else {
                seq!['i', 'o', '.', 'n', 'a', 'n', 'o', 'c', 'l', '.', 'n', 'o', 't', '-', 'i',
                    'n', 'i', 't', '-', 'c']
            },
            seq!['t', 'r', 'u', 'e'],
        ),
        (
            seq!['c', 'o', 'm', '.', 'd', 'o', 'c', 'k', 'e', 'r', '.', 'c', 'o', 'm', 'p', 'o',
                's', 'e', '.', 'p', 'r', 'o', 'j', 'e', 'c', 't'],
            seq!['n', 'a', 'n', 'o', 'c', 'l', '_'] + namespace,
        ),
    ]
}

/// The bind line mounting the secret directory read into the container.
pub open spec fn secrets_bind(secret_dir: Seq<char>) -> Seq<char> {
    secret_dir + seq![':', '/', 'o', 'p', 't', '/', 'n', 'a', 'n', 'o', 'c', 'l', '.', 'i', 'o',
        '/', 's', 'e', 'c', 'r', 'e', 't', 's']
}

/// The default bridge network.
pub open spec fn default_network() -> Seq<char> {
    seq!['n', 'a', 'n', 'o', 'c', 'l', 'b', 'r', '0']
}

/// What a plan's network resolves to: the template's choice or the bridge.
pub open spec fn network_of(t: ContainerTemplate) -> Seq<char> {
    match t.network_mode {
        Some(n) => n@,
        None => default_network(),
    }
}

/// What a plan's restart policy resolves to: the template's choice, else
/// restart always.
pub open spec fn restart_of(t: ContainerTemplate) -> RestartPolicy {
    match t.restart_policy {
        Some(p) => p,
        None => RestartPolicy::Always,
    }
}

/// The hostname base: the template's hostname when set, else the cargo name.
pub open spec fn hostname_base(c: Cargo) -> Seq<char> {
    match c.spec.container.hostname {
        Some(h) => h@,
        None => c.name@,
    }
}

/// Everything a planned main instance must be: the grammar name, the
/// ordinal-prefixed hostname, the merged environment, the ownership labels,
/// the secret mount appended to the template binds, the resolved network and
/// restart policy.
pub open spec fn main_plan_ok(
    p: InstancePlan,
    c: Cargo,
    secret_env: Seq<Seq<char>>,
    node: Seq<char>,
    gateway: Seq<char>,
    secret_dir: Seq<char>,
    suffix: Seq<char>,
    ordinal: nat,
) -> bool {
    &&& p.name@ == process_name_of(c.name@, suffix, c.namespace@, ProcessKind::Cargo)
    &&& p.hostname@ == replica_hostname_of(hostname_base(c), ordinal)
    &&& strs_view(p.env@) == instance_env(strs_view(c.spec.container.env@), secret_env, node,
        gateway, c.key@, c.namespace@, ordinal)
    &&& pairs_view(p.labels@) == cargo_labels(pairs_view(c.spec.container.labels@), c.key@,
        c.namespace@, false)
    &&& strs_view(p.binds@) == strs_view(c.spec.container.binds@).push(secrets_bind(secret_dir))
    &&& p.network_mode@ == network_of(c.spec.container)
    &&& p.restart_policy == restart_of(c.spec.container)
    &&& !p.init
}

/// Appends the five built-in variables.
fn push_builtin_env(
    env: &mut Vec<String>,
    node: &str,
    gateway: &str,
    cargo_key: &str,
    namespace: &str,
    ordinal: u64,
)
    ensures
        strs_view(final(env)@) == strs_view(old(env)@) + builtin_env(node@, gateway@, cargo_key@,
            namespace@, ordinal as nat),
{
    proof {
        lemma_strs_view(env@);
    }
    let ghost pre = strs_view(env@);
    let mut l1 = String::from_str("NANOCL_NODE=");
    l1.append(node);
    let mut l2 = String::from_str("NANOCL_NODE_ADDR=");
    l2.append(gateway);
    let mut l3 = String::from_str("NANOCL_CARGO_KEY=");
    l3.append(cargo_key);
    let mut l4 = String::from_str("NANOCL_CARGO_NAMESPACE=");
    l4.append(namespace);
    let mut l5 = String::from_str("NANOCL_CARGO_INSTANCE=");
    let ord = u64_to_dec(ordinal);
    l5.append(ord.as_str());
    proof {
        reveal_strlit("NANOCL_NODE=");
        reveal_strlit("NANOCL_NODE_ADDR=");
        reveal_strlit("NANOCL_CARGO_KEY=");
        reveal_strlit("NANOCL_CARGO_NAMESPACE=");
        reveal_strlit("NANOCL_CARGO_INSTANCE=");
        assert(l1@ =~= env_line(seq!['N', 'A', 'N', 'O', 'C', 'L', '_', 'N', 'O', 'D', 'E'],
            node@));
        assert(l2@ =~= env_line(seq!['N', 'A', 'N', 'O', 'C', 'L', '_', 'N', 'O', 'D', 'E', '_',
            'A', 'D', 'D', 'R'], gateway@));
        assert(l3@ =~= env_line(seq!['N', 'A', 'N', 'O', 'C', 'L', '_', 'C', 'A', 'R', 'G', 'O',
            '_', 'K', 'E', 'Y'], cargo_key@));
        assert(l4@ =~= env_line(seq!['N', 'A', 'N', 'O', 'C', 'L', '_', 'C', 'A', 'R', 'G', 'O',
            '_', 'N', 'A', 'M', 'E', 'S', 'P', 'A', 'C', 'E'], namespace@));
        assert(l5@ =~= env_line(seq!['N', 'A', 'N', 'O', 'C', 'L', '_', 'C', 'A', 'R', 'G', 'O',
            '_', 'I', 'N', 'S', 'T', 'A', 'N', 'C', 'E'], dec_rep(ordinal as nat)));
    }
    env.push(l1);
    env.push(l2);
    env.push(l3);
    env.push(l4);
    env.push(l5);
    proof {
        lemma_strs_view(env@);
        assert(strs_view(env@) =~= pre + builtin_env(node@, gateway@, cargo_key@, namespace@,
            ordinal as nat));
    }
}

/// Builds the merged environment of one instance.
#[verifier::loop_isolation(false)]
pub fn build_instance_env(
    spec_env: &Vec<String>,
    secret_env: &Vec<String>,
    node: &str,
    gateway: &str,
    cargo_key: &str,
    namespace: &str,
    ordinal: u64,
) -> (env: Vec<String>)
    ensures
        strs_view(env@) == instance_env(strs_view(spec_env@), strs_view(secret_env@), node@,
            gateway@, cargo_key@, namespace@, ordinal as nat),
{
    proof {
        lemma_strs_view(spec_env@);
        lemma_strs_view(secret_env@);
    }
    let mut env = crate::text::clone_strs(spec_env);
    let mut i: usize = 0;
    while i < secret_env.len()
        invariant
            i <= secret_env@.len(),
            strs_view(env@) == strs_view(spec_env@) + strs_view(secret_env@).take(i as int),
        decreases secret_env@.len() - i,
    {
        let ghost pre_vec = env@;
        let ghost pre = strs_view(env@);
        env.push(secret_env[i].clone());
        proof {
            assert(env@.drop_last() =~= pre_vec);
            assert(strs_view(env@) =~= pre.push(secret_env@[i as int]@));
            assert(strs_view(secret_env@).take(i + 1) =~= strs_view(secret_env@).take(
                i as int,
            ).push(secret_env@[i as int]@));
        }
        i += 1;
    }
    proof {
        assert(strs_view(secret_env@).take(secret_env@.len() as int) =~= strs_view(secret_env@));
    }
    push_builtin_env(&mut env, node, gateway, cargo_key, namespace, ordinal);
    proof {
        assert(strs_view(env@) =~= instance_env(strs_view(spec_env@), strs_view(secret_env@),
            node@, gateway@, cargo_key@, namespace@, ordinal as nat));
    }
    env
}

/// Builds the ownership labels of one cargo process.
pub fn build_cargo_labels(
    template: &Vec<(String, String)>,
    cargo_key: &str,
    namespace: &str,
    init: bool,
) -> (labels: Vec<(String, String)>)
    ensures
        pairs_view(labels@) == cargo_labels(pairs_view(template@), cargo_key@, namespace@, init),
{
    proof {
        lemma_pairs_view(template@);
    }
    let mut labels = crate::text::clone_pairs(template);
    let ghost base = pairs_view(labels@);
    let marker = if init {
        String::from_str("io.nanocl.init-c")
    } else {
        String::from_str("io.nanocl.not-init-c")
    };
    let mut project = String::from_str("nanocl_");
    project.append(namespace);
    proof {
        reveal_strlit("io.nanocl.init-c");
        reveal_strlit("io.nanocl.not-init-c");
        reveal_strlit("nanocl_");
        reveal_strlit("io.nanocl.c");
        reveal_strlit("io.nanocl.n");
        reveal_strlit("true");
        reveal_strlit("com.docker.compose.project");
    }
    let ghost v0 = labels@;
    labels.push((String::from_str("io.nanocl.c"), cargo_key.to_owned()));
    let ghost v1 = labels@;
    labels.push((String::from_str("io.nanocl.n"), namespace.to_owned()));
    let ghost v2 = labels@;
    labels.push((marker, String::from_str("true")));
    let ghost v3 = labels@;
    labels.push((String::from_str("com.docker.compose.project"), project));
    proof {
        assert(v1.drop_last() =~= v0);
        assert(v2.drop_last() =~= v1);
        assert(v3.drop_last() =~= v2);
        assert(labels@.drop_last() =~= v3);
        assert(pairs_view(v1) == pairs_view(v0).push((v1.last().0@, v1.last().1@)));
        assert(pairs_view(v2) == pairs_view(v1).push((v2.last().0@, v2.last().1@)));
        assert(pairs_view(v3) == pairs_view(v2).push((v3.last().0@, v3.last().1@)));
        assert(pairs_view(labels@) == pairs_view(v3).push((labels@.last().0@,
            labels@.last().1@)));
        assert(("io.nanocl.c")@ =~= seq!['i', 'o', '.', 'n', 'a', 'n', 'o', 'c', 'l', '.', 'c']);
        assert(("io.nanocl.n")@ =~= seq!['i', 'o', '.', 'n', 'a', 'n', 'o', 'c', 'l', '.', 'n']);
        assert(("true")@ =~= seq!['t', 'r', 'u', 'e']);
        assert(("io.nanocl.init-c")@ =~= seq!['i', 'o', '.', 'n', 'a', 'n', 'o', 'c', 'l', '.',
            'i', 'n', 'i', 't', '-', 'c']);
        assert(("io.nanocl.not-init-c")@ =~= seq!['i', 'o', '.', 'n', 'a', 'n', 'o', 'c', 'l',
            '.', 'n', 'o', 't', '-', 'i', 'n', 'i', 't', '-', 'c']);
        assert(("com.docker.compose.project")@ =~= seq!['c', 'o', 'm', '.', 'd', 'o', 'c', 'k',
            'e', 'r', '.', 'c', 'o', 'm', 'p', 'o', 's', 'e', '.', 'p', 'r', 'o', 'j', 'e', 'c',
            't']);
        assert(("nanocl_")@ =~= seq!['n', 'a', 'n', 'o', 'c', 'l', '_']);
        assert(pairs_view(labels@) =~= cargo_labels(pairs_view(template@), cargo_key@,
            namespace@, init));
    }
    labels
}

/// Builds the bind list of one instance: the template's binds and the
/// secret-directory mount.
pub fn build_binds(template: &Vec<String>, secret_dir: &str) -> (binds: Vec<String>)
    ensures
        strs_view(binds@) == strs_view(template@).push(secrets_bind(secret_dir@)),
{
    proof {
        lemma_strs_view(template@);
    }
    let mut binds = crate::text::clone_strs(template);
    let ghost base = strs_view(binds@);
    let mut mount = String::new();
    mount.append(secret_dir);
    mount.append(":/opt/nanocl.io/secrets");
    proof {
        reveal_strlit(":/opt/nanocl.io/secrets");
        assert(mount@ =~= secrets_bind(secret_dir@));
    }
    let ghost pre_vec = binds@;
    binds.push(mount);
    proof {
        assert(binds@.drop_last() =~= pre_vec);
        assert(strs_view(binds@) == strs_view(pre_vec).push(binds@.last()@));
        assert(strs_view(binds@) == base.push(secrets_bind(secret_dir@)));
    }
    binds
}

fn resolve_network(t: &ContainerTemplate) -> (n: String)
    ensures
        n@ == network_of(*t),
{
    match &t.network_mode {
        Some(n) => n.clone(),
        None => {
            let n = String::from_str("nanoclbr0");
            proof {
                reveal_strlit("nanoclbr0");
                assert(n@ =~= default_network());
            }
            n
        }
    }
}

fn resolve_restart(t: &ContainerTemplate) -> (p: RestartPolicy)
    ensures
        p == restart_of(*t),
{
    match &t.restart_policy {
        Some(p) => *p,
        None => RestartPolicy::Always,
    }
}

/// Plans one main instance.
fn plan_one_instance(
    cargo: &Cargo,
    secret_env: &Vec<String>,
    node: &str,
    gateway: &str,
    secret_dir: &str,
    suffix: &String,
    ordinal: u64,
) -> (p: InstancePlan)
    ensures
        main_plan_ok(p, *cargo, strs_view(secret_env@), node@, gateway@, secret_dir@, suffix@,
            ordinal as nat),
{
    let name = crate::keys::gen_process_name(cargo.name.as_str(), suffix.as_str(),
        cargo.namespace.as_str(), &ProcessKind::Cargo);
    let base = match &cargo.spec.container.hostname {
        Some(h) => h.clone(),
        None => cargo.name.clone(),
    };
    let hostname = crate::keys::gen_replica_hostname(base.as_str(), ordinal);
    let env = build_instance_env(&cargo.spec.container.env, secret_env, node, gateway,
        cargo.key.as_str(), cargo.namespace.as_str(), ordinal);
    let labels = build_cargo_labels(&cargo.spec.container.labels, cargo.key.as_str(),
        cargo.namespace.as_str(), false);
    let binds = build_binds(&cargo.spec.container.binds, secret_dir);
    let network_mode = resolve_network(&cargo.spec.container);
    let restart_policy = resolve_restart(&cargo.spec.container);
    InstancePlan { name, hostname, env, labels, binds, network_mode, restart_policy, init: false }
}

/// The note the auto-remove rejection answers with.
pub open spec fn auto_remove_note() -> Seq<char> {
    seq!['a', 'u', 't', 'o', ' ', 'r', 'e', 'm', 'o', 'v', 'e', ' ', 'i', 's', ' ', 'n', 'o',
        't', ' ', 'a', 'l', 'l', 'o', 'w', 'e', 'd', ' ', 'f', 'o', 'r', ' ', 'a', ' ', 'c',
        'a', 'r', 'g', 'o', ',', ' ', 'u', 's', 'e', ' ', 'a', ' ', 'j', 'o', 'b', ' ', 'i',
        'n', 's', 't', 'e', 'a', 'd']
}

/// Plans the `number` main instances of a cargo. Rejects a template that
/// asks for `auto_remove`: such workloads are jobs, never cargoes.
#[verifier::loop_isolation(false)]
pub fn plan_instances(
    cargo: &Cargo,
    number: usize,
    secret_env: &Vec<String>,
    node: &str,
    gateway: &str,
    secret_dir: &str,
    suffixes: &Vec<String>,
) -> (r: Result<Vec<InstancePlan>, CoreError>)
    requires
        suffixes@.len() == number,
        forall|i: int| 0 <= i < number as int ==> crate::keys::is_valid_suffix(
            #[trigger] suffixes@[i]@,
        ),
    ensures
        cargo.spec.container.auto_remove <==> r is Err,
        match r {
            Ok(plans) => {
                &&& plans@.len() == number
                &&& forall|i: int| 0 <= i < number as int ==> main_plan_ok(
                    #[trigger] plans@[i],
                    *cargo,
                    strs_view(secret_env@),
                    node@,
                    gateway@,
                    secret_dir@,
                    suffixes@[i]@,
                    i as nat,
                )
            }
            Err(e) => e.kind == ErrorKind::BadRequest && e.msg@ == auto_remove_note(),
        },
{
    if cargo.spec.container.auto_remove {
        let msg = String::from_str("auto remove is not allowed for a cargo, use a job instead");
        proof {
            reveal_strlit("auto remove is not allowed for a cargo, use a job instead");
            assert(msg@ =~= auto_remove_note());
        }
        return Err(CoreError::bad_request(msg));
    }
    let mut plans: Vec<InstancePlan> = Vec::new();
    let mut i: usize = 0;
    while i < number
        invariant
            i <= number,
            plans@.len() == i,
            forall|k: int| 0 <= k < i ==> main_plan_ok(#[trigger] plans@[k], *cargo, strs_view(
                secret_env@,
            ), node@, gateway@, secret_dir@, suffixes@[k]@, k as nat),
        decreases number - i,
    {
        let p = plan_one_instance(cargo, secret_env, node, gateway, secret_dir, &suffixes[i],
            i as u64);
        plans.push(p);
        i += 1;
    }
    Ok(plans)
}

/// Everything a planned init container must be: the `init-` name, the main
/// image when it names none of its own, the init ownership labels, and the
/// environment of ordinal zero.
pub open spec fn init_plan_ok(
    p: InstancePlan,
    c: Cargo,
    init: ContainerTemplate,
    secret_env: Seq<Seq<char>>,
    node: Seq<char>,
    gateway: Seq<char>,
    secret_dir: Seq<char>,
    suffix: Seq<char>,
) -> bool {
    &&& p.name@ == init_name_of(c.name@, suffix, c.namespace@)
    &&& strs_view(p.env@) == instance_env(strs_view(init.env@), secret_env, node, gateway,
        c.key@, c.namespace@, 0)
    &&& pairs_view(p.labels@) == cargo_labels(pairs_view(init.labels@), c.key@, c.namespace@,
        true)
    &&& strs_view(p.binds@) == strs_view(init.binds@).push(secrets_bind(secret_dir))
    &&& p.network_mode@ == network_of(init)
    &&& p.init
}

/// Plans the init container run to completion before the main instances.
pub fn plan_init_container(
    cargo: &Cargo,
    init: &ContainerTemplate,
    secret_env: &Vec<String>,
    node: &str,
    gateway: &str,
    secret_dir: &str,
    suffix: &String,
) -> (p: InstancePlan)
    requires
        crate::keys::is_valid_suffix(suffix@),
    ensures
        init_plan_ok(p, *cargo, *init, strs_view(secret_env@), node@, gateway@, secret_dir@,
            suffix@),
{
    let name = crate::keys::gen_init_name(cargo.name.as_str(), suffix.as_str(),
        cargo.namespace.as_str());
    let hostname = name.clone();
    let env = build_instance_env(&init.env, secret_env, node, gateway, cargo.key.as_str(),
        cargo.namespace.as_str(), 0);
    let labels = build_cargo_labels(&init.labels, cargo.key.as_str(), cargo.namespace.as_str(),
        true);
    let binds = build_binds(&init.binds, secret_dir);
    let network_mode = resolve_network(init);
    let restart_policy = RestartPolicy::Never;
    InstancePlan { name, hostname, env, labels, binds, network_mode, restart_policy, init: true }
}

/// The image an instance pulls: the init container's own, or the main
/// template's when the init names none.
pub fn resolve_init_image(cargo: &Cargo, init: &ContainerTemplate) -> (r: Option<String>)
    ensures
        match r {
            Some(img) => match init.image {
                Some(own) => img@ == own@,
                None => cargo.spec.container.image is Some && img@
                    == cargo.spec.container.image->0@,
            },
            None => init.image is None && cargo.spec.container.image is None,
        },
{
    match &init.image {
        Some(own) => Some(own.clone()),
        None => match &cargo.spec.container.image {
            Some(main) => Some(main.clone()),
            None => None,
        },
    }
}

/// All rows of a sequence that carry the owner key and label count fully.
proof fn lemma_count_all_match(
    rows: Seq<crate::process::ProcessRowV>,
    kind_key: Seq<char>,
    label: Seq<char>,
    value: Seq<char>,
)
    requires
        forall|i: int| 0 <= i < rows.len() ==> crate::process::owner_row_with_label(
            #[trigger] rows[i],
            kind_key,
            label,
            value,
        ),
    ensures
        crate::process::count_with_label(rows, kind_key, label, value) == rows.len(),
    decreases rows.len(),
{
    if rows.len() > 0 {
        lemma_count_all_match(rows.drop_last(), kind_key, label, value);
    }
}

/// While a cargo runs, the processes that own its key and carry the
/// main-instance label number exactly the planned replication: starting a
/// cargo that had no processes leaves one main process per replica.
pub proof fn law_replication_count(
    before: Seq<crate::process::ProcessRowV>,
    after: Seq<crate::process::ProcessRowV>,
    plans: Seq<InstancePlan>,
    c: Cargo,
    secret_env: Seq<Seq<char>>,
    node: Seq<char>,
    gateway: Seq<char>,
    secret_dir: Seq<char>,
    suffixes: Seq<Seq<char>>,
)
    requires
        suffixes.len() == plans.len(),
        crate::process::count_with_label(
            before,
            c.key@,
            seq!['i', 'o', '.', 'n', 'a', 'n', 'o', 'c', 'l', '.', 'n', 'o', 't', '-', 'i', 'n',
                'i', 't', '-', 'c'],
            seq!['t', 'r', 'u', 'e'],
        ) == 0,
        after.len() == before.len() + plans.len(),
        after.take(before.len() as int) == before,
        forall|i: int| 0 <= i < plans.len() ==> main_plan_ok(#[trigger] plans[i], c, secret_env,
            node, gateway, secret_dir, suffixes[i], i as nat),
        forall|k: int| 0 <= k < plans.len() ==> {
            let r = #[trigger] after[before.len() + k];
            &&& r.kind_key == c.key@
            &&& r.data == crate::process::process_data_of(crate::text::pairs_view(
                plans[k].labels@,
            ))
        },
    ensures
        crate::process::count_with_label(
            after,
            c.key@,
            seq!['i', 'o', '.', 'n', 'a', 'n', 'o', 'c', 'l', '.', 'n', 'o', 't', '-', 'i', 'n',
                'i', 't', '-', 'c'],
            seq!['t', 'r', 'u', 'e'],
        ) == plans.len(),
{
    let label = seq!['i', 'o', '.', 'n', 'a', 'n', 'o', 'c', 'l', '.', 'n', 'o', 't', '-', 'i',
        'n', 'i', 't', '-', 'c'];
    let value = seq!['t', 'r', 'u', 'e'];
    let fresh = after.skip(before.len() as int);
    assert(after =~= before + fresh);
    assert forall|k: int| 0 <= k < fresh.len() implies crate::process::owner_row_with_label(
        #[trigger] fresh[k],
        c.key@,
        label,
        value,
    ) by {
        assert(fresh[k] == after[before.len() + k]);
        let lv = crate::text::pairs_view(plans[k].labels@);
        assert(lv == cargo_labels(crate::text::pairs_view(c.spec.container.labels@), c.key@,
            c.namespace@, false));
        let tl = crate::text::pairs_view(c.spec.container.labels@);
        assert(lv[tl.len() as int + 2] == (label, value));
        crate::process::lemma_label_contained(lv, label, value);
    }
    lemma_count_all_match(fresh, c.key@, label, value);
    crate::process::lemma_count_with_label_concat(before, fresh, c.key@, label, value);
}

/// The replication count holds across a zero-downtime update as well:
/// whatever the cargo owned before, once the drain window deletes the
/// flagged old processes, the main-labelled processes owning its key number
/// exactly the fresh plans. `mid` is the table right before the drain: the
/// earlier rows — every matching one flagged in `old_keys` by the rename —
/// with the fresh rows appended under engine ids the flag list does not
/// touch; `after` is what the deletion leaves.
pub proof fn law_replication_after_update(
    mid: Seq<crate::process::ProcessRowV>,
    after: Seq<crate::process::ProcessRowV>,
    old_keys: Seq<String>,
    plans: Seq<InstancePlan>,
    c: Cargo,
    secret_env: Seq<Seq<char>>,
    node: Seq<char>,
    gateway: Seq<char>,
    secret_dir: Seq<char>,
    suffixes: Seq<Seq<char>>,
)
    requires
        suffixes.len() == plans.len(),
        mid.len() >= plans.len(),
        forall|i: int| 0 <= i < mid.len() - plans.len() ==> (crate::process::owner_row_with_label(
            #[trigger] mid[i],
            c.key@,
            seq!['i', 'o', '.', 'n', 'a', 'n', 'o', 'c', 'l', '.', 'n', 'o', 't', '-', 'i', 'n',
                'i', 't', '-', 'c'],
            seq!['t', 'r', 'u', 'e'],
        ) ==> crate::filter::seq_has_str(old_keys, mid[i].key)),
        forall|k: int| 0 <= k < plans.len() ==> {
            let r = #[trigger] mid[mid.len() - plans.len() + k];
            &&& r.kind_key == c.key@
            &&& r.data == crate::process::process_data_of(crate::text::pairs_view(
                plans[k].labels@,
            ))
            &&& !crate::filter::seq_has_str(old_keys, r.key)
        },
        forall|i: int| 0 <= i < plans.len() ==> main_plan_ok(#[trigger] plans[i], c, secret_env,
            node, gateway, secret_dir, suffixes[i], i as nat),
        after == crate::process::without_keys(mid, old_keys),
    ensures
        crate::process::count_with_label(
            after,
            c.key@,
            seq!['i', 'o', '.', 'n', 'a', 'n', 'o', 'c', 'l', '.', 'n', 'o', 't', '-', 'i', 'n',
                'i', 't', '-', 'c'],
            seq!['t', 'r', 'u', 'e'],
        ) == plans.len(),
{
    let label = seq!['i', 'o', '.', 'n', 'a', 'n', 'o', 'c', 'l', '.', 'n', 'o', 't', '-', 'i',
        'n', 'i', 't', '-', 'c'];
    let value = seq!['t', 'r', 'u', 'e'];
    let split = mid.len() - plans.len();
    let head = mid.take(split as int);
    let tail = mid.skip(split as int);
    assert(mid =~= head + tail);
    crate::process::lemma_count_after_delete(mid, old_keys, c.key@, label, value);
    crate::process::lemma_count_excl_concat(head, tail, old_keys, c.key@, label, value);
    assert forall|i: int| 0 <= i < head.len() implies (crate::process::owner_row_with_label(
        #[trigger] head[i],
        c.key@,
        label,
        value,
    ) ==> crate::filter::seq_has_str(old_keys, head[i].key)) by {
        assert(head[i] == mid[i]);
    }
    crate::process::lemma_count_excl_none(head, old_keys, c.key@, label, value);
    assert forall|k: int| 0 <= k < tail.len() implies crate::process::owner_row_with_label(
        #[trigger] tail[k],
        c.key@,
        label,
        value,
    ) && !crate::filter::seq_has_str(old_keys, tail[k].key) by {
        assert(tail[k] == mid[split + k]);
        let lv = crate::text::pairs_view(plans[k].labels@);
        assert(lv == cargo_labels(crate::text::pairs_view(c.spec.container.labels@), c.key@,
            c.namespace@, false));
        let tl = crate::text::pairs_view(c.spec.container.labels@);
        assert(lv[tl.len() as int + 2] == (label, value));
        crate::process::lemma_label_contained(lv, label, value);
    }
    crate::process::lemma_count_excl_full(tail, old_keys, c.key@, label, value);
}

/// Stopping a cargo and starting it again with an unchanged specification
/// regenerates the process names: the stems stay the cargo's name, only the
/// random suffixes change, and no generated name is ever a `tmp-` name.
pub proof fn law_restart_regenerates_names(
    first: Seq<InstancePlan>,
    second: Seq<InstancePlan>,
    c: Cargo,
    secret_env: Seq<Seq<char>>,
    node: Seq<char>,
    gateway: Seq<char>,
    secret_dir: Seq<char>,
    suffixes1: Seq<Seq<char>>,
    suffixes2: Seq<Seq<char>>,
)
    requires
        c.name@.len() > 0,
        !crate::update::stem_flags_tmp(c.name@),
        first.len() == second.len(),
        suffixes1.len() == first.len(),
        suffixes2.len() == second.len(),
        forall|i: int| 0 <= i < first.len() ==> main_plan_ok(#[trigger] first[i], c, secret_env,
            node, gateway, secret_dir, suffixes1[i], i as nat),
        forall|i: int| 0 <= i < second.len() ==> main_plan_ok(#[trigger] second[i], c,
            secret_env, node, gateway, secret_dir, suffixes2[i], i as nat),
    ensures
        forall|i: int| 0 <= i < first.len() ==> (#[trigger] first[i].name@) == process_name_of(
            c.name@,
            suffixes1[i],
            c.namespace@,
            ProcessKind::Cargo,
        ),
        forall|i: int| 0 <= i < second.len() ==> (#[trigger] second[i].name@)
            == process_name_of(c.name@, suffixes2[i], c.namespace@, ProcessKind::Cargo),
        forall|i: int| 0 <= i < first.len() ==> !crate::keys::is_tmp_name(
            #[trigger] first[i].name@,
        ),
        forall|i: int| 0 <= i < second.len() ==> !crate::keys::is_tmp_name(
            #[trigger] second[i].name@,
        ),
{
    assert forall|i: int| 0 <= i < first.len() implies !crate::keys::is_tmp_name(
        #[trigger] first[i].name@,
    ) by {
        crate::update::lemma_name_tmp_iff_stem(c.name@, suffixes1[i], c.namespace@,
            ProcessKind::Cargo);
    }
    assert forall|i: int| 0 <= i < second.len() implies !crate::keys::is_tmp_name(
        #[trigger] second[i].name@,
    ) by {
        crate::update::lemma_name_tmp_iff_stem(c.name@, suffixes2[i], c.namespace@,
            ProcessKind::Cargo);
    }
}

} // verus!
