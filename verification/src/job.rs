//! Jobs: finite container pipelines. Containers run one after another, each
//! awaited to completion; a non-zero exit fails the job and nothing further
//! starts.

use vstd::prelude::*;

use crate::cargo::{ContainerTemplate, InstancePlan, RestartPolicy};
use crate::lifecycle::ObjPsStatusKind;
use crate::text::{dec_rep, lemma_pairs_view, lemma_strs_view, pairs_view, push_char, strs_view,
    u64_to_dec};

verus! {

/// A job: an ordered list of containers run to completion.
pub struct Job {
    pub name: String,
    pub containers: Vec<ContainerTemplate>,
    pub secrets: Vec<String>,
    pub schedule: Option<String>,
}

/// The name of a job's `index`-th container.
pub open spec fn job_instance_name(name: Seq<char>, index: nat, suffix: Seq<char>) -> Seq<char> {
    name + seq!['-'] + dec_rep(index) + seq!['-'] + suffix + seq!['.', 'j']
}

/// The ownership label every job process carries.
pub open spec fn job_labels(
    template: Seq<(Seq<char>, Seq<char>)>,
    name: Seq<char>,
) -> Seq<(Seq<char>, Seq<char>)> {
    template + seq![(seq!['i', 'o', '.', 'n', 'a', 'n', 'o', 'c', 'l', '.', 'j'], name)]
}

/// The bind line mounting a job's secret directory.
pub open spec fn job_secrets_bind(secret_dir: Seq<char>) -> Seq<char> {
    secret_dir + seq!['/', ':', '/', 'o', 'p', 't', '/', 'n', 'a', 'n', 'o', 'c', 'l', '.', 'i',
        'o', '/', 's', 'e', 'c', 'r', 'e', 't', 's']
}

/// Everything a planned job container must be.
pub open spec fn job_plan_ok(
    p: InstancePlan,
    j: Job,
    t: ContainerTemplate,
    secret_env: Seq<Seq<char>>,
    secret_dir: Seq<char>,
    suffix: Seq<char>,
    index: nat,
) -> bool {
    &&& p.name@ == job_instance_name(j.name@, index, suffix)
    &&& strs_view(p.env@) == strs_view(t.env@) + secret_env
    &&& pairs_view(p.labels@) == job_labels(pairs_view(t.labels@), j.name@)
    &&& strs_view(p.binds@) == strs_view(t.binds@).push(job_secrets_bind(secret_dir))
    &&& p.network_mode@ == crate::cargo::network_of(t)
    &&& !p.init
}

/// Plans one job container.
#[verifier::loop_isolation(false)]
pub fn plan_job_instance(
    job: &Job,
    index: usize,
    template: &ContainerTemplate,
    secret_env: &Vec<String>,
    secret_dir: &str,
    suffix: &String,
) -> (p: InstancePlan)
    requires
        crate::keys::is_valid_suffix(suffix@),
    ensures
        job_plan_ok(p, *job, *template, strs_view(secret_env@), secret_dir@, suffix@,
            index as nat),
{
    // <name>-<index>-<suffix>.j
    let mut name = job.name.clone();
    push_char(&mut name, '-');
    let ord = u64_to_dec(index as u64);
    name.append(ord.as_str());
    push_char(&mut name, '-');
    name.append(suffix.as_str());
    name.append(".j");
    proof {
        reveal_strlit(".j");
        assert(name@ =~= job_instance_name(job.name@, index as nat, suffix@));
    }
    // template env then secret-sourced env
    proof {
        lemma_strs_view(template.env@);
        lemma_strs_view(secret_env@);
    }
    let mut env = crate::text::clone_strs(&template.env);
    let mut i: usize = 0;
    while i < secret_env.len()
        invariant
            i <= secret_env@.len(),
            strs_view(env@) == strs_view(template.env@) + strs_view(secret_env@).take(i as int),
        decreases secret_env@.len() - i,
    {
        let ghost pre_vec = env@;
        let ghost pre = strs_view(env@);
        env.push(secret_env[i].clone());
        proof {
            assert(env@.drop_last() =~= pre_vec);
            assert(strs_view(env@) =~= pre.push(secret_env@[i as int]@));
            assert(strs_view(secret_env@).take(i + 1) =~= strs_view(secret_env@).take(
                i as int,
            ).push(secret_env@[i as int]@));
        }
        i += 1;
    }
    proof {
        assert(strs_view(secret_env@).take(secret_env@.len() as int) =~= strs_view(secret_env@));
    }
    // the ownership label
    proof {
        lemma_pairs_view(template.labels@);
    }
    let mut labels = crate::text::clone_pairs(&template.labels);
    let ghost lbase = pairs_view(labels@);
    let ghost lpre = labels@;
    labels.push((String::from_str("io.nanocl.j"), job.name.clone()));
    proof {
        reveal_strlit("io.nanocl.j");
        assert(labels@.drop_last() =~= lpre);
        assert(pairs_view(labels@) == lbase.push((labels@.last().0@, labels@.last().1@)));
        assert(("io.nanocl.j")@ =~= seq!['i', 'o', '.', 'n', 'a', 'n', 'o', 'c', 'l', '.', 'j']);
        assert(pairs_view(labels@) =~= job_labels(pairs_view(template.labels@), job.name@));
    }
    // the secret mount
    proof {
        lemma_strs_view(template.binds@);
    }
    let mut binds = crate::text::clone_strs(&template.binds);
    let ghost bbase = strs_view(binds@);
    let mut mount = String::new();
    mount.append(secret_dir);
    mount.append("/:/opt/nanocl.io/secrets");
    proof {
        reveal_strlit("/:/opt/nanocl.io/secrets");
        assert(mount@ =~= job_secrets_bind(secret_dir@));
    }
    let ghost bpre = binds@;
    binds.push(mount);
    proof {
        assert(binds@.drop_last() =~= bpre);
        assert(strs_view(binds@) == bbase.push(binds@.last()@));
    }
    let network_mode = match &template.network_mode {
        Some(n) => n.clone(),
        None => {
            let n = String::from_str("nanoclbr0");
            proof {
                reveal_strlit("nanoclbr0");
                assert(n@ =~= crate::cargo::default_network());
            }
            n
        }
    };
    let hostname = name.clone();
    InstancePlan {
        name,
        hostname,
        env,
        labels,
        binds,
        network_mode,
        restart_policy: RestartPolicy::Never,
        init: false,
    }
}

/// What the run loop does after one container finished: a non-zero exit
/// fails the job; a zero exit starts the next container, or finishes the job
/// when it was the last.
#[derive(Clone, Copy, PartialEq, Eq, Structural, Debug)]
pub enum JobStep {
    RunNext { index: usize },
    Finished,
    Failed,
}

/// Decides the next step of the sequential run loop.
pub fn job_next_step(total: usize, index: usize, exit_code: i64) -> (s: JobStep)
    requires
        index < total,
    ensures
        exit_code != 0 ==> s == JobStep::Failed,
        exit_code == 0 && index + 1 < total ==> s == (JobStep::RunNext { index: (index + 1) as usize }),
        exit_code == 0 && index + 1 >= total ==> s == JobStep::Finished,
{
    if exit_code != 0 {
        JobStep::Failed
    } else if index + 1 < total {
        JobStep::RunNext { index: index + 1 }
    } else {
        JobStep::Finished
    }
}

/// The position of the first failing exit code.
pub open spec fn first_failure(codes: Seq<i64>) -> Option<int>
    decreases codes.len(),
{
    if codes.len() == 0 {
        None
    } else if codes[0] != 0 {
        Some(0int)
    } else {
        match first_failure(codes.drop_first()) {
            Some(i) => Some(i + 1),
            None => None,
        }
    }
}

/// How a whole sequential run ends.
pub struct JobRunOutcome {
    pub status: ObjPsStatusKind,
    pub started: usize,
}

/// Folds the run loop over the containers' exit codes: the job fails at the
/// first non-zero exit and no later container starts; it finishes when every
/// container exits zero.
#[verifier::loop_isolation(false)]
pub fn job_outcome(codes: &Vec<i64>) -> (r: JobRunOutcome)
    requires
        codes@.len() > 0,
    ensures
        match first_failure(codes@) {
            Some(i) => r.status == ObjPsStatusKind::Fail && r.started == i + 1,
            None => r.status == ObjPsStatusKind::Finish && r.started == codes@.len(),
        },
{
    let mut i: usize = 0;
    while i < codes.len()
        invariant
            i <= codes@.len(),
            forall|k: int| 0 <= k < i ==> codes@[k] == 0,
        decreases codes@.len() - i,
    {
        if codes[i] != 0 {
            proof {
                lemma_first_failure_at(codes@, i as int);
            }
            return JobRunOutcome { status: ObjPsStatusKind::Fail, started: i + 1 };
        }
        i += 1;
    }
    proof {
        lemma_first_failure_none(codes@);
    }
    JobRunOutcome { status: ObjPsStatusKind::Finish, started: codes.len() }
}

/// `first_failure` answers the scan position of the first non-zero code.
proof fn lemma_first_failure_at(codes: Seq<i64>, i: int)
    requires
        0 <= i < codes.len(),
        codes[i] != 0,
        forall|k: int| 0 <= k < i ==> codes[k] == 0,
    ensures
        first_failure(codes) == Some(i),
    decreases i,
{
    if i > 0 {
        assert(forall|k: int| 0 <= k < codes.drop_first().len()
            ==> #[trigger] codes.drop_first()[k] == codes[k + 1]);
        lemma_first_failure_at(codes.drop_first(), i - 1);
    }
}

/// A run with only zero exits has no failure.
proof fn lemma_first_failure_none(codes: Seq<i64>)
    requires
        forall|k: int| 0 <= k < codes.len() ==> codes[k] == 0,
    ensures
        first_failure(codes) is None,
    decreases codes.len(),
{
    if codes.len() > 0 {
        assert(forall|k: int| 0 <= k < codes.drop_first().len()
            ==> #[trigger] codes.drop_first()[k] == codes[k + 1]);
        lemma_first_failure_none(codes.drop_first());
    }
}

} // verus!
