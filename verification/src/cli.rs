//! The client-facing argument and display shapes. The binary that parses a
//! command line carries derive-bearing copies of these; the core keeps the
//! bare data and the conversions on it.

use vstd::prelude::*;

verus! {

/// Options of the log command.
pub struct LogsOpts {
    /// Name of process to show logs
    pub name: String,
    /// Only include logs since unix timestamp
    pub since: Option<i64>,
    /// Only include logs until unix timestamp
    pub until: Option<i64>,
    /// If integer only return last n logs, if "all" returns all logs
    pub tail: Option<String>,
    /// Whether to stamp every log line
    pub timestamps: bool,
    /// Whether to keep the log open as a stream
    pub follow: bool,
}

/// The query a log request carries.
pub struct ProcessLogQuery {
    pub namespace: Option<String>,
    pub since: Option<i64>,
    pub until: Option<i64>,
    pub tail: Option<String>,
    pub timestamps: Option<bool>,
    pub follow: Option<bool>,
    pub stderr: Option<bool>,
    pub stdout: Option<bool>,
}

impl ProcessLogQuery {
    /// The query the log options stand for: both output streams are read,
    /// and no namespace is forced.
    pub fn from(opts: LogsOpts) -> (q: ProcessLogQuery)
        ensures
            q.namespace is None,
            q.since == opts.since,
            q.until == opts.until,
            (match (q.tail, opts.tail) {
                (Some(a), Some(b)) => a@ == b@,
                (None, None) => true,
                _ => false,
            }),
            q.timestamps == Some(opts.timestamps),
            q.follow == Some(opts.follow),
            q.stderr == Some(true),
            q.stdout == Some(true),
    {
        ProcessLogQuery {
            namespace: None,
            since: opts.since,
            until: opts.until,
            tail: opts.tail,
            timestamps: Some(opts.timestamps),
            follow: Some(opts.follow),
            stderr: Some(true),
            stdout: Some(true),
        }
    }
}

/// The formats the client prints in.
#[derive(Clone, Copy, PartialEq, Eq, Structural, Debug)]
pub enum DisplayFormat {
    Yaml,
    Toml,
    Json,
}

/// The name of a display format.
pub open spec fn format_text(f: DisplayFormat) -> Seq<char> {
    match f {
        DisplayFormat::Yaml => seq!['y', 'a', 'm', 'l'],
        DisplayFormat::Toml => seq!['t', 'o', 'm', 'l'],
        DisplayFormat::Json => seq!['j', 's', 'o', 'n'],
    }
}

impl DisplayFormat {
    /// Prints the format's name.
    pub fn label(&self) -> (r: String)
        ensures
            r@ == format_text(*self),
    {
        match self {
            DisplayFormat::Yaml => {
                let r = String::from_str("yaml");
                proof {
                    reveal_strlit("yaml");
                    assert(r@ =~= format_text(*self));
                }
                r
            }
            DisplayFormat::Toml => {
                let r = String::from_str("toml");
                proof {
                    reveal_strlit("toml");
                    assert(r@ =~= format_text(*self));
                }
                r
            }
            DisplayFormat::Json => {
                let r = String::from_str("json");
                proof {
                    reveal_strlit("json");
                    assert(r@ =~= format_text(*self));
                }
                r
            }
        }
    }
}

impl Default for DisplayFormat {
    /// The client prints YAML unless told otherwise.
    fn default() -> (r: DisplayFormat)
        ensures
            r == DisplayFormat::Yaml,
    {
        DisplayFormat::Yaml
    }
}

/// How an error crosses the HTTP boundary: the status code is carried by the
/// response, only the note stands in the body.
pub struct ApiError {
    pub msg: String,
}

/// Options removing a container image: id or name of the image to delete.
pub struct CargoImageRemoveOpts {
    pub name: String,
}

/// A container image to create.
pub struct CargoImagePartial {
    pub name: String,
}

/// Options deploying a container image.
pub struct CargoImageDeployOpts {
    pub name: String,
}

/// Options inspecting a container image.
pub struct CargoImageInspectOpts {
    pub name: String,
}

/// The image subcommands.
pub enum CargoImageCommands {
    List,
    Create(CargoImagePartial),
    Remove(CargoImageRemoveOpts),
    Inspect(CargoImageInspectOpts),
}

/// The image command group.
pub struct CargoImageArgs {
    pub commands: CargoImageCommands,
}

} // verus!
