//! Configuration of the `kubevent` command and the `kubeventd` daemon, and the
//! decisions made on their command lines.
use vstd::prelude::*;
use crate::keyed::same_text;

verus! {

/// How much is logged.
#[derive(PartialEq, Eq, Structural, Clone, Copy, Debug)]
pub enum LogLevel {
    Error,
    Warn,
    Info,
    Debug,
    Trace,
}

/// `c` in ASCII lower case.
pub open spec fn ascii_lower(c: char) -> char {
    if 'A' <= c && c <= 'Z' {
        ((c as u32) + 32) as char
    } else {
        c
    }
}

/// `a` and `b` are equal but for the case of ASCII letters.
pub open spec fn eq_ignore_ascii_case(a: Seq<char>, b: Seq<char>) -> bool {
    &&& a.len() == b.len()
    &&& forall|i: int| 0 <= i < a.len() ==> ascii_lower(#[trigger] a[i]) == ascii_lower(b[i])
}

/// The level a name stands for: `error`, `warn`, `info`, `debug` or `trace`,
/// in any case of ASCII letters.
pub open spec fn level_named(s: Seq<char>) -> Option<LogLevel> {
    if eq_ignore_ascii_case(s, "ERROR"@) {
        Some(LogLevel::Error)
    } else if eq_ignore_ascii_case(s, "WARN"@) {
        Some(LogLevel::Warn)
    } else if eq_ignore_ascii_case(s, "INFO"@) {
        Some(LogLevel::Info)
    } else if eq_ignore_ascii_case(s, "DEBUG"@) {
        Some(LogLevel::Debug)
    } else if eq_ignore_ascii_case(s, "TRACE"@) {
        Some(LogLevel::Trace)
    } else {
        None
    }
}

/// Parses a log level with `log::Level`'s `FromStr`.
///
/// Claimed: the result is the level whose name (`ERROR`, `WARN`, `INFO`,
/// `DEBUG`, `TRACE`) equals the text ignoring ASCII case, and none otherwise,
/// as the crate's `from_str` compares with `eq_ignore_ascii_case`.
#[verifier::external_body]
fn parse_log_level(s: &str) -> (r: Option<LogLevel>)
    ensures
        r == level_named(s@),
{
    match s.parse::<log::Level>() {
        Ok(log::Level::Error) => Some(LogLevel::Error),
        Ok(log::Level::Warn) => Some(LogLevel::Warn),
        Ok(log::Level::Info) => Some(LogLevel::Info),
        Ok(log::Level::Debug) => Some(LogLevel::Debug),
        Ok(log::Level::Trace) => Some(LogLevel::Trace),
        Err(_) => None,
    }
}

/// Configuration shared by the command and the daemon.
#[derive(Debug)]
pub struct Config {
    /// Path of the kubeconfig file.
    pub kube_config: String,
    pub log_level: LogLevel,
    pub log_color: bool,
}

/// `base` joined with the relative component `c`, as `PathBuf::join` does on
/// Unix: a `/` goes between them unless `base` is empty or already ends
/// with one.
pub open spec fn join_component(base: Seq<char>, c: Seq<char>) -> Seq<char> {
    if base.len() == 0 || base.last() == '/' {
        base + c
    } else {
        base + "/"@ + c
    }
}

/// The default kubeconfig path: `.kube/config` in the home directory.
pub open spec fn default_kube_config(home: Seq<char>) -> Seq<char> {
    join_component(join_component(home, ".kube"@), "config"@)
}

/// `base` joined with the relative component `c`.
fn join_component_text(base: String, c: &str) -> (r: String)
    ensures
        r@ == join_component(base@, c@),
{
    let mut r = base;
    let n = r.as_str().unicode_len();
    if n > 0 && r.as_str().get_char(n - 1) == '/' {
        r.append(c);
    } else if n == 0 {
        r.append(c);
    } else {
        r.append("/");
        r.append(c);
    }
    r
}

impl Config {
    /// The default configuration for the home directory `home`: the
    /// kubeconfig at `.kube/config` in it, level `Info`, with colors.
    pub fn default(home: &str) -> (c: Config)
        ensures
            c.kube_config@ == default_kube_config(home@),
            c.log_level == LogLevel::Info,
            c.log_color,
    {
        let dir = join_component_text(home.to_owned(), ".kube");
        let kube_config = join_component_text(dir, "config");
        Config { kube_config, log_level: LogLevel::Info, log_color: true }
    }
}

/// Configuration of the daemon.
#[derive(Debug)]
pub struct KubeventDConfig {
    base: Config,
}

impl KubeventDConfig {
    /// The daemon's configuration on top of `base`.
    pub fn new(base: Config) -> (c: KubeventDConfig)
        ensures
            c.base_spec() == base,
    {
        KubeventDConfig { base }
    }

    /// The shared part.
    pub closed spec fn base_spec(&self) -> Config {
        self.base
    }

    /// The shared part.
    pub fn base(&self) -> (c: &Config)
        ensures
            *c == self.base_spec(),
    {
        &self.base
    }
}

/// Applies the command-line options to `config`: a `--log-level` that names a
/// level sets it (any other value leaves the level as it is),
/// `--no-log-color` turns colors off, and `--kubeconfig` gives the path of
/// the kubeconfig file.
pub fn process_args(config: Config, log_level: Option<&str>, no_log_color: bool, kube_config: Option<&str>) -> (c: Config)
    ensures
        c.kube_config@ == (match kube_config {
            Some(p) => p@,
            None => config.kube_config@,
        }),
        c.log_level == (match log_level {
            Some(s) => match level_named(s@) {
                Some(l) => l,
                None => config.log_level,
            },
            None => config.log_level,
        }),
        c.log_color == (config.log_color && !no_log_color),
{
    let mut config = config;
    if let Some(s) = log_level {
        if let Some(level) = parse_log_level(s) {
            config.log_level = level;
        }
    }
    if no_log_color {
        config.log_color = false;
    }
    if let Some(p) = kube_config {
        config.kube_config = p.to_owned();
    }
    config
}

/// The long version text: the version, and an empty build.
pub fn long_version(version: &str) -> (s: String)
    ensures
        s@ == "\nversion: "@ + version@ + "\nbuild: "@ + "\n"@,
{
    let mut s = "\nversion: ".to_owned();
    s.append(version);
    s.append("\nbuild: ");
    s.append("\n");
    s
}

/// The subcommands of `kubevent`.
#[derive(PartialEq, Eq, Structural, Clone, Copy, Debug)]
pub enum Subcommand {
    Install,
    Uninstall,
    Broker,
    Rule,
    RuleBinding,
    Status,
}

/// The name of a subcommand on the command line.
pub open spec fn subcommand_name(c: Subcommand) -> Seq<char> {
    match c {
        Subcommand::Install => "install"@,
        Subcommand::Uninstall => "uninstall"@,
        Subcommand::Broker => "broker"@,
        Subcommand::Rule => "rule"@,
        Subcommand::RuleBinding => "rulebinding"@,
        Subcommand::Status => "status"@,
    }
}

impl Subcommand {
    /// The name of the subcommand on the command line.
    pub fn name(&self) -> (s: &'static str)
        ensures
            s@ == subcommand_name(*self),
    {
        match self {
            Subcommand::Install => "install",
            Subcommand::Uninstall => "uninstall",
            Subcommand::Broker => "broker",
            Subcommand::Rule => "rule",
            Subcommand::RuleBinding => "rulebinding",
            Subcommand::Status => "status",
        }
    }
}

/// The subcommand of the given name.
pub fn subcommand_named(name: &str) -> (r: Option<Subcommand>)
    ensures
        r matches Some(c) ==> subcommand_name(c) == name@,
        r is None ==> forall|c: Subcommand| subcommand_name(c) != name@,
{
    let all = [
        Subcommand::Install,
        Subcommand::Uninstall,
        Subcommand::Broker,
        Subcommand::Rule,
        Subcommand::RuleBinding,
        Subcommand::Status,
    ];
    let mut i: usize = 0;
    while i < 6
        invariant
            i <= 6,
            all@ == seq![
                Subcommand::Install,
                Subcommand::Uninstall,
                Subcommand::Broker,
                Subcommand::Rule,
                Subcommand::RuleBinding,
                Subcommand::Status,
            ],
            forall|j: int| 0 <= j < i ==> subcommand_name(#[trigger] all@[j]) != name@,
        decreases 6 - i,
    {
        let c = all[i];
        if same_text(c.name(), name) {
            return Some(c);
        }
        i = i + 1;
    }
    assert forall|c: Subcommand| subcommand_name(c) != name@ by {
        match c {
            Subcommand::Install => assert(all@[0] == c),
            Subcommand::Uninstall => assert(all@[1] == c),
            Subcommand::Broker => assert(all@[2] == c),
            Subcommand::Rule => assert(all@[3] == c),
            Subcommand::RuleBinding => assert(all@[4] == c),
            Subcommand::Status => assert(all@[5] == c),
        }
    }
    None
}

/// What the command does.
#[derive(PartialEq, Eq, Structural, Clone, Copy, Debug)]
pub enum CmdAction {
    /// Run a subcommand; none of them is implemented yet.
    Unimplemented(Subcommand),
    /// Print the help text.
    PrintHelp,
}

/// Decides what the command does with the subcommand given on its command
/// line, if any: a known subcommand is run, anything else prints the help.
pub fn process_cmds(subcommand: Option<&str>) -> (a: CmdAction)
    ensures
        match subcommand {
            Some(name) => match a {
                CmdAction::Unimplemented(c) => subcommand_name(c) == name@,
                CmdAction::PrintHelp => forall|c: Subcommand| subcommand_name(c) != name@,
            },
            None => a == CmdAction::PrintHelp,
        },
{
    match subcommand {
        Some(name) => match subcommand_named(name) {
            Some(c) => CmdAction::Unimplemented(c),
            None => CmdAction::PrintHelp,
        },
        None => CmdAction::PrintHelp,
    }
}

} // verus!
