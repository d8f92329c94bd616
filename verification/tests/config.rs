use kubevent::config::{
    long_version, process_args, process_cmds, subcommand_named, CmdAction, Config, KubeventDConfig, LogLevel,
    Subcommand,
};

#[test]
fn default_config() {
    let c = Config::default("/home/u");
    assert_eq!(c.kube_config, "/home/u/.kube/config");
    assert_eq!(Config::default("/home/u/").kube_config, "/home/u/.kube/config");
    assert_eq!(Config::default("").kube_config, ".kube/config");
    assert_eq!(c.log_level, LogLevel::Info);
    assert!(c.log_color);
    let d = KubeventDConfig::new(c);
    assert_eq!(d.base().log_level, LogLevel::Info);
}

#[test]
fn log_level_option_sets_level() {
    let c = process_args(Config::default("/home/k"), Some("WARN"), false, None);
    assert_eq!(c.log_level, LogLevel::Warn);
    let c = process_args(Config::default("/home/k"), Some("trace"), false, None);
    assert_eq!(c.log_level, LogLevel::Trace);
    let c = process_args(Config::default("/home/k"), Some("DeBuG"), false, None);
    assert_eq!(c.log_level, LogLevel::Debug);
    let c = process_args(Config::default("/home/k"), Some("error"), false, None);
    assert_eq!(c.log_level, LogLevel::Error);
}

#[test]
fn unknown_log_level_keeps_level() {
    let c = process_args(Config::default("/home/k"), Some("OFF"), false, None);
    assert_eq!(c.log_level, LogLevel::Info);
    let c = process_args(Config::default("/home/k"), Some("verbose"), false, None);
    assert_eq!(c.log_level, LogLevel::Info);
}

#[test]
fn no_log_color_turns_colors_off() {
    let c = process_args(Config::default("/home/k"), None, true, None);
    assert!(!c.log_color);
    assert_eq!(c.log_level, LogLevel::Info);
    let c = process_args(Config::default("/home/k"), None, false, None);
    assert!(c.log_color);
}

#[test]
fn long_version_text() {
    assert_eq!(long_version("0.1.0"), "\nversion: 0.1.0\nbuild: \n");
}

#[test]
fn subcommands_by_name() {
    assert_eq!(subcommand_named("install"), Some(Subcommand::Install));
    assert_eq!(subcommand_named("rulebinding"), Some(Subcommand::RuleBinding));
    assert_eq!(subcommand_named("rule-binding"), None);
    assert_eq!(Subcommand::Status.name(), "status");
}

#[test]
fn commands_decide_action() {
    assert_eq!(process_cmds(Some("broker")), CmdAction::Unimplemented(Subcommand::Broker));
    assert_eq!(process_cmds(Some("uninstall")), CmdAction::Unimplemented(Subcommand::Uninstall));
    assert_eq!(process_cmds(Some("bogus")), CmdAction::PrintHelp);
    assert_eq!(process_cmds(None), CmdAction::PrintHelp);
}

#[test]
fn kubeconfig_option_sets_path() {
    let c = process_args(Config::default("/home/u"), None, false, Some("/etc/kube.yaml"));
    assert_eq!(c.kube_config, "/etc/kube.yaml");
    let c = process_args(Config::default("/home/u"), Some("debug"), true, None);
    assert_eq!(c.kube_config, "/home/u/.kube/config");
    assert_eq!(c.log_level, LogLevel::Debug);
    assert!(!c.log_color);
}
