use dockman::ssh_config::{
    config_entries, include_depth_followed, include_target, sorted_aliases, ConfigEntry,
    IncludeTarget,
};

#[test]
fn hosts_and_includes_in_order() {
    let config = "# my machines\n\
Host cachyos-box mac-mini\n\
    HostName 192.168.1.5\n\
\n\
Include config.d/work\n\
host *.example.com github.com\n\
HOST\tweb?  nas\r\n\
  Include ~/.ssh/extra /etc/ssh/more\n\
Hostname notahost\n";
    assert_eq!(
        config_entries(config),
        vec![
            ConfigEntry::Host("cachyos-box".to_string()),
            ConfigEntry::Host("mac-mini".to_string()),
            ConfigEntry::Include("config.d/work".to_string()),
            ConfigEntry::Host("nas".to_string()),
            ConfigEntry::Include("~/.ssh/extra".to_string()),
            ConfigEntry::Include("/etc/ssh/more".to_string()),
        ]
    );
}

#[test]
fn empty_and_comment_only_configs_have_no_entries() {
    assert_eq!(config_entries(""), vec![]);
    assert_eq!(config_entries("  # Host nothere\n\n"), vec![]);
    assert_eq!(config_entries("Host"), vec![]);
}

#[test]
fn include_targets() {
    assert_eq!(include_target("~/.ssh/extra"), IncludeTarget::UnderHome(".ssh/extra".to_string()));
    assert_eq!(include_target("~other/cfg"), IncludeTarget::AsWritten);
    assert_eq!(include_target("/etc/ssh/cfg"), IncludeTarget::AsWritten);
    assert_eq!(include_target("config.d/x"), IncludeTarget::BesideConfig);
}

#[test]
fn aliases_sorted_and_deduplicated() {
    let aliases = vec!["nas".to_string(), "box".to_string(), "nas".to_string(), "Box".to_string(), "b".to_string()];
    assert_eq!(sorted_aliases(aliases), vec!["Box", "b", "box", "nas"]);
    assert_eq!(sorted_aliases(vec![]), Vec::<String>::new());
}

#[test]
fn wildcard_and_pattern_hosts_are_skipped() {
    let config = "Host *\nHost github.com\nHost nas\n";
    assert_eq!(config_entries(config), vec![ConfigEntry::Host("nas".to_string())]);
}

#[test]
fn includes_are_followed_one_level_deep() {
    assert!(include_depth_followed(0));
    assert!(include_depth_followed(1));
    assert!(!include_depth_followed(2));
    assert!(!include_depth_followed(255));
}

#[test]
fn dotted_names_and_addresses_are_kept() {
    let config = "Host nas.local 10.0.0.2 github.com\n";
    assert_eq!(
        config_entries(config),
        vec![
            ConfigEntry::Host("nas.local".to_string()),
            ConfigEntry::Host("10.0.0.2".to_string()),
        ]
    );
}
