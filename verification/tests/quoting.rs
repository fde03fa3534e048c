use dockman::quoting::{bash_double_quote, cd_prefix, shell_quote};

#[test]
fn shell_quote_wraps_in_single_quotes() {
    assert_eq!(shell_quote("/home/jim/docker/nextcloud"), "'/home/jim/docker/nextcloud'");
    assert_eq!(shell_quote("my stacks/app"), "'my stacks/app'");
    assert_eq!(shell_quote(""), "''");
}

#[test]
fn shell_quote_escapes_single_quotes() {
    assert_eq!(shell_quote("it's"), "'it'\\''s'");
    assert_eq!(shell_quote("'"), "''\\'''");
}

#[test]
fn cd_prefix_quotes_the_directory() {
    assert_eq!(cd_prefix("/srv/my app"), "cd '/srv/my app'");
}

#[test]
fn bash_double_quote_escapes_specials() {
    assert_eq!(bash_double_quote("nginx:1.25"), "\"nginx:1.25\"");
    assert_eq!(bash_double_quote("a\\b\"c$d`e"), "\"a\\\\b\\\"c\\$d\\`e\"");
    assert_eq!(bash_double_quote(""), "\"\"");
}
