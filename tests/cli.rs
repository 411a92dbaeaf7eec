use ck::args::{resolve_args, CliAction, DEFAULT_FILE};

#[test]
fn help_wins() {
    assert_eq!(resolve_args(true, true, &vec!["f".to_string()]), CliAction::Help);
}

#[test]
fn version_exits() {
    assert_eq!(resolve_args(false, true, &vec![]), CliAction::Version);
}

#[test]
fn first_free_argument_names_the_file() {
    let free = vec!["build.mk".to_string(), "other".to_string()];
    assert_eq!(resolve_args(false, false, &free), CliAction::Run("build.mk".to_string()));
}

#[test]
fn default_file_is_makefile() {
    assert_eq!(DEFAULT_FILE, "Makefile");
    assert_eq!(resolve_args(false, false, &vec![]), CliAction::Run("Makefile".to_string()));
}
