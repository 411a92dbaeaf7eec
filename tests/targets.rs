use ck::makefile::{extract_targets, parse_target_line, NotATarget};

fn strings(v: &[&str]) -> Vec<String> {
    v.iter().map(|s| s.to_string()).collect()
}

#[test]
fn single_name_with_colon_declares_itself() {
    for name in ["a", "build", "target.o", "x_1.2", "9lives", "Z"] {
        let line = format!("{}:", name);
        assert_eq!(parse_target_line(&line), Ok(strings(&[name])));
        assert_eq!(extract_targets(&line), strings(&[name]));
    }
}

#[test]
fn names_separated_by_spaces() {
    assert_eq!(parse_target_line("a b c:"), Ok(strings(&["a", "b", "c"])));
    assert_eq!(parse_target_line("  a   b:"), Ok(strings(&["a", "b"])));
}

#[test]
fn phony_assignment_wildcard_and_tab_declare_nothing() {
    assert!(parse_target_line(".PHONY: x y").is_err());
    assert!(parse_target_line("x := y").is_err());
    assert!(parse_target_line("%::").is_err());
    assert!(parse_target_line("\tx:").is_err());
}

#[test]
fn inline_recipe_is_ignored() {
    assert_eq!(parse_target_line("x: ; echo hi"), Ok(strings(&["x"])));
}

#[test]
fn double_colon_rule_declares_its_names() {
    assert_eq!(parse_target_line("x:: y"), Ok(strings(&["x"])));
}

#[test]
fn each_rejection_has_its_reason() {
    assert_eq!(parse_target_line("echo hello"), Err(NotATarget::NoColon));
    assert_eq!(parse_target_line(""), Err(NotATarget::NoColon));
    assert_eq!(parse_target_line(".PHONY: x y"), Err(NotATarget::NotTargetList));
    assert_eq!(parse_target_line("x :"), Err(NotATarget::NotTargetList));
    assert_eq!(parse_target_line(":"), Err(NotATarget::NotTargetList));
    assert_eq!(parse_target_line("   :"), Err(NotATarget::NotTargetList));
    assert_eq!(parse_target_line("a%b:"), Err(NotATarget::NotTargetList));
    assert_eq!(parse_target_line("x:=y"), Err(NotATarget::Assignment));
    assert_eq!(parse_target_line("x::=y"), Err(NotATarget::Assignment));
    assert_eq!(parse_target_line("a b::= c"), Err(NotATarget::Assignment));
    assert_eq!(extract_targets("x::=y\nz::\n"), strings(&["z"]));
}

#[test]
fn guard_line_declares_nothing_and_guards_are_never_listed() {
    let content = "_guard: a b\nall: a b\na b:\n";
    assert_eq!(extract_targets(content), strings(&["all", "a", "b"]));
    let names = extract_targets("_x:\nx _y z:\n");
    assert!(names.iter().all(|n| !n.starts_with('_')));
}

#[test]
fn recipe_file_scenario() {
    let content = "build: ; echo ok\n\ttouch x\n.PHONY: build\n_internal: build\n";
    assert_eq!(extract_targets(content), strings(&["build"]));
}

#[test]
fn duplicates_kept_in_file_order() {
    let content = "b:\na c:\nb:";
    assert_eq!(extract_targets(content), strings(&["b", "a", "c", "b"]));
}

#[test]
fn empty_and_blank_contents_declare_nothing() {
    assert_eq!(extract_targets(""), Vec::<String>::new());
    assert_eq!(extract_targets("\n\n\n"), Vec::<String>::new());
}

#[test]
fn carriage_returns_do_not_hide_targets() {
    assert_eq!(extract_targets("a:\r\nb: c\r\n"), strings(&["a", "b"]));
}

#[test]
fn non_ascii_after_colon_is_fine() {
    assert_eq!(parse_target_line("héllo:"), Err(NotATarget::NotTargetList));
    assert_eq!(parse_target_line("x: é"), Ok(strings(&["x"])));
}
