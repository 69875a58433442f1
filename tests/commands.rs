use nodo::cli::{Archive, Edit, New, Remove, Target, Template};
use nodo::commands::{diff_preview, lines_in_context, DiffLine, Removal};
use nodo::error::CommandError;

fn target(s: &str) -> Target {
    Target { inner: s.to_string() }
}

#[test]
fn new_and_archive_need_a_target() {
    let new = New { target: target(""), template: Template::default() };
    assert_eq!(new.check(), Err(CommandError::NoTarget));
    let new = New { target: target("a"), template: Template::default() };
    assert_eq!(new.check(), Ok(()));
    assert_eq!(Archive { target: target("") }.check(), Err(CommandError::NoTarget));
    assert_eq!(Archive { target: target("p/n") }.check(), Ok(()));
}

#[test]
fn edit_checks_its_options() {
    let edit = |t: &str, template: Option<&str>, temp: bool, create: bool| Edit {
        target: target(t),
        template: Template { inner: template.map(String::from) },
        temp,
        create,
    };
    assert_eq!(
        edit("x", None, true, false).check(),
        Err(CommandError::Str("Can't edit a temporary nodo with a target".to_string()))
    );
    assert_eq!(
        edit("x", Some("tpl"), false, false).check(),
        Err(CommandError::Str(
            "Can't edit from a template without the `create` option".to_string()
        ))
    );
    assert_eq!(edit("x", Some("tpl"), false, true).check(), Ok(()));
    assert_eq!(edit("", None, true, false).check(), Ok(()));
}

#[test]
fn removing_a_project_needs_force() {
    let remove = |force: bool| Remove { target: target("proj"), force };
    assert_eq!(remove(false).plan(true, false), Ok(Removal::File));
    assert_eq!(remove(true).plan(false, true), Ok(Removal::Tree));
    assert_eq!(
        remove(false).plan(false, true),
        Err(CommandError::Str("'proj' is a directory, can't remove without '-f'".to_string()))
    );
    assert_eq!(
        remove(true).plan(false, false),
        Err(CommandError::Str("Not sure what type of file the target was".to_string()))
    );
}

#[test]
fn diff_marks_changed_lines() {
    let (d, shown) = diff_preview("a\nb\nc\n", "a\nB\nc\n", 0);
    assert_eq!(shown, vec![false, true, true, false, false]);
    assert_eq!(
        d,
        vec![
            DiffLine::Both("a".to_string()),
            DiffLine::Left("b".to_string()),
            DiffLine::Right("B".to_string()),
            DiffLine::Both("c".to_string()),
            DiffLine::Both("".to_string()),
        ]
    );
}

#[test]
fn only_lines_near_changes_are_shown() {
    let both = |s: &str| DiffLine::Both(s.to_string());
    let lines = vec![
        both("1"),
        both("2"),
        both("3"),
        both("4"),
        DiffLine::Right("5".to_string()),
        both("6"),
        both("7"),
        both("8"),
    ];
    assert_eq!(
        lines_in_context(&lines, 2),
        vec![false, false, true, true, true, true, true, false]
    );
    assert_eq!(lines_in_context(&vec![both("x")], 2), vec![false]);
    assert_eq!(lines_in_context(&vec![], 2), Vec::<bool>::new());
}
