use nodo::cli::Target;
use nodo::config::Config;
use nodo::error::{CommandError, ReadError, WriteError};
use nodo::nodo::{Block, List, ListItem, NodoBuilder, TextItem};
use nodo::text::{parse_u32, split_trimmed, starts_with, trim_end_str, trim_start_str, trim_str};
use nodo::util::{build_path, find_target, is_hidden_dir, target_candidates};

fn config() -> Config {
    let mut c = Config::new();
    c.root_dir = "/home/u/.nodo".to_string();
    c.temp_dir = "/home/u/.nodo/temp".to_string();
    c.archive_dir = "/home/u/.nodo/archive".to_string();
    c
}

#[test]
fn build_path_adds_default_extension() {
    let c = config();
    assert_eq!(build_path(&c, "proj/note", true), "/home/u/.nodo/proj/note.md");
    assert_eq!(build_path(&c, "proj/note", false), "/home/u/.nodo/proj/note");
    assert_eq!(build_path(&c, "proj/note.txt", true), "/home/u/.nodo/proj/note.txt");
    assert_eq!(build_path(&c, "", true), "/home/u/.nodo/");
    let t = Target { inner: "a/b".to_string() };
    assert_eq!(t.build_path(&c, true), "/home/u/.nodo/a/b.md");
}

#[test]
fn find_target_takes_the_first_existing_candidate() {
    let c = config();
    let t = Target { inner: "proj/note".to_string() };
    assert_eq!(
        target_candidates(&c, &t),
        vec!["/home/u/.nodo/proj/note".to_string(), "/home/u/.nodo/proj/note.md".to_string()]
    );
    assert_eq!(find_target(&c, &t, &vec![true, true]), Ok("/home/u/.nodo/proj/note".to_string()));
    assert_eq!(find_target(&c, &t, &vec![false, true]), Ok("/home/u/.nodo/proj/note.md".to_string()));
    assert_eq!(find_target(&c, &t, &vec![false, false]), Err(CommandError::TargetMissing(t.clone())));
    let with_ext = Target { inner: "proj/note.md".to_string() };
    assert_eq!(target_candidates(&c, &with_ext).len(), 1);
}

#[test]
fn hidden_dirs_are_skipped_unless_walking_inside_them() {
    let c = config();
    assert!(is_hidden_dir(&c, "/home/u/.nodo", "/home/u/.nodo/temp"));
    assert!(is_hidden_dir(&c, "/home/u/.nodo", "/home/u/.nodo/archive/old.md"));
    assert!(!is_hidden_dir(&c, "/home/u/.nodo/temp", "/home/u/.nodo/temp/x.md"));
    assert!(!is_hidden_dir(&c, "/home/u/.nodo", "/home/u/.nodo/temporary"));
    assert!(!is_hidden_dir(&c, "/home/u/.nodo", "/home/u/.nodo/proj"));
}

#[test]
fn command_error_messages() {
    assert_eq!(CommandError::NoTarget.message(), "Please provide a target");
    assert_eq!(
        CommandError::TargetMissing(Target::default()).message(),
        "Couldn't find local file"
    );
    assert_eq!(
        CommandError::TargetMissing(Target { inner: "x".to_string() }).message(),
        "Couldn't find target: 'x'"
    );
    assert_eq!(CommandError::Str("boom".to_string()).message(), "boom");
}

#[test]
fn read_and_write_errors_become_command_errors() {
    assert_eq!(
        CommandError::from_read(ReadError::InvalidElement("e".to_string())),
        CommandError::Str("Encountered invalid element when reading nodo: e".to_string())
    );
    assert_eq!(
        CommandError::from_read(ReadError::Io("disk".to_string())),
        CommandError::Str("An unhandled io error was encountered: disk".to_string())
    );
    assert_eq!(
        CommandError::from_read(ReadError::Str("s".to_string())),
        CommandError::Str("s".to_string())
    );
    assert_eq!(
        CommandError::from_read(ReadError::Unhandled("u".to_string())),
        CommandError::Str("Encountered an unhandled element when reading nodo: u".to_string())
    );
    assert_eq!(
        CommandError::from_write(WriteError::Io("full".to_string())),
        CommandError::Str("An unhandled io error was encountered: full".to_string())
    );
    assert_eq!(ReadError::Unhandled("m".to_string()).message(), "m");
    assert_eq!(WriteError::Io("w".to_string()).message(), "w");
}

fn task(text: &str, done: bool) -> ListItem {
    ListItem::Task(vec![Block::Paragraph(vec![vec![TextItem::plain(text)].into()])], done, None)
}

fn note(text: &str) -> ListItem {
    ListItem::Text(vec![Block::Paragraph(vec![vec![TextItem::plain(text)].into()])], None)
}

#[test]
fn sort_tasks_moves_open_tasks_first_in_plain_lists() {
    let mut b = NodoBuilder::default();
    b.block(Block::List(List::Plain(vec![
        task("d1", true),
        task("o1", false),
        task("d2", true),
        task("o2", false),
        note("n"),
        task("d3", true),
        task("o3", false),
    ])))
    .block(Block::List(List::Numbered(vec![task("d", true), task("o", false)], 1)));
    let mut nodo = b.build();
    nodo.sort_tasks();
    assert_eq!(
        nodo.blocks(),
        &[
            Block::List(List::Plain(vec![
                task("o1", false),
                task("o2", false),
                task("d1", true),
                task("d2", true),
                note("n"),
                task("o3", false),
                task("d3", true),
            ])),
            Block::List(List::Numbered(vec![task("d", true), task("o", false)], 1)),
        ]
    );
}

#[test]
fn trimming_and_splitting_text() {
    assert_eq!(trim_str(" \t a b \u{3000}\n"), "a b");
    assert_eq!(trim_start_str("  x "), "x ");
    assert_eq!(trim_end_str("  x \u{a0}"), "  x");
    assert_eq!(trim_str("   "), "");
    assert_eq!(split_trimmed(" a, b ,,c ", ','), vec!["a", "b", "", "c"]);
    assert_eq!(split_trimmed("", ','), vec![""]);
    assert!(starts_with("tags: x", "tags:"));
    assert!(!starts_with("tag", "tags:"));
}

#[test]
fn parsing_numbers() {
    assert_eq!(parse_u32("42"), Some(42));
    assert_eq!(parse_u32("+7"), Some(7));
    assert_eq!(parse_u32("4294967295"), Some(4294967295));
    assert_eq!(parse_u32("4294967296"), None);
    assert_eq!(parse_u32(""), None);
    assert_eq!(parse_u32("+"), None);
    assert_eq!(parse_u32("1a"), None);
    assert_eq!(parse_u32("-1"), None);
}

#[test]
fn extension_with_separator_is_not_added() {
    let mut c = config();
    c.default_filetype = "a/b".to_string();
    assert_eq!(build_path(&c, "proj/note", true), "/home/u/.nodo/proj/note");
    let t = Target { inner: "proj/note".to_string() };
    assert_eq!(target_candidates(&c, &t), vec!["/home/u/.nodo/proj/note".to_string()]);
    assert_eq!(find_target(&c, &t, &vec![false]), Err(CommandError::TargetMissing(t.clone())));
}

#[test]
fn ignored_and_hidden_entries_are_skipped() {
    let mut c = config();
    c.overview_ignore_dirs = vec!["old".to_string(), "misc/tmp".to_string()];
    assert!(nodo::util::is_skipped(&c, "/home/u/.nodo", "/home/u/.nodo/old", "old"));
    assert!(nodo::util::is_skipped(&c, "/home/u/.nodo/misc", "/home/u/.nodo/misc/tmp", "misc/tmp"));
    assert!(nodo::util::is_skipped(&c, "/home/u/.nodo", "/home/u/.nodo/temp", "temp"));
    assert!(!nodo::util::is_skipped(&c, "/home/u/.nodo", "/home/u/.nodo/older", "older"));
}
