use editor_core::language::{detect_language_from_extension, is_dot_folder};
use editor_core::text::{join_with_newlines, lines_size, split_lines};

#[test]
fn extensions_map_to_tags() {
    assert_eq!(detect_language_from_extension("src/main.rs"), "rust");
    assert_eq!(detect_language_from_extension("MAIN.PY"), "python");
    assert_eq!(detect_language_from_extension("a/b.tsx"), "typescript");
    assert_eq!(detect_language_from_extension("x.hxx"), "cpp");
    assert_eq!(detect_language_from_extension("x.psd1"), "powershell");
    assert_eq!(detect_language_from_extension("x.Markdown"), "markdown");
    assert_eq!(detect_language_from_extension("x.mli"), "ocaml");
}

#[test]
fn unknown_extension_is_its_own_tag() {
    assert_eq!(detect_language_from_extension("notes.XYZ"), "XYZ");
    assert_eq!(detect_language_from_extension("Makefile"), "");
    assert_eq!(detect_language_from_extension(".bashrc"), "");
    assert_eq!(detect_language_from_extension("archive.tar.gz"), "gz");
}

#[test]
fn dot_folders() {
    assert!(is_dot_folder(".git"));
    assert!(!is_dot_folder("src"));
    assert!(!is_dot_folder(""));
}

#[test]
fn split_and_join() {
    let lines = split_lines("a\r\nb\n\nc\r\r");
    assert_eq!(lines, vec!["a", "b", "", "c"]);
    assert_eq!(join_with_newlines(&lines), "a\nb\n\nc");
    assert_eq!(lines_size(&lines), 6);
    assert_eq!(split_lines(""), vec![""]);
    assert_eq!(split_lines("\n"), vec!["", ""]);
    assert_eq!(lines_size(&Vec::new()), 0);
}

use editor_core::listing::{
    build_dir_entry, collect_children, compare_entries, is_ignored_path, is_listed,
    list_dir_children, RawEntry,
};
use editor_core::runner::command_outcome;
use std::cmp::Ordering;

fn raw(path: &str, name: &str, is_dir: bool) -> RawEntry {
    RawEntry { path: path.to_string(), name: name.to_string(), is_dir }
}

#[test]
fn dot_directories_are_not_listed() {
    assert!(!is_listed(true, ".git"));
    assert!(is_listed(false, ".gitignore"));
    assert!(is_listed(true, "src"));
}

#[test]
fn entries_take_the_file_name() {
    let e = build_dir_entry("root/src/main.rs", false, true);
    assert_eq!(e.name, "main.rs");
    assert_eq!(e.path, "root/src/main.rs");
    assert!(!e.is_dir);
    assert!(e.ignored);
    assert!(e.children.is_none());
    let top = build_dir_entry("/", true, false);
    assert_eq!(top.name, "/");
}

#[test]
fn directories_sort_first_then_names_without_case() {
    let a = build_dir_entry("r/Beta", false, false);
    let b = build_dir_entry("r/alpha", false, false);
    let d = build_dir_entry("r/zeta", true, false);
    assert_eq!(compare_entries(&b, &a), Ordering::Less);
    assert_eq!(compare_entries(&a, &b), Ordering::Greater);
    assert_eq!(compare_entries(&d, &b), Ordering::Less);
    assert_eq!(compare_entries(&b, &d), Ordering::Greater);
    let c = build_dir_entry("r/ALPHA", false, false);
    assert_eq!(compare_entries(&b, &c), Ordering::Equal);
    let e = build_dir_entry("r/alphabet", false, false);
    assert_eq!(compare_entries(&b, &e), Ordering::Less);
}

#[test]
fn children_skip_dot_directories_and_keep_order() {
    let entries = vec![
        raw("r/.git", ".git", true),
        raw("r/b.txt", "b.txt", false),
        raw("r/.env", ".env", false),
        raw("r/src", "src", true),
    ];
    let children = collect_children(&entries, "r", None);
    let names: Vec<_> = children.iter().map(|c| c.name.clone()).collect();
    assert_eq!(names, vec!["b.txt", ".env", "src"]);
    assert!(children.iter().all(|c| !c.ignored));
    assert!(children[2].is_dir);
}

#[test]
fn no_patterns_ignore_nothing() {
    assert!(!is_ignored_path(None, "r", "r/target", true));
}

#[test]
fn ignore_patterns_mark_entries() {
    let mut builder = ignore::gitignore::GitignoreBuilder::new("r");
    builder.add_line(None, "target/").unwrap();
    builder.add_line(None, "*.log").unwrap();
    let m = builder.build().unwrap();
    assert!(is_ignored_path(Some(&m), "r", "r/target", true));
    assert!(!is_ignored_path(Some(&m), "r", "r/target", false));
    assert!(is_ignored_path(Some(&m), "r", "r/x.log", false));
    assert!(!is_ignored_path(Some(&m), "r", "r/x.rs", false));
    let entries = vec![raw("r/app.log", "app.log", false), raw("r/main.rs", "main.rs", false)];
    let children = collect_children(&entries, "r", Some(&m));
    assert!(children[0].ignored);
    assert!(!children[1].ignored);
}

#[test]
fn runner_outcomes() {
    assert_eq!(command_outcome(true, "out".into(), "warn".into(), "failed"), Ok("out".to_string()));
    assert_eq!(command_outcome(false, "out".into(), "bad model".into(), "failed"), Err("bad model".to_string()));
    assert_eq!(command_outcome(false, "".into(), " \n\t".into(), "failed"), Err("failed".to_string()));
    assert_eq!(command_outcome(false, "".into(), "".into(), "failed"), Err("failed".to_string()));
}

#[test]
fn listing_sorts_directories_first_then_names() {
    let entries = vec![
        raw("r/zeta.txt", "zeta.txt", false),
        raw("r/Beta", "Beta", true),
        raw("r/.hidden", ".hidden", true),
        raw("r/alpha.rs", "alpha.rs", false),
        raw("r/Alpha.md", "Alpha.md", false),
        raw("r/src", "src", true),
    ];
    let names: Vec<_> = list_dir_children(&entries, "r", None).iter().map(|c| c.name.clone()).collect();
    assert_eq!(names, vec!["Beta", "src", "Alpha.md", "alpha.rs", "zeta.txt"]);
}
