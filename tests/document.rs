use editor_core::document::{Editor, EditorError, Event};

fn lines_of(ed: &Editor) -> Vec<String> {
    let n = ed.metadata().unwrap().line_count;
    (0..n).map(|i| ed.read_line(i).unwrap()).collect()
}

fn expected_size(lines: &[String]) -> usize {
    lines.iter().map(|l| l.len()).sum::<usize>() + lines.len().saturating_sub(1)
}

fn two_line_editor() -> Editor {
    let mut ed = Editor::new();
    ed.open_file("notes.txt", "first\nsecond");
    ed
}

#[test]
fn open_python_file() {
    let mut ed = Editor::new();
    let meta = ed.open_file("a.py", "def f():\n    pass\n");
    assert_eq!(lines_of(&ed), vec!["def f():", "    pass", ""]);
    assert_eq!(meta.language, "python");
    assert_eq!(meta.line_count, 3);
    assert_eq!(meta.name, "a.py");
    assert_eq!(meta.path, "a.py");
    // Bytes of the lines plus one separator between each pair.
    assert_eq!(meta.size, 18);
}

#[test]
fn open_strips_carriage_returns() {
    let mut ed = Editor::new();
    let meta = ed.open_file("dir/sub/win.txt", "a\r\nb\r\r\n\r");
    assert_eq!(lines_of(&ed), vec!["a", "b", ""]);
    assert_eq!(meta.name, "win.txt");
    assert_eq!(meta.language, "txt");
    assert_eq!(meta.size, 4);
}

#[test]
fn open_empty_text_has_one_line() {
    let mut ed = Editor::new();
    let meta = ed.open_file("empty.rs", "");
    assert_eq!(meta.line_count, 1);
    assert_eq!(meta.size, 0);
    assert_eq!(meta.language, "rust");
}

#[test]
fn open_replaces_previous_document() {
    let mut ed = two_line_editor();
    ed.open_file("other.go", "package main");
    assert_eq!(lines_of(&ed), vec!["package main"]);
    assert_eq!(ed.metadata().unwrap().language, "go");
}

#[test]
fn create_empty_file_installs_one_empty_line() {
    let mut ed = two_line_editor();
    let meta = ed.create_empty_file("src/new.TS");
    assert_eq!(meta.line_count, 1);
    assert_eq!(meta.size, 0);
    assert_eq!(meta.language, "typescript");
    assert_eq!(meta.name, "new.TS");
    assert_eq!(lines_of(&ed), vec![""]);
}

#[test]
fn read_line_past_end_is_empty() {
    let ed = two_line_editor();
    assert_eq!(ed.read_line(1).unwrap(), "second");
    assert_eq!(ed.read_line(2).unwrap(), "");
    assert_eq!(ed.read_line(1000).unwrap(), "");
}

#[test]
fn write_line_in_range() {
    let mut ed = two_line_editor();
    let ev = ed.write_line(0, "changed".to_string()).unwrap();
    match ev {
        Event::FileUpdated { line, content, total_lines } => {
            assert_eq!(line, 0);
            assert_eq!(content, "changed");
            assert_eq!(total_lines, None);
        }
        _ => panic!("unexpected event"),
    }
    assert_eq!(lines_of(&ed), vec!["changed", "second"]);
    assert_eq!(ed.metadata().unwrap().size, 14);
}

#[test]
fn write_line_past_end_pads() {
    let mut ed = two_line_editor();
    ed.write_line(4, "five".to_string()).unwrap();
    assert_eq!(ed.metadata().unwrap().line_count, 5);
    assert_eq!(ed.read_line(4).unwrap(), "five");
    assert_eq!(lines_of(&ed), vec!["first", "second", "", "", "five"]);
}

#[test]
fn write_line_count_is_max_of_old_and_index() {
    for n in 0..6usize {
        let mut ed = two_line_editor();
        ed.write_line(n, "w".to_string()).unwrap();
        assert_eq!(ed.metadata().unwrap().line_count, std::cmp::max(2, n + 1));
        assert_eq!(ed.read_line(n).unwrap(), "w");
    }
}

#[test]
fn writes_to_distinct_lines_both_hold() {
    let mut one = two_line_editor();
    one.write_line(0, "a".to_string()).unwrap();
    one.write_line(3, "b".to_string()).unwrap();
    let mut two = two_line_editor();
    two.write_line(3, "b".to_string()).unwrap();
    two.write_line(0, "a".to_string()).unwrap();
    assert_eq!(lines_of(&one), lines_of(&two));
    assert_eq!(one.read_line(0).unwrap(), "a");
    assert_eq!(one.read_line(3).unwrap(), "b");
}

#[test]
fn insert_line_past_end_pads() {
    let mut ed = two_line_editor();
    let ev = ed.insert_line(5, "x".to_string()).unwrap();
    assert_eq!(ed.metadata().unwrap().line_count, 6);
    for i in 2..5 {
        assert_eq!(ed.read_line(i).unwrap(), "");
    }
    assert_eq!(ed.read_line(5).unwrap(), "x");
    match ev {
        Event::FileUpdated { line, content, total_lines } => {
            assert_eq!(line, 5);
            assert_eq!(content, "x");
            assert_eq!(total_lines, Some(6));
        }
        _ => panic!("unexpected event"),
    }
}

#[test]
fn insert_line_shifts_down() {
    let mut ed = two_line_editor();
    ed.insert_line(1, "middle".to_string()).unwrap();
    assert_eq!(lines_of(&ed), vec!["first", "middle", "second"]);
    ed.insert_line(3, "end".to_string()).unwrap();
    assert_eq!(lines_of(&ed), vec!["first", "middle", "second", "end"]);
    ed.insert_line(0, "top".to_string()).unwrap();
    assert_eq!(lines_of(&ed), vec!["top", "first", "middle", "second", "end"]);
}

#[test]
fn remove_line_past_end_is_noop() {
    let mut ed = two_line_editor();
    let r = ed.remove_line(10).unwrap();
    assert!(r.is_none());
    assert_eq!(ed.metadata().unwrap().line_count, 2);
    assert_eq!(lines_of(&ed), vec!["first", "second"]);
}

#[test]
fn remove_line_reports_the_next_line() {
    let mut ed = Editor::new();
    ed.open_file("x.txt", "a\nb\nc");
    let ev = ed.remove_line(1).unwrap().unwrap();
    match ev {
        Event::FileUpdated { line, content, total_lines } => {
            assert_eq!(line, 1);
            assert_eq!(content, "c");
            assert_eq!(total_lines, Some(2));
        }
        _ => panic!("unexpected event"),
    }
    let ev = ed.remove_line(1).unwrap().unwrap();
    match ev {
        Event::FileUpdated { content, total_lines, .. } => {
            assert_eq!(content, "");
            assert_eq!(total_lines, Some(1));
        }
        _ => panic!("unexpected event"),
    }
    assert_eq!(lines_of(&ed), vec!["a"]);
    assert_eq!(ed.metadata().unwrap().size, 1);
}

#[test]
fn size_follows_every_mutation() {
    let mut ed = Editor::new();
    ed.open_file("s.txt", "héllo\nwörld");
    assert_eq!(ed.metadata().unwrap().size, expected_size(&lines_of(&ed)));
    ed.write_line(3, "ünïcode".to_string()).unwrap();
    assert_eq!(ed.metadata().unwrap().size, expected_size(&lines_of(&ed)));
    ed.insert_line(1, "inserted".to_string()).unwrap();
    assert_eq!(ed.metadata().unwrap().size, expected_size(&lines_of(&ed)));
    ed.insert_line(9, "far".to_string()).unwrap();
    assert_eq!(ed.metadata().unwrap().size, expected_size(&lines_of(&ed)));
    ed.remove_line(0).unwrap();
    assert_eq!(ed.metadata().unwrap().size, expected_size(&lines_of(&ed)));
    ed.change_language("plain".to_string()).unwrap();
    assert_eq!(ed.metadata().unwrap().size, expected_size(&lines_of(&ed)));
}

#[test]
fn change_language_replaces_tag() {
    let mut ed = two_line_editor();
    match ed.change_language("rust".to_string()).unwrap() {
        Event::LanguageChanged { language } => assert_eq!(language, "rust"),
        _ => panic!("unexpected event"),
    }
    assert_eq!(ed.metadata().unwrap().language, "rust");
    assert_eq!(lines_of(&ed), vec!["first", "second"]);
}

#[test]
fn save_joins_lines() {
    let mut ed = Editor::new();
    ed.open_file("dir/f.md", "one\r\ntwo\n\nfour");
    let (path, text) = ed.save_buffer().unwrap();
    assert_eq!(path, "dir/f.md");
    assert_eq!(text, "one\ntwo\n\nfour");
}

#[test]
fn save_then_open_gives_same_lines() {
    let mut ed = two_line_editor();
    ed.write_line(4, "tail".to_string()).unwrap();
    ed.insert_line(6, "".to_string()).unwrap();
    let before = lines_of(&ed);
    let (path, text) = ed.save_buffer().unwrap();
    let mut again = Editor::new();
    again.open_file(&path, &text);
    assert_eq!(lines_of(&again), before);
}

#[test]
fn trailing_newline_round_trip() {
    let mut ed = Editor::new();
    ed.open_file("t.txt", "a\nb\n");
    let (_, text) = ed.save_buffer().unwrap();
    assert_eq!(text, "a\nb\n");
    let mut again = Editor::new();
    again.open_file("t.txt", &text);
    assert_eq!(lines_of(&again), vec!["a", "b", ""]);
}

#[test]
fn close_clears_the_slot() {
    let mut ed = two_line_editor();
    assert!(ed.close_file().is_ok());
    assert_eq!(ed.read_line(0), Err(EditorError::NotFound));
    assert_eq!(ed.close_file(), Err(EditorError::NotFound));
}

#[test]
fn commands_without_document_fail() {
    let mut ed = Editor::new();
    assert_eq!(ed.read_line(0), Err(EditorError::NotFound));
    assert!(matches!(ed.write_line(0, "x".to_string()), Err(EditorError::NotFound)));
    assert!(matches!(ed.insert_line(0, "x".to_string()), Err(EditorError::NotFound)));
    assert!(matches!(ed.remove_line(0), Err(EditorError::NotFound)));
    assert!(matches!(ed.change_language("c".to_string()), Err(EditorError::NotFound)));
    assert!(matches!(ed.save_buffer(), Err(EditorError::NotFound)));
    assert!(matches!(ed.metadata(), Err(EditorError::NotFound)));
    assert!(matches!(ed.request_tokenization(0, 1), Err(EditorError::NotFound)));
    assert_eq!(EditorError::NotFound.message(), "no file opened");
}
