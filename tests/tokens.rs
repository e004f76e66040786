use editor_core::document::Editor;
use editor_core::syntax::{grammar_for, parse_leaves, Grammar};
use editor_core::tokens::{fallback, finish_tokens, Offset, Token};

fn tok(sr: usize, sc: usize, er: usize, ec: usize, kind: &str) -> Token {
    Token {
        start_offset: Offset { row: sr, col: sc },
        end_offset: Offset { row: er, col: ec },
        kind: kind.to_string(),
    }
}

fn shape(t: &Token) -> (usize, usize, usize, usize, String) {
    (t.start_offset.row, t.start_offset.col, t.end_offset.row, t.end_offset.col, t.kind.clone())
}

#[test]
fn tokenization_of_document_without_lines_is_empty() {
    let mut ed = Editor::new();
    ed.open_file("one.py", "x = 1");
    ed.remove_line(0).unwrap();
    assert_eq!(ed.metadata().unwrap().line_count, 0);
    assert!(ed.request_tokenization(0, 5).unwrap().is_empty());
}

#[test]
fn fallback_for_language_without_grammar() {
    let mut ed = Editor::new();
    ed.open_file("notes.xyz", "alpha\n\nγ");
    let toks = ed.request_tokenization(0, 2).unwrap();
    let got: Vec<_> = toks.iter().map(shape).collect();
    assert_eq!(
        got,
        vec![
            (0, 0, 0, 5, "untokenized".to_string()),
            (1, 0, 1, 0, "untokenized".to_string()),
            (2, 0, 2, 2, "untokenized".to_string()),
        ]
    );
}

#[test]
fn tokenization_clamps_rows() {
    let mut ed = Editor::new();
    ed.open_file("notes.xyz", "a\nbb\nccc");
    let toks = ed.request_tokenization(7, 9).unwrap();
    let got: Vec<_> = toks.iter().map(shape).collect();
    assert_eq!(got, vec![(2, 0, 2, 3, "untokenized".to_string())]);
    assert!(ed.request_tokenization(2, 1).unwrap().is_empty());
}

#[test]
fn python_text_is_parsed() {
    let mut ed = Editor::new();
    ed.open_file("a.py", "def f():\n    pass\n");
    let toks = ed.request_tokenization(0, 1).unwrap();
    assert!(!toks.is_empty());
    assert!(toks.iter().all(|t| t.kind != "untokenized"));
    assert!(toks.iter().any(|t| t.kind == "def"));
    assert!(toks.iter().any(|t| t.kind == "pass"));
    let first = shape(&toks[0]);
    assert_eq!(first, (0, 0, 0, 3, "def".to_string()));
}

#[test]
fn parsed_tokens_are_limited_to_rows() {
    let mut ed = Editor::new();
    ed.open_file("m.rs", "fn a() {}\nfn b() {}\nfn c() {}");
    let toks = ed.request_tokenization(1, 1).unwrap();
    assert!(!toks.is_empty());
    assert!(toks.iter().all(|t| t.start_offset.row <= 1 && t.end_offset.row >= 1));
    assert!(toks.iter().any(|t| t.kind == "identifier" && t.start_offset.row == 1));
}

#[test]
fn language_tag_is_case_insensitive_for_grammar() {
    assert_eq!(grammar_for("Python"), Some(Grammar::Python));
    assert_eq!(grammar_for("tsx"), Some(Grammar::Tsx));
    assert_eq!(grammar_for("OCAML"), Some(Grammar::OCaml));
    assert_eq!(grammar_for("kotlin"), None);
    assert_eq!(grammar_for(""), None);
}

#[test]
fn parse_leaves_json() {
    let toks = parse_leaves(Grammar::Json, "{\"k\": 1}", 0, 0);
    let kinds: Vec<_> = toks.iter().map(|t| t.kind.clone()).collect();
    assert!(kinds.contains(&"number".to_string()));
    assert!(kinds.contains(&"{".to_string()));
}

#[test]
fn finish_tokens_keeps_overlapping() {
    let lines = vec!["aa".to_string(), "bbb".to_string(), "c".to_string()];
    let raw = vec![tok(0, 0, 0, 2, "x"), tok(1, 0, 1, 3, "y"), tok(2, 0, 2, 1, "z")];
    let got: Vec<_> = finish_tokens(raw, &lines, 1, 1).iter().map(shape).collect();
    assert_eq!(got, vec![(1, 0, 1, 3, "y".to_string())]);
}

#[test]
fn finish_tokens_falls_back_when_nothing_overlaps() {
    let lines = vec!["aa".to_string(), "bbb".to_string(), "c".to_string()];
    let raw = vec![tok(0, 0, 0, 2, "x")];
    let got: Vec<_> = finish_tokens(raw, &lines, 1, 2).iter().map(shape).collect();
    assert_eq!(
        got,
        vec![(1, 0, 1, 3, "untokenized".to_string()), (2, 0, 2, 1, "untokenized".to_string())]
    );
}

#[test]
fn fallback_of_empty_range() {
    let lines = vec!["aa".to_string()];
    assert!(fallback(&lines, 1, 0).is_empty());
    assert_eq!(fallback(&lines, 0, 0).len(), 1);
}

#[test]
fn every_grammar_loads_and_parses() {
    let all = [
        Grammar::Rust,
        Grammar::JavaScript,
        Grammar::TypeScript,
        Grammar::Tsx,
        Grammar::Json,
        Grammar::Css,
        Grammar::Html,
        Grammar::Markdown,
        Grammar::Python,
        Grammar::Go,
        Grammar::Java,
        Grammar::C,
        Grammar::Cpp,
        Grammar::Zig,
        Grammar::Lua,
        Grammar::Php,
        Grammar::Ruby,
        Grammar::Bash,
        Grammar::OCaml,
        Grammar::Dart,
        Grammar::PowerShell,
        Grammar::Haskell,
        Grammar::Swift,
    ];
    for g in all {
        let toks = parse_leaves(g, "x", 0, 0);
        assert!(!toks.is_empty(), "{:?} gave no tokens", g);
    }
}

#[test]
fn new_grammar_tags() {
    assert_eq!(grammar_for("Swift"), Some(Grammar::Swift));
    assert_eq!(grammar_for("dart"), Some(Grammar::Dart));
    assert_eq!(grammar_for("PowerShell"), Some(Grammar::PowerShell));
    assert_eq!(grammar_for("haskell"), Some(Grammar::Haskell));
}

#[test]
fn parsed_leaves_of_one_row_in_order() {
    let mut ed = Editor::new();
    ed.open_file("m.rs", "fn a() {}\nfn b() {}\nfn c() {}");
    let toks = ed.request_tokenization(1, 1).unwrap();
    let kinds: Vec<_> = toks.iter().map(|t| t.kind.as_str()).collect();
    assert_eq!(kinds, vec!["fn", "identifier", "(", ")", "{", "}"]);
    assert_eq!(shape(&toks[1]), (1, 3, 1, 4, "identifier".to_string()));
}

#[test]
fn equal_requests_give_equal_tokens() {
    let mut ed = Editor::new();
    ed.open_file("m.py", "x = 1\ny = [1,\n 2]\n");
    let a: Vec<_> = ed.request_tokenization(1, 9).unwrap().iter().map(shape).collect();
    let b: Vec<_> = ed.request_tokenization(1, 3).unwrap().iter().map(shape).collect();
    assert_eq!(a, b);
    assert!(a.iter().all(|t| t.2 >= 1));
}
