//! The open document: one slot holding at most one document, kept as a
//! sequence of lines, with line-level reads and edits.
use vstd::prelude::*;
use crate::language::{detect_language_from_extension, file_name_of, language_of_path, path_file_name};
use crate::syntax::{grammar_for, grammar_for_tag, parse_leaves, parsed_leaves};
use crate::text::{
    byte_len, doc_size, join_lines, join_with_newlines, lemma_text_lines_size, lines_size,
    lemma_remove_smaller, split_lines, text_lines, total_bytes, view_lines,
};
use crate::tokens::{
    fallback_tokens, finish_tokens, keep_overlapping, lemma_kept_overlap, overlaps_rows, select_tokens, tokens_view, Token,
    TokenView,
};

verus! {

/// Why a command on the document could not be carried out.
#[derive(Clone, Copy, Debug, PartialEq, Eq, Structural)]
pub enum EditorError {
    /// No document is open.
    NotFound,
}

impl EditorError {
    pub fn message(&self) -> (r: String)
        ensures
            r@ == "no file opened"@,
    {
        String::from_str("no file opened")
    }
}

/// What is reported about a document when it is opened.
#[derive(Clone, Debug)]
pub struct Metadata {
    pub name: String,
    pub path: String,
    pub size: usize,
    pub language: String,
    pub line_count: usize,
}

/// A change to the document that listeners are told of.
#[derive(Clone, Debug)]
pub enum Event {
    /// A line was written, inserted or removed; `total_lines` is given for
    /// inserts and removals.
    FileUpdated { line: usize, content: String, total_lines: Option<usize> },
    /// The language tag was replaced.
    LanguageChanged { language: String },
}

/// Line `n`, or the empty line past the end.
pub open spec fn line_at(lines: Seq<Seq<char>>, n: int) -> Seq<char> {
    if 0 <= n < lines.len() {
        lines[n]
    } else {
        Seq::empty()
    }
}

/// The lines with empty lines appended until there are at least `n`.
pub open spec fn padded(lines: Seq<Seq<char>>, n: int) -> Seq<Seq<char>> {
    if n <= lines.len() {
        lines
    } else {
        lines + Seq::new((n - lines.len()) as nat, |i: int| Seq::<char>::empty())
    }
}

/// The lines after line `n` is set to `c`, padding first when `n` is past the end.
pub open spec fn write_result(lines: Seq<Seq<char>>, n: int, c: Seq<char>) -> Seq<Seq<char>> {
    padded(lines, n + 1).update(n, c)
}

/// The lines after `c` is inserted at `n`: a true insert up to the end,
/// padding with empty lines before `c` past it.
pub open spec fn insert_result(lines: Seq<Seq<char>>, n: int, c: Seq<char>) -> Seq<Seq<char>> {
    if n <= lines.len() {
        lines.insert(n, c)
    } else {
        padded(lines, n).push(c)
    }
}

/// The lines after line `n` is removed; unchanged when there is no line `n`.
pub open spec fn remove_result(lines: Seq<Seq<char>>, n: int) -> Seq<Seq<char>> {
    if n < lines.len() {
        lines.remove(n)
    } else {
        lines
    }
}

/// `r` reports that line `line` now holds `content`.
pub open spec fn is_update(
    r: Result<Event, EditorError>,
    line: int,
    content: Seq<char>,
    total: Option<usize>,
) -> bool {
    match r {
        Ok(Event::FileUpdated { line: l, content: c, total_lines: t }) => l == line && c@ == content
            && t == total,
        _ => false,
    }
}

/// A row clamped into a document of `count` lines.
pub open spec fn clamp_row(row: int, count: int) -> int {
    if row < count {
        row
    } else {
        count - 1
    }
}

/// The tokens for rows `start..=end`. Without lines: none. Otherwise, with
/// both rows clamped into the document, the leaves that parsing the joined
/// lines with the language's grammar keeps for those rows; when there is no
/// grammar or no leaf is kept, one `untokenized` token per row.
pub open spec fn tokenization_of(
    lines: Seq<Seq<char>>,
    language: Seq<char>,
    start: int,
    end: int,
) -> Seq<TokenView> {
    if lines.len() == 0 {
        Seq::empty()
    } else {
        let first = clamp_row(start, lines.len() as int);
        let last = clamp_row(end, lines.len() as int);
        let parsed = match grammar_for_tag(language) {
            Some(g) => parsed_leaves(g, join_lines(lines), first, last),
            None => Seq::empty(),
        };
        select_tokens(parsed, lines, first, last)
    }
}

/// Every token of a tokenization lies on rows that meet the clamped range.
pub proof fn lemma_tokens_meet_rows(lines: Seq<Seq<char>>, language: Seq<char>, start: int, end: int)
    requires
        0 < lines.len() <= usize::MAX,
        0 <= start,
        0 <= end,
    ensures
        forall|i: int|
            0 <= i < tokenization_of(lines, language, start, end).len() ==> overlaps_rows(
                #[trigger] tokenization_of(lines, language, start, end)[i],
                clamp_row(start, lines.len() as int),
                clamp_row(end, lines.len() as int),
            ),
{
    let first = clamp_row(start, lines.len() as int);
    let last = clamp_row(end, lines.len() as int);
    let parsed = match grammar_for_tag(language) {
        Some(g) => parsed_leaves(g, join_lines(lines), first, last),
        None => Seq::empty(),
    };
    lemma_kept_overlap(parsed, first, last);
    let toks = tokenization_of(lines, language, start, end);
    if keep_overlapping(parsed, first, last).len() == 0 {
        let fb = fallback_tokens(lines, first, last);
        assert(toks == fb);
        assert forall|i: int| 0 <= i < fb.len() implies overlaps_rows(#[trigger] fb[i], first, last) by {
            assert(fb[i].0 == first + i);
            assert(fb[i].2 == first + i);
        }
    }
}

struct Document {
    path: String,
    name: String,
    language: String,
    size: usize,
    lines: Vec<String>,
}

impl Document {
    spec fn lines_view(&self) -> Seq<Seq<char>> {
        view_lines(self.lines@)
    }

    spec fn wf(&self) -> bool {
        self.size == doc_size(self.lines_view())
    }

    fn metadata(&self) -> (r: Metadata)
        ensures
            r.name@ == self.name@,
            r.path@ == self.path@,
            r.size == self.size,
            r.language@ == self.language@,
            r.line_count == self.lines@.len(),
    {
        Metadata {
            name: self.name.clone(),
            path: self.path.clone(),
            size: self.size,
            language: self.language.clone(),
            line_count: self.lines.len(),
        }
    }

    /// Appends empty lines until there are at least `n`.
    fn pad_to(&mut self, n: usize)
        ensures
            final(self).lines_view() == padded(old(self).lines_view(), n as int),
            final(self).path == old(self).path,
            final(self).name == old(self).name,
            final(self).language == old(self).language,
            final(self).size == old(self).size,
    {
        let ghost start = self.lines_view();
        while self.lines.len() < n
            invariant
                start.len() <= self.lines@.len(),
                self.lines@.len() <= if n > start.len() { n as int } else { start.len() as int },
                self.lines_view() == padded(start, self.lines@.len() as int),
                self.path == old(self).path,
                self.name == old(self).name,
                self.language == old(self).language,
                self.size == old(self).size,
                start == old(self).lines_view(),
            decreases n - self.lines@.len(),
        {
            let ghost k = self.lines@.len() as int;
            let ghost before = self.lines_view();
            self.lines.push(String::new());
            proof {
                assert(self.lines_view() =~= before.push(Seq::<char>::empty()));
                assert(padded(start, k + 1) =~= padded(start, k).push(Seq::<char>::empty()));
            }
        }
        proof {
            assert(self.lines_view() =~= padded(start, n as int));
        }
    }

    fn write_line(&mut self, n: usize, content: String)
        requires
            n < usize::MAX,
            doc_size(write_result(old(self).lines_view(), n as int, content@)) <= usize::MAX,
        ensures
            final(self).wf(),
            final(self).lines_view() == write_result(old(self).lines_view(), n as int, content@),
            final(self).path == old(self).path,
            final(self).name == old(self).name,
            final(self).language == old(self).language,
    {
        let ghost start = self.lines_view();
        self.pad_to(n + 1);
        let ghost c = content@;
        self.lines.set(n, content);
        proof {
            assert(self.lines_view() =~= write_result(start, n as int, c));
        }
        self.size = lines_size(&self.lines);
    }

    fn insert_line(&mut self, n: usize, content: String)
        requires
            doc_size(insert_result(old(self).lines_view(), n as int, content@)) <= usize::MAX,
        ensures
            final(self).wf(),
            final(self).lines_view() == insert_result(old(self).lines_view(), n as int, content@),
            final(self).path == old(self).path,
            final(self).name == old(self).name,
            final(self).language == old(self).language,
    {
        let ghost start = self.lines_view();
        let ghost c = content@;
        if n <= self.lines.len() {
            self.lines.insert(n, content);
        } else {
            self.pad_to(n);
            self.lines.push(content);
        }
        proof {
            assert(self.lines_view() =~= insert_result(start, n as int, c));
        }
        self.size = lines_size(&self.lines);
    }

    fn remove_line(&mut self, n: usize)
        requires
            old(self).wf(),
            n < old(self).lines@.len(),
        ensures
            final(self).wf(),
            final(self).lines_view() == remove_result(old(self).lines_view(), n as int),
            final(self).path == old(self).path,
            final(self).name == old(self).name,
            final(self).language == old(self).language,
    {
        let ghost start = self.lines_view();
        self.lines.remove(n);
        proof {
            assert(self.lines_view() =~= start.remove(n as int));
            lemma_remove_smaller(start, n as int);
        }
        self.size = lines_size(&self.lines);
    }
}

/// The editing session: at most one open document.
pub struct Editor {
    doc: Option<Document>,
}

impl Editor {
    /// Whether a document is open.
    pub closed spec fn is_open(&self) -> bool {
        self.doc is Some
    }

    /// The lines of the open document.
    pub closed spec fn lines(&self) -> Seq<Seq<char>> {
        self.doc->Some_0.lines_view()
    }

    /// The language tag of the open document.
    pub closed spec fn language(&self) -> Seq<char> {
        self.doc->Some_0.language@
    }

    /// The path of the open document.
    pub closed spec fn path(&self) -> Seq<char> {
        self.doc->Some_0.path@
    }

    /// The file name of the open document.
    pub closed spec fn name(&self) -> Seq<char> {
        self.doc->Some_0.name@
    }

    /// The recorded byte size of the open document.
    pub closed spec fn size(&self) -> nat {
        self.doc->Some_0.size as nat
    }

    /// The recorded size of an open document is the byte size of its lines
    /// joined with `'\n'`.
    pub open spec fn wf(&self) -> bool {
        self.is_open() ==> self.size() == doc_size(self.lines())
    }

    /// Everything but the lines is as in `other`, and both are open.
    pub open spec fn same_file(&self, other: &Editor) -> bool {
        &&& self.is_open()
        &&& other.is_open()
        &&& self.language() == other.language()
        &&& self.path() == other.path()
        &&& self.name() == other.name()
    }

    /// A session with no open document.
    pub fn new() -> (r: Editor)
        ensures
            !r.is_open(),
            r.wf(),
    {
        Editor { doc: None }
    }

    /// Opens the document at `path` whose contents are `text`, replacing any
    /// open document.
    pub fn open_file(&mut self, path: &str, text: &str) -> (r: Metadata)
        ensures
            final(self).wf(),
            final(self).is_open(),
            final(self).lines() == text_lines(text@),
            final(self).path() == path@,
            final(self).name() == path_file_name(path@),
            final(self).language() == language_of_path(path@),
            r.path@ == path@,
            r.name@ == path_file_name(path@),
            r.language@ == language_of_path(path@),
            r.line_count == text_lines(text@).len(),
            r.size == doc_size(text_lines(text@)),
    {
        let text_len = text.as_bytes().len();
        let lines = split_lines(text);
        proof {
            assert(text_len == byte_len(text@));
            lemma_text_lines_size(text@);
        }
        let size = lines_size(&lines);
        let d = Document {
            path: String::from_str(path),
            name: file_name_of(path),
            language: detect_language_from_extension(path),
            size,
            lines,
        };
        let meta = d.metadata();
        self.doc = Some(d);
        meta
    }

    /// Installs an empty document (one empty line) for a file just created
    /// at `path`, replacing any open document.
    pub fn create_empty_file(&mut self, path: &str) -> (r: Metadata)
        ensures
            final(self).wf(),
            final(self).is_open(),
            final(self).lines() == seq![Seq::<char>::empty()],
            final(self).path() == path@,
            final(self).name() == path_file_name(path@),
            final(self).language() == language_of_path(path@),
            r.path@ == path@,
            r.name@ == path_file_name(path@),
            r.language@ == language_of_path(path@),
            r.line_count == 1,
            r.size == 0,
    {
        let mut lines: Vec<String> = Vec::new();
        lines.push(String::new());
        let d = Document {
            path: String::from_str(path),
            name: file_name_of(path),
            language: detect_language_from_extension(path),
            size: 0,
            lines,
        };
        proof {
            assert(d.lines_view() =~= seq![Seq::<char>::empty()]);
            assert(d.lines_view().drop_last() =~= Seq::<Seq<char>>::empty());
            assert(byte_len(Seq::<char>::empty()) == 0);
            assert(total_bytes(d.lines_view()) == total_bytes(d.lines_view().drop_last()) + byte_len(d.lines_view().last()));
            assert(doc_size(d.lines_view()) == 0);
        }
        let meta = d.metadata();
        self.doc = Some(d);
        meta
    }

    /// Line `n` of the open document, or an empty line past its end.
    pub fn read_line(&self, n: usize) -> (r: Result<String, EditorError>)
        ensures
            !self.is_open() ==> r == Err::<String, EditorError>(EditorError::NotFound),
            self.is_open() ==> r is Ok && r->Ok_0@ == line_at(self.lines(), n as int),
    {
        match &self.doc {
            None => Err(EditorError::NotFound),
            Some(d) => {
                if n < d.lines.len() {
                    Ok(d.lines[n].clone())
                } else {
                    Ok(String::new())
                }
            },
        }
    }

    /// Sets line `n` to `content`, first padding with empty lines when `n`
    /// is past the end.
    pub fn write_line(&mut self, n: usize, content: String) -> (r: Result<Event, EditorError>)
        requires
            old(self).wf(),
            old(self).is_open() ==> n < usize::MAX && doc_size(
                write_result(old(self).lines(), n as int, content@),
            ) <= usize::MAX,
        ensures
            final(self).wf(),
            !old(self).is_open() ==> r == Err::<Event, EditorError>(EditorError::NotFound)
                && *final(self) == *old(self),
            old(self).is_open() ==> final(self).same_file(old(self)) && final(self).lines()
                == write_result(old(self).lines(), n as int, content@) && is_update(
                r,
                n as int,
                content@,
                None,
            ),
    {
        match self.doc.take() {
            None => Err(EditorError::NotFound),
            Some(mut d) => {
                let c = content.clone();
                d.write_line(n, content);
                self.doc = Some(d);
                Ok(Event::FileUpdated { line: n, content: c, total_lines: None })
            },
        }
    }

    /// Inserts `content` as line `n`, shifting later lines down; when `n` is
    /// past the end, empty lines are added first so that `content` lands at `n`.
    pub fn insert_line(&mut self, n: usize, content: String) -> (r: Result<Event, EditorError>)
        requires
            old(self).wf(),
            old(self).is_open() ==> doc_size(insert_result(old(self).lines(), n as int, content@))
                <= usize::MAX,
        ensures
            final(self).wf(),
            !old(self).is_open() ==> r == Err::<Event, EditorError>(EditorError::NotFound)
                && *final(self) == *old(self),
            old(self).is_open() ==> final(self).same_file(old(self)) && final(self).lines()
                == insert_result(old(self).lines(), n as int, content@) && is_update(
                r,
                n as int,
                content@,
                Some(final(self).lines().len() as usize),
            ),
    {
        match self.doc.take() {
            None => Err(EditorError::NotFound),
            Some(mut d) => {
                let c = content.clone();
                d.insert_line(n, content);
                let total = d.lines.len();
                self.doc = Some(d);
                Ok(Event::FileUpdated { line: n, content: c, total_lines: Some(total) })
            },
        }
    }

    /// Removes line `n`. Past the end nothing changes and no event is given.
    pub fn remove_line(&mut self, n: usize) -> (r: Result<Option<Event>, EditorError>)
        requires
            old(self).wf(),
        ensures
            final(self).wf(),
            !old(self).is_open() ==> r == Err::<Option<Event>, EditorError>(EditorError::NotFound)
                && *final(self) == *old(self),
            old(self).is_open() && n >= old(self).lines().len() ==> r == Ok::<
                Option<Event>,
                EditorError,
            >(None) && *final(self) == *old(self),
            old(self).is_open() && n < old(self).lines().len() ==> final(self).same_file(old(self))
                && final(self).lines() == remove_result(old(self).lines(), n as int) && r is Ok
                && r->Ok_0 is Some && is_update(
                Ok(r->Ok_0->Some_0),
                n as int,
                line_at(final(self).lines(), n as int),
                Some(final(self).lines().len() as usize),
            ),
    {
        match self.doc.take() {
            None => Err(EditorError::NotFound),
            Some(mut d) => {
                if n >= d.lines.len() {
                    self.doc = Some(d);
                    return Ok(None);
                }
                d.remove_line(n);
                let content = if n < d.lines.len() {
                    d.lines[n].clone()
                } else {
                    String::new()
                };
                let total = d.lines.len();
                self.doc = Some(d);
                Ok(Some(Event::FileUpdated { line: n, content, total_lines: Some(total) }))
            },
        }
    }

    /// Replaces the language tag of the open document.
    pub fn change_language(&mut self, language: String) -> (r: Result<Event, EditorError>)
        requires
            old(self).wf(),
        ensures
            final(self).wf(),
            !old(self).is_open() ==> r == Err::<Event, EditorError>(EditorError::NotFound)
                && *final(self) == *old(self),
            old(self).is_open() ==> final(self).is_open() && final(self).language() == language@
                && final(self).lines() == old(self).lines() && final(self).size() == old(self).size()
                && final(self).path() == old(self).path() && final(self).name() == old(self).name()
                && (match r {
                Ok(Event::LanguageChanged { language: l }) => l@ == language@,
                _ => false,
            }),
    {
        match self.doc.take() {
            None => Err(EditorError::NotFound),
            Some(mut d) => {
                let l = language.clone();
                d.language = language;
                self.doc = Some(d);
                Ok(Event::LanguageChanged { language: l })
            },
        }
    }

    /// Closes the open document; fails when none is open.
    pub fn close_file(&mut self) -> (r: Result<(), EditorError>)
        ensures
            !final(self).is_open(),
            final(self).wf(),
            old(self).is_open() ==> r is Ok,
            !old(self).is_open() ==> r == Err::<(), EditorError>(EditorError::NotFound),
    {
        match self.doc.take() {
            None => Err(EditorError::NotFound),
            Some(_) => Ok(()),
        }
    }

    /// The path of the open document and the text to store there: its lines
    /// joined with `'\n'`.
    pub fn save_buffer(&self) -> (r: Result<(String, String), EditorError>)
        ensures
            !self.is_open() ==> r == Err::<(String, String), EditorError>(EditorError::NotFound),
            self.is_open() ==> r is Ok && r->Ok_0.0@ == self.path() && r->Ok_0.1@ == join_lines(
                self.lines(),
            ),
    {
        match &self.doc {
            None => Err(EditorError::NotFound),
            Some(d) => Ok((d.path.clone(), join_with_newlines(&d.lines))),
        }
    }

    /// What is known of the open document.
    pub fn metadata(&self) -> (r: Result<Metadata, EditorError>)
        ensures
            !self.is_open() ==> r is Err,
            self.is_open() ==> r is Ok && r->Ok_0.name@ == self.name() && r->Ok_0.path@
                == self.path() && r->Ok_0.size == self.size() && r->Ok_0.language@
                == self.language() && r->Ok_0.line_count == self.lines().len(),
    {
        match &self.doc {
            None => Err(EditorError::NotFound),
            Some(d) => Ok(d.metadata()),
        }
    }

    /// Tokens for rows `start..=end` of the open document (see `tokenization_of`).
    pub fn request_tokenization(&self, start: usize, end: usize) -> (r: Result<
        Vec<Token>,
        EditorError,
    >)
        ensures
            !self.is_open() ==> r == Err::<Vec<Token>, EditorError>(EditorError::NotFound),
            self.is_open() ==> r is Ok && tokens_view(r->Ok_0@) == tokenization_of(
                self.lines(),
                self.language(),
                start as int,
                end as int,
            ),
    {
        match &self.doc {
            None => Err(EditorError::NotFound),
            Some(d) => {
                let count = d.lines.len();
                if count == 0 {
                    let none: Vec<Token> = Vec::new();
                    return Ok(none);
                }
                let first = if start < count { start } else { count - 1 };
                let last = if end < count { end } else { count - 1 };
                let raw = match grammar_for(d.language.as_str()) {
                    Some(g) => {
                        let text = join_with_newlines(&d.lines);
                        parse_leaves(g, text.as_str(), first, last)
                    },
                    None => Vec::new(),
                };
                proof {
                    if raw@.len() == 0 {
                        assert(tokens_view(raw@) =~= Seq::<TokenView>::empty());
                    }
                }
                let toks = finish_tokens(raw, &d.lines, first, last);
                Ok(toks)
            },
        }
    }
}

} // verus!
