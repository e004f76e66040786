//! Line model of a text buffer: splitting text into lines, joining lines
//! back into text, and the byte size of a line sequence.
use vstd::prelude::*;

verus! {

/// Number of bytes in the UTF-8 encoding of a character sequence.
pub open spec fn byte_len(s: Seq<char>) -> nat {
    vstd::utf8::encode_utf8(s).len()
}

/// The character views of a sequence of strings.
pub open spec fn view_lines(v: Seq<String>) -> Seq<Seq<char>> {
    v.map_values(|s: String| s@)
}

/// The pieces of `s` between occurrences of `sep`, in order. There is always
/// at least one piece; a leading or trailing separator yields an empty piece.
pub open spec fn split_on(s: Seq<char>, sep: char) -> Seq<Seq<char>>
    decreases s.len(),
{
    if s.len() == 0 {
        seq![Seq::empty()]
    } else {
        let rest = split_on(s.drop_last(), sep);
        if s.last() == sep {
            rest.push(Seq::empty())
        } else {
            rest.update(rest.len() - 1, rest.last().push(s.last()))
        }
    }
}

/// `s` with every trailing copy of `c` removed.
pub open spec fn trim_end(s: Seq<char>, c: char) -> Seq<char>
    decreases s.len(),
{
    if s.len() > 0 && s.last() == c {
        trim_end(s.drop_last(), c)
    } else {
        s
    }
}

/// The lines of a text: split at `'\n'`, each with trailing `'\r'` removed.
pub open spec fn text_lines(s: Seq<char>) -> Seq<Seq<char>> {
    split_on(s, '\n').map_values(|l: Seq<char>| trim_end(l, '\r'))
}

/// The lines joined with one `'\n'` between neighbours.
pub open spec fn join_lines(lines: Seq<Seq<char>>) -> Seq<char>
    decreases lines.len(),
{
    if lines.len() == 0 {
        Seq::empty()
    } else if lines.len() == 1 {
        lines[0]
    } else {
        join_lines(lines.drop_last()) + seq!['\n'] + lines.last()
    }
}

/// Sum of the byte lengths of the lines.
pub open spec fn total_bytes(lines: Seq<Seq<char>>) -> nat
    decreases lines.len(),
{
    if lines.len() == 0 {
        0
    } else {
        total_bytes(lines.drop_last()) + byte_len(lines.last())
    }
}

/// Byte size of the lines once joined: their bytes plus one separator
/// between each pair of neighbours.
pub open spec fn doc_size(lines: Seq<Seq<char>>) -> nat {
    if lines.len() == 0 {
        0
    } else {
        total_bytes(lines) + (lines.len() - 1) as nat
    }
}

pub proof fn lemma_byte_len_concat(a: Seq<char>, b: Seq<char>)
    ensures
        byte_len(a + b) == byte_len(a) + byte_len(b),
    decreases a.len(),
{
    if a.len() == 0 {
        assert(a + b =~= b);
    } else {
        assert((a + b).drop_first() =~= a.drop_first() + b);
        lemma_byte_len_concat(a.drop_first(), b);
    }
}

proof fn lemma_byte_len_push(a: Seq<char>, c: char)
    ensures
        byte_len(a.push(c)) == byte_len(a) + byte_len(seq![c]),
        c == '\n' || c == '\r' ==> byte_len(seq![c]) == 1,
{
    let one = seq![c];
    assert(a.push(c) =~= a + one);
    lemma_byte_len_concat(a, one);
    assert(one.drop_first() =~= Seq::<char>::empty());
    assert(vstd::utf8::encode_utf8(one) == vstd::utf8::encode_scalar(one[0] as u32)
        + vstd::utf8::encode_utf8(one.drop_first()));
    if c == '\n' || c == '\r' {
        assert((c as u32) <= 0x7F);
    }
}

proof fn lemma_split_nonempty(s: Seq<char>, sep: char)
    ensures
        split_on(s, sep).len() >= 1,
    decreases s.len(),
{
    if s.len() > 0 {
        lemma_split_nonempty(s.drop_last(), sep);
    }
}

/// Splitting at `'\n'` loses exactly the separators: the pieces' size equals
/// the text's byte length.
proof fn lemma_split_size(s: Seq<char>)
    ensures
        doc_size(split_on(s, '\n')) == byte_len(s),
    decreases s.len(),
{
    assert(byte_len(Seq::<char>::empty()) == 0);
    if s.len() == 0 {
        let p = split_on(s, '\n');
        assert(p.drop_last() =~= Seq::<Seq<char>>::empty());
        assert(total_bytes(p) == total_bytes(p.drop_last()) + byte_len(p.last()));
    } else {
        let init = s.drop_last();
        let c = s.last();
        let rest = split_on(init, '\n');
        lemma_split_size(init);
        lemma_split_nonempty(init, '\n');
        assert(init.push(c) =~= s);
        lemma_byte_len_push(init, c);
        let p = split_on(s, '\n');
        if c == '\n' {
            assert(p.drop_last() =~= rest);
            assert(total_bytes(p) == total_bytes(rest) + byte_len(p.last()));
        } else {
            assert(p.drop_last() =~= rest.drop_last());
            lemma_byte_len_push(rest.last(), c);
            assert(total_bytes(p) == total_bytes(rest.drop_last()) + byte_len(p.last()));
            assert(total_bytes(rest) == total_bytes(rest.drop_last()) + byte_len(rest.last()));
        }
    }
}

proof fn lemma_trim_shorter(s: Seq<char>, c: char)
    ensures
        byte_len(trim_end(s, c)) <= byte_len(s),
    decreases s.len(),
{
    if s.len() > 0 && s.last() == c {
        lemma_trim_shorter(s.drop_last(), c);
        assert(s.drop_last().push(c) =~= s);
        lemma_byte_len_push(s.drop_last(), c);
    }
}

proof fn lemma_trim_total_shorter(lines: Seq<Seq<char>>)
    ensures
        total_bytes(lines.map_values(|l: Seq<char>| trim_end(l, '\r'))) <= total_bytes(lines),
    decreases lines.len(),
{
    let t = lines.map_values(|l: Seq<char>| trim_end(l, '\r'));
    if lines.len() > 0 {
        assert(t.drop_last() =~= lines.drop_last().map_values(|l: Seq<char>| trim_end(l, '\r')));
        lemma_trim_total_shorter(lines.drop_last());
        lemma_trim_shorter(lines.last(), '\r');
    }
}

/// The lines of a text take no more bytes than the text.
pub proof fn lemma_text_lines_size(s: Seq<char>)
    ensures
        doc_size(text_lines(s)) <= byte_len(s),
        text_lines(s).len() >= 1,
{
    lemma_split_size(s);
    lemma_split_nonempty(s, '\n');
    lemma_trim_total_shorter(split_on(s, '\n'));
}

proof fn lemma_total_bytes_prefix(lines: Seq<Seq<char>>, i: int)
    requires
        0 <= i <= lines.len(),
    ensures
        total_bytes(lines.take(i)) <= total_bytes(lines),
    decreases lines.len() - i,
{
    if i < lines.len() {
        lemma_total_bytes_prefix(lines, i + 1);
        assert(lines.take(i + 1).drop_last() =~= lines.take(i));
    } else {
        assert(lines.take(i) =~= lines);
    }
}

pub proof fn lemma_total_bytes_concat(a: Seq<Seq<char>>, b: Seq<Seq<char>>)
    ensures
        total_bytes(a + b) == total_bytes(a) + total_bytes(b),
    decreases b.len(),
{
    if b.len() == 0 {
        assert(a + b =~= a);
    } else {
        assert((a + b).drop_last() =~= a + b.drop_last());
        lemma_total_bytes_concat(a, b.drop_last());
    }
}

/// Removing a line does not make the lines larger.
pub proof fn lemma_remove_smaller(lines: Seq<Seq<char>>, n: int)
    requires
        0 <= n < lines.len(),
    ensures
        doc_size(lines.remove(n)) <= doc_size(lines),
{
    let a = lines.take(n);
    let b = lines.skip(n + 1);
    let x = seq![lines[n]];
    assert(lines =~= a + (x + b));
    assert(lines.remove(n) =~= a + b);
    lemma_total_bytes_concat(a, x + b);
    lemma_total_bytes_concat(x, b);
    lemma_total_bytes_concat(a, b);
    assert(x.drop_last() =~= Seq::<Seq<char>>::empty());
}

/// The character does not occur in `s`.
pub open spec fn lacks(s: Seq<char>, c: char) -> bool {
    forall|i: int| 0 <= i < s.len() ==> s[i] != c
}

proof fn lemma_split_append(a: Seq<char>, b: Seq<char>, sep: char)
    requires
        lacks(b, sep),
    ensures
        split_on(a + b, sep) == split_on(a, sep).update(
            split_on(a, sep).len() - 1,
            split_on(a, sep).last() + b,
        ),
    decreases b.len(),
{
    lemma_split_nonempty(a, sep);
    let sa = split_on(a, sep);
    if b.len() == 0 {
        assert(a + b =~= a);
        assert(sa.last() + b =~= sa.last());
        assert(sa.update(sa.len() - 1, sa.last() + b) =~= sa);
    } else {
        let b0 = b.drop_last();
        let c = b.last();
        assert(lacks(b0, sep));
        lemma_split_append(a, b0, sep);
        assert((a + b).drop_last() =~= a + b0);
        assert((a + b).last() == c);
        let rest = split_on(a + b0, sep);
        assert(rest.last() == sa.last() + b0);
        assert((sa.last() + b0).push(c) =~= sa.last() + b);
        assert(split_on(a + b, sep) =~= sa.update(sa.len() - 1, sa.last() + b));
    }
}

proof fn lemma_split_join(lines: Seq<Seq<char>>)
    requires
        lines.len() >= 1,
        forall|i: int| 0 <= i < lines.len() ==> lacks(#[trigger] lines[i], '\n'),
    ensures
        split_on(join_lines(lines), '\n') == lines,
    decreases lines.len(),
{
    if lines.len() == 1 {
        lemma_split_append(Seq::empty(), lines[0], '\n');
        assert(Seq::<char>::empty() + lines[0] =~= lines[0]);
        assert(split_on(Seq::<char>::empty(), '\n') == seq![Seq::<char>::empty()]);
        assert(split_on(lines[0], '\n') =~= lines);
    } else {
        let init = lines.drop_last();
        let j = join_lines(init);
        assert forall|i: int| 0 <= i < init.len() implies lacks(#[trigger] init[i], '\n') by {
            assert(init[i] == lines[i]);
        }
        lemma_split_join(init);
        let head = j + seq!['\n'];
        assert(head.drop_last() =~= j);
        assert(split_on(head, '\n') == init.push(Seq::<char>::empty()));
        assert(lines[lines.len() - 1] == lines.last());
        lemma_split_append(head, lines.last(), '\n');
        assert(Seq::<char>::empty() + lines.last() =~= lines.last());
        assert(join_lines(lines) == head + lines.last());
        assert(split_on(join_lines(lines), '\n') =~= lines);
    }
}

/// Storing lines joined with `'\n'` and reading the text back gives the
/// same lines, when there is at least one, none holds a `'\n'` and none
/// ends with `'\r'`.
pub proof fn lemma_save_open_round_trip(lines: Seq<Seq<char>>)
    requires
        lines.len() >= 1,
        forall|i: int| 0 <= i < lines.len() ==> lacks(#[trigger] lines[i], '\n'),
        forall|i: int|
            0 <= i < lines.len() ==> (#[trigger] lines[i]).len() == 0 || lines[i].last() != '\r',
    ensures
        text_lines(join_lines(lines)) == lines,
{
    lemma_split_join(lines);
    let t = text_lines(join_lines(lines));
    assert forall|i: int| 0 <= i < lines.len() implies #[trigger] t[i] == lines[i] by {
        assert(trim_end(lines[i], '\r') == lines[i]);
    }
    assert(t =~= lines);
}

/// Relies on `str::split` with a `char` pattern: the pieces between the
/// occurrences of the separator, in order, empty pieces included.
#[verifier::external_body]
fn split_at_char(s: &str, sep: char) -> (r: Vec<String>)
    ensures
        view_lines(r@) == split_on(s@, sep),
{
    s.split(sep).map(|p| p.to_string()).collect()
}

/// Relies on `str::trim_end_matches` with a `char` pattern: every trailing
/// copy of the character is removed.
#[verifier::external_body]
fn trim_trailing(s: &str, c: char) -> (r: String)
    ensures
        r@ == trim_end(s@, c),
{
    s.trim_end_matches(c).to_string()
}

/// Splits a text into lines at `'\n'`, removing trailing `'\r'` from each.
pub fn split_lines(text: &str) -> (r: Vec<String>)
    ensures
        view_lines(r@) == text_lines(text@),
        r@.len() >= 1,
{
    let pieces = split_at_char(text, '\n');
    let ghost pv = view_lines(pieces@);
    let mut out: Vec<String> = Vec::new();
    let mut i: usize = 0;
    while i < pieces.len()
        invariant
            i <= pieces@.len(),
            pv == view_lines(pieces@),
            out@.len() == i,
            forall|j: int| 0 <= j < i ==> #[trigger] out@[j]@ == trim_end(pv[j], '\r'),
        decreases pieces@.len() - i,
    {
        let line = trim_trailing(pieces[i].as_str(), '\r');
        out.push(line);
        i = i + 1;
    }
    proof {
        lemma_split_nonempty(text@, '\n');
        assert(view_lines(out@) =~= text_lines(text@));
    }
    out
}

/// Joins lines with `'\n'` between neighbours.
pub fn join_with_newlines(lines: &Vec<String>) -> (r: String)
    ensures
        r@ == join_lines(view_lines(lines@)),
{
    let ghost lv = view_lines(lines@);
    let mut out = String::new();
    let mut i: usize = 0;
    while i < lines.len()
        invariant
            i <= lines@.len(),
            lv == view_lines(lines@),
            out@ == join_lines(lv.take(i as int)),
        decreases lines@.len() - i,
    {
        proof {
            reveal_strlit("\n");
            assert(lv.take(i + 1).drop_last() =~= lv.take(i as int));
            assert(lv.take(1) =~= seq![lv[0]]);
        }
        if i > 0 {
            out.append("\n");
        }
        out.append(lines[i].as_str());
        i = i + 1;
    }
    proof {
        assert(lv.take(i as int) =~= lv);
    }
    out
}

/// The byte size of the lines joined with `'\n'`.
pub fn lines_size(lines: &Vec<String>) -> (r: usize)
    requires
        doc_size(view_lines(lines@)) <= usize::MAX,
    ensures
        r == doc_size(view_lines(lines@)),
{
    let ghost lv = view_lines(lines@);
    let mut sum: usize = 0;
    let mut i: usize = 0;
    while i < lines.len()
        invariant
            i <= lines@.len(),
            lv == view_lines(lines@),
            doc_size(lv) <= usize::MAX,
            sum == total_bytes(lv.take(i as int)),
        decreases lines@.len() - i,
    {
        proof {
            assert(lv.take(i + 1).drop_last() =~= lv.take(i as int));
            lemma_total_bytes_prefix(lv, i + 1);
        }
        sum = sum + lines[i].as_str().len();
        i = i + 1;
    }
    proof {
        assert(lv.take(i as int) =~= lv);
    }
    if i == 0 {
        0
    } else {
        sum + (i - 1)
    }
}

} // verus!
