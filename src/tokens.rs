//! Tokens for a range of rows: the leaves that a parse yields, or one
//! token per row when there are none.
use vstd::prelude::*;
use crate::text::{byte_len, view_lines};

verus! {

/// A position in the document: row and byte column.
#[derive(Clone, Copy, Debug, PartialEq, Eq, Structural)]
pub struct Offset {
    pub row: usize,
    pub col: usize,
}

/// A span of the document with its kind.
#[derive(Clone, Debug)]
pub struct Token {
    pub start_offset: Offset,
    pub end_offset: Offset,
    pub kind: String,
}

/// A token as (start row, start column, end row, end column, kind).
pub type TokenView = (usize, usize, usize, usize, Seq<char>);

impl View for Token {
    type V = TokenView;

    open spec fn view(&self) -> TokenView {
        (self.start_offset.row, self.start_offset.col, self.end_offset.row, self.end_offset.col, self.kind@)
    }
}

pub open spec fn tokens_view(v: Seq<Token>) -> Seq<TokenView> {
    v.map_values(|t: Token| t@)
}

/// The token's rows meet the rows `first..=last`.
pub open spec fn overlaps_rows(t: TokenView, first: int, last: int) -> bool {
    !(t.2 < first || t.0 > last)
}

/// The tokens whose rows meet `first..=last`, in order.
pub open spec fn keep_overlapping(ts: Seq<TokenView>, first: int, last: int) -> Seq<TokenView>
    decreases ts.len(),
{
    if ts.len() == 0 {
        Seq::empty()
    } else {
        let kept = keep_overlapping(ts.drop_last(), first, last);
        if overlaps_rows(ts.last(), first, last) {
            kept.push(ts.last())
        } else {
            kept
        }
    }
}

/// One `untokenized` token per row of `first..=last`, from column 0 to the
/// row's byte length.
pub open spec fn fallback_tokens(lines: Seq<Seq<char>>, first: int, last: int) -> Seq<TokenView> {
    Seq::new(
        if first <= last { (last - first + 1) as nat } else { 0 },
        |i: int|
            (
                (first + i) as usize,
                0usize,
                (first + i) as usize,
                byte_len(lines[first + i]) as usize,
                "untokenized"@,
            ),
    )
}

/// The parsed tokens that meet the rows, or the fallback when none do.
pub open spec fn select_tokens(
    raw: Seq<TokenView>,
    lines: Seq<Seq<char>>,
    first: int,
    last: int,
) -> Seq<TokenView> {
    let kept = keep_overlapping(raw, first, last);
    if kept.len() == 0 {
        fallback_tokens(lines, first, last)
    } else {
        kept
    }
}

/// Every kept token meets the rows.
pub proof fn lemma_kept_overlap(ts: Seq<TokenView>, first: int, last: int)
    ensures
        forall|i: int|
            0 <= i < keep_overlapping(ts, first, last).len() ==> overlaps_rows(
                #[trigger] keep_overlapping(ts, first, last)[i],
                first,
                last,
            ),
    decreases ts.len(),
{
    if ts.len() > 0 {
        lemma_kept_overlap(ts.drop_last(), first, last);
        let prev = keep_overlapping(ts.drop_last(), first, last);
        let kept = keep_overlapping(ts, first, last);
        assert forall|i: int| 0 <= i < kept.len() implies overlaps_rows(
            #[trigger] kept[i],
            first,
            last,
        ) by {
            if i < prev.len() {
                assert(kept[i] == prev[i]);
            }
        }
    }
}

/// One `untokenized` token per row of `first..=last`.
pub fn fallback(lines: &Vec<String>, first: usize, last: usize) -> (r: Vec<Token>)
    requires
        first <= last ==> last < lines@.len(),
    ensures
        tokens_view(r@) == fallback_tokens(view_lines(lines@), first as int, last as int),
{
    let ghost lv = view_lines(lines@);
    let mut out: Vec<Token> = Vec::new();
    if first > last {
        proof {
            assert(tokens_view(out@) =~= fallback_tokens(lv, first as int, last as int));
        }
        return out;
    }
    let n = lines.len();
    let mut row: usize = first;
    while row <= last
        invariant
            first <= row <= last + 1,
            last < n == lines@.len(),
            last < lines@.len(),
            lv == view_lines(lines@),
            tokens_view(out@) =~= fallback_tokens(lv, first as int, last as int).take(
                row - first,
            ),
        decreases last + 1 - row,
    {
        let len = lines[row].as_str().len();
        let t = Token {
            start_offset: Offset { row, col: 0 },
            end_offset: Offset { row, col: len },
            kind: String::from_str("untokenized"),
        };
        let ghost before = out@;
        out.push(t);
        proof {
            let fb = fallback_tokens(lv, first as int, last as int);
            assert(out@ =~= before.push(t));
            assert(t@ == fb[row - first]);
            assert(tokens_view(out@) =~= tokens_view(before).push(t@));
            assert(tokens_view(out@) =~= fallback_tokens(lv, first as int, last as int).take(
                row + 1 - first,
            ));
        }
        row = row + 1;
    }
    proof {
        assert(fallback_tokens(lv, first as int, last as int).take(row - first) =~= fallback_tokens(
            lv,
            first as int,
            last as int,
        ));
    }
    out
}

/// The tokens of `raw` whose rows meet `first..=last`; when none do, one
/// `untokenized` token per row instead.
pub fn finish_tokens(raw: Vec<Token>, lines: &Vec<String>, first: usize, last: usize) -> (r: Vec<
    Token,
>)
    requires
        first <= last ==> last < lines@.len(),
    ensures
        tokens_view(r@) == select_tokens(
            tokens_view(raw@),
            view_lines(lines@),
            first as int,
            last as int,
        ),
{
    let ghost rv = tokens_view(raw@);
    let mut kept: Vec<Token> = Vec::new();
    let mut i: usize = 0;
    while i < raw.len()
        invariant
            i <= raw@.len(),
            rv == tokens_view(raw@),
            tokens_view(kept@) == keep_overlapping(rv.take(i as int), first as int, last as int),
        decreases raw@.len() - i,
    {
        proof {
            assert(rv.take(i + 1).drop_last() =~= rv.take(i as int));
        }
        let t = &raw[i];
        if !(t.end_offset.row < first || t.start_offset.row > last) {
            let c = Token {
                start_offset: t.start_offset,
                end_offset: t.end_offset,
                kind: t.kind.clone(),
            };
            kept.push(c);
            proof {
                assert(tokens_view(kept@) =~= keep_overlapping(rv.take(i as int), first as int, last as int).push(rv[i as int]));
            }
        }
        i = i + 1;
    }
    proof {
        assert(rv.take(i as int) =~= rv);
    }
    if kept.len() == 0 {
        fallback(lines, first, last)
    } else {
        kept
    }
}

} // verus!
