//! Entries of a directory listing: which children are listed, how an entry
//! is built, whether ignore patterns match it, and the order of entries
//! (directories first, then by case-folded name).
use vstd::prelude::*;
use std::cmp::Ordering;
use crate::language::{file_name_of, is_dot_folder, path_file_name};

verus! {

#[verifier::external_type_specification]
#[verifier::external_body]
pub struct ExGitignore(ignore::gitignore::Gitignore);

/// One entry of a directory listing.
#[derive(Debug)]
pub struct DirEntryItem {
    pub name: String,
    pub path: String,
    pub is_dir: bool,
    pub ignored: bool,
    pub children: Option<Vec<DirEntryItem>>,
}

/// A child of a directory as read from the file system.
#[derive(Clone, Debug)]
pub struct RawEntry {
    pub path: String,
    pub name: String,
    pub is_dir: bool,
}

/// What `str::to_lowercase` gives for a text.
pub uninterp spec fn lowercase_of(s: Seq<char>) -> Seq<char>;

/// Relies on `str::to_lowercase`: the text with every character lower-cased.
#[verifier::external_body]
fn lowercase(s: &str) -> (r: String)
    ensures
        r@ == lowercase_of(s@),
{
    s.to_lowercase()
}

/// What `Gitignore::matched(path, is_dir).is_ignore()` gives.
pub uninterp spec fn ignored_by(m: ignore::gitignore::Gitignore, path: Seq<char>, is_dir: bool) -> bool;

/// What `Path::strip_prefix(root)` gives for a path, as text.
pub uninterp spec fn path_relative(path: Seq<char>, root: Seq<char>) -> Option<Seq<char>>;

/// Relies on `Gitignore::matched` and `Match::is_ignore`: whether the
/// patterns ignore the path.
#[verifier::external_body]
fn gitignore_ignores(m: &ignore::gitignore::Gitignore, path: &str, is_dir: bool) -> (r: bool)
    ensures
        r == ignored_by(*m, path@, is_dir),
{
    m.matched(std::path::Path::new(path), is_dir).is_ignore()
}

/// Relies on `Path::strip_prefix`: the path relative to `root`, when `root`
/// is one of its prefixes.
#[verifier::external_body]
fn strip_root(path: &str, root: &str) -> (r: Option<String>)
    ensures
        r is Some <==> path_relative(path@, root@) is Some,
        r is Some ==> r->Some_0@ == path_relative(path@, root@)->Some_0,
{
    std::path::Path::new(path).strip_prefix(root).ok().map(|p| p.to_string_lossy().to_string())
}

/// The path that ignore patterns are matched against: relative to `root`
/// where it lies under `root`, else as given.
pub open spec fn ignore_subject(root: Seq<char>, path: Seq<char>) -> Seq<char> {
    match path_relative(path, root) {
        Some(rel) => rel,
        None => path,
    }
}

/// Whether an entry is marked ignored: never without patterns.
pub open spec fn ignore_mark(
    m: Option<&ignore::gitignore::Gitignore>,
    root: Seq<char>,
    path: Seq<char>,
    is_dir: bool,
) -> bool {
    match m {
        Some(g) => ignored_by(*g, ignore_subject(root, path), is_dir),
        None => false,
    }
}

/// Whether the ignore patterns, if any, ignore `path`; it is matched
/// relative to `root` where it lies under `root`.
pub fn is_ignored_path(
    m: Option<&ignore::gitignore::Gitignore>,
    root: &str,
    path: &str,
    is_dir: bool,
) -> (r: bool)
    ensures
        r == ignore_mark(m, root@, path@, is_dir),
{
    match m {
        None => false,
        Some(matcher) => match strip_root(path, root) {
            Some(rel) => gitignore_ignores(matcher, rel.as_str(), is_dir),
            None => gitignore_ignores(matcher, path, is_dir),
        },
    }
}

/// The name shown for a path: its file name, or the whole path when it
/// has none.
pub open spec fn entry_name(path: Seq<char>) -> Seq<char> {
    if path_file_name(path).len() > 0 {
        path_file_name(path)
    } else {
        path
    }
}

/// An entry without children for `path`.
pub fn build_dir_entry(path: &str, is_dir: bool, ignored: bool) -> (r: DirEntryItem)
    ensures
        r.name@ == entry_name(path@),
        r.path@ == path@,
        r.is_dir == is_dir,
        r.ignored == ignored,
        r.children is None,
{
    let file_name = file_name_of(path);
    let name = if !file_name.as_str().is_empty() {
        file_name
    } else {
        String::from_str(path)
    };
    DirEntryItem { name, path: String::from_str(path), is_dir, ignored, children: None }
}

/// A child is listed unless it is a directory whose name starts with a dot.
pub open spec fn listed(is_dir: bool, name: Seq<char>) -> bool {
    !(is_dir && name.len() > 0 && name[0] == '.')
}

/// Whether a child appears in a listing.
pub fn is_listed(is_dir: bool, name: &str) -> (r: bool)
    ensures
        r == listed(is_dir, name@),
{
    !(is_dir && is_dot_folder(name))
}

/// Lexicographic order of byte sequences.
pub open spec fn bytes_cmp(a: Seq<u8>, b: Seq<u8>) -> Ordering
    decreases a.len(),
{
    if a.len() == 0 {
        if b.len() == 0 {
            Ordering::Equal
        } else {
            Ordering::Less
        }
    } else if b.len() == 0 {
        Ordering::Greater
    } else if a[0] < b[0] {
        Ordering::Less
    } else if a[0] > b[0] {
        Ordering::Greater
    } else {
        bytes_cmp(a.drop_first(), b.drop_first())
    }
}

fn compare_bytes(a: &[u8], b: &[u8]) -> (r: Ordering)
    ensures
        r == bytes_cmp(a@, b@),
{
    let mut i: usize = 0;
    proof {
        assert(a@.skip(0) =~= a@);
        assert(b@.skip(0) =~= b@);
    }
    while i < a.len() && i < b.len()
        invariant
            i <= a@.len(),
            i <= b@.len(),
            bytes_cmp(a@, b@) == bytes_cmp(a@.skip(i as int), b@.skip(i as int)),
        decreases a@.len() - i,
    {
        if a[i] < b[i] {
            return Ordering::Less;
        }
        if a[i] > b[i] {
            return Ordering::Greater;
        }
        proof {
            assert(a@.skip(i as int).drop_first() =~= a@.skip(i + 1));
            assert(b@.skip(i as int).drop_first() =~= b@.skip(i + 1));
        }
        i = i + 1;
    }
    if i < b.len() {
        Ordering::Less
    } else if i < a.len() {
        Ordering::Greater
    } else {
        Ordering::Equal
    }
}

/// The order of two entries: directories before files, then by the bytes
/// of their lower-cased names.
pub open spec fn entry_cmp(a_dir: bool, a_name: Seq<char>, b_dir: bool, b_name: Seq<char>) -> Ordering {
    if a_dir != b_dir {
        if a_dir {
            Ordering::Less
        } else {
            Ordering::Greater
        }
    } else {
        bytes_cmp(
            vstd::utf8::encode_utf8(lowercase_of(a_name)),
            vstd::utf8::encode_utf8(lowercase_of(b_name)),
        )
    }
}

/// Compares two entries for sorting a listing (see `entry_cmp`).
pub fn compare_entries(a: &DirEntryItem, b: &DirEntryItem) -> (r: Ordering)
    ensures
        r == entry_cmp(a.is_dir, a.name@, b.is_dir, b.name@),
{
    if a.is_dir != b.is_dir {
        if a.is_dir {
            Ordering::Less
        } else {
            Ordering::Greater
        }
    } else {
        let la = lowercase(a.name.as_str());
        let lb = lowercase(b.name.as_str());
        compare_bytes(la.as_str().as_bytes(), lb.as_str().as_bytes())
    }
}

/// The listed children among `entries`, in order.
pub open spec fn listed_entries(entries: Seq<RawEntry>) -> Seq<RawEntry>
    decreases entries.len(),
{
    if entries.len() == 0 {
        Seq::empty()
    } else {
        let rest = listed_entries(entries.drop_last());
        let e = entries.last();
        if listed(e.is_dir, e.name@) {
            rest.push(e)
        } else {
            rest
        }
    }
}

/// An entry as (name, path, is directory, ignored).
pub open spec fn item_view(d: DirEntryItem) -> (Seq<char>, Seq<char>, bool, bool) {
    (d.name@, d.path@, d.is_dir, d.ignored)
}

pub open spec fn items_view(v: Seq<DirEntryItem>) -> Seq<(Seq<char>, Seq<char>, bool, bool)> {
    v.map_values(|d: DirEntryItem| item_view(d))
}

/// The entries for the listed children, in the order read.
pub open spec fn listing_of(
    entries: Seq<RawEntry>,
    root: Seq<char>,
    m: Option<&ignore::gitignore::Gitignore>,
) -> Seq<(Seq<char>, Seq<char>, bool, bool)> {
    listed_entries(entries).map_values(
        |e: RawEntry| (entry_name(e.path@), e.path@, e.is_dir, ignore_mark(m, root, e.path@, e.is_dir)),
    )
}

/// Whether neighbouring entries never compare `Greater` under `entry_cmp`.
pub open spec fn entries_sorted(v: Seq<DirEntryItem>) -> bool {
    forall|i: int|
        0 <= i < v.len() - 1 ==> entry_cmp(
            (#[trigger] v[i]).is_dir,
            v[i].name@,
            v[i + 1].is_dir,
            v[i + 1].name@,
        )
            != Ordering::Greater
}

/// Entries for the listed children, in the order read, each with its
/// ignore mark.
pub fn collect_children(
    entries: &Vec<RawEntry>,
    root: &str,
    m: Option<&ignore::gitignore::Gitignore>,
) -> (r: Vec<DirEntryItem>)
    ensures
        items_view(r@) == listing_of(entries@, root@, m),
        forall|i: int| 0 <= i < r@.len() ==> (#[trigger] r@[i]).children is None,
{
    let mut out: Vec<DirEntryItem> = Vec::new();
    let mut k: usize = 0;
    while k < entries.len()
        invariant
            k <= entries@.len(),
            items_view(out@) == listing_of(entries@.take(k as int), root@, m),
            forall|i: int| 0 <= i < out@.len() ==> (#[trigger] out@[i]).children is None,
        decreases entries@.len() - k,
    {
        let ghost before = out@;
        proof {
            assert(entries@.take(k + 1).drop_last() =~= entries@.take(k as int));
            assert(entries@.take(k + 1).last() == entries@[k as int]);
        }
        let e = &entries[k];
        if is_listed(e.is_dir, e.name.as_str()) {
            let ignored = is_ignored_path(m, root, e.path.as_str(), e.is_dir);
            let item = build_dir_entry(e.path.as_str(), e.is_dir, ignored);
            out.push(item);
            proof {
                assert(items_view(out@) =~= items_view(before).push(item_view(item)));
                assert(listing_of(entries@.take(k + 1), root@, m) =~= listing_of(
                    entries@.take(k as int),
                    root@,
                    m,
                ).push(item_view(item)));
            }
        } else {
            proof {
                assert(listing_of(entries@.take(k + 1), root@, m) =~= listing_of(
                    entries@.take(k as int),
                    root@,
                    m,
                ));
            }
        }
        k = k + 1;
    }
    proof {
        assert(entries@.take(k as int) =~= entries@);
    }
    out
}

/// Relies on `slice::sort_by` with `compare_entries`, which orders entries
/// totally (directory flag, then bytes of the lower-cased name): the same
/// entries, with no neighbour pair out of order.
#[verifier::external_body]
fn sort_entries(v: &mut Vec<DirEntryItem>)
    ensures
        items_view(final(v)@).to_multiset() == items_view(old(v)@).to_multiset(),
        entries_sorted(final(v)@),
{
    v.sort_by(|a, b| compare_entries(a, b))
}

/// The listing of a directory's children: the listed ones, each with its
/// ignore mark, directories first, then by lower-cased name.
pub fn list_dir_children(
    entries: &Vec<RawEntry>,
    root: &str,
    m: Option<&ignore::gitignore::Gitignore>,
) -> (r: Vec<DirEntryItem>)
    ensures
        items_view(r@).to_multiset() == listing_of(entries@, root@, m).to_multiset(),
        entries_sorted(r@),
{
    let mut children = collect_children(entries, root, m);
    sort_entries(&mut children);
    children
}

} // verus!
