//! Language tags: the tag a file gets from its extension, and the grammars
//! that parse a tag's text.
use vstd::prelude::*;

verus! {

/// What `Path::file_name` gives for a path, as text (empty when it gives none).
pub uninterp spec fn path_file_name(p: Seq<char>) -> Seq<char>;

/// What `Path::extension` gives for a path, as text (empty when it gives none).
pub uninterp spec fn path_extension(p: Seq<char>) -> Seq<char>;

/// What `str::to_ascii_lowercase` gives for a text.
pub uninterp spec fn ascii_lowercase(s: Seq<char>) -> Seq<char>;

pub open spec fn is_ascii_upper(c: char) -> bool {
    65 <= (c as u32) <= 90
}

/// `r` is `s` with each ASCII upper-case letter replaced by its lower-case
/// letter and every other character kept.
pub open spec fn lowercased(s: Seq<char>, r: Seq<char>) -> bool {
    &&& r.len() == s.len()
    &&& forall|i: int|
        0 <= i < s.len() ==> if is_ascii_upper(#[trigger] s[i]) {
            (r[i] as u32) == (s[i] as u32) + 32
        } else {
            r[i] == s[i]
        }
}

/// Relies on `Path::file_name`: the last component of the path.
#[verifier::external_body]
pub(crate) fn file_name_of(path: &str) -> (r: String)
    ensures
        r@ == path_file_name(path@),
{
    std::path::Path::new(path).file_name().and_then(|s| s.to_str()).unwrap_or("").to_string()
}

/// Relies on `Path::extension`: the text after the last dot of the file name.
#[verifier::external_body]
fn extension_of(path: &str) -> (r: String)
    ensures
        r@ == path_extension(path@),
{
    std::path::Path::new(path).extension().and_then(|s| s.to_str()).unwrap_or("").to_string()
}

/// Relies on `str::to_ascii_lowercase`: ASCII letters lowered, all else kept.
#[verifier::external_body]
pub(crate) fn to_ascii_lower(s: &str) -> (r: String)
    ensures
        r@ == ascii_lowercase(s@),
        lowercased(s@, r@),
{
    s.to_ascii_lowercase()
}

/// The language tag for a file extension, given lower-cased (`ext`) and as
/// written (`raw`); an unknown extension is its own tag, as written.
pub open spec fn language_for_extension(ext: Seq<char>, raw: Seq<char>) -> Seq<char> {
    if ext == "rs"@ {
        "rust"@
    } else if ext == "ts"@ || ext == "tsx"@ {
        "typescript"@
    } else if ext == "js"@ || ext == "jsx"@ {
        "javascript"@
    } else if ext == "json"@ {
        "json"@
    } else if ext == "css"@ {
        "css"@
    } else if ext == "html"@ || ext == "htm"@ {
        "html"@
    } else if ext == "md"@ || ext == "markdown"@ {
        "markdown"@
    } else if ext == "go"@ {
        "go"@
    } else if ext == "java"@ {
        "java"@
    } else if ext == "c"@ {
        "c"@
    } else if ext == "cpp"@ || ext == "cc"@ || ext == "cxx"@ || ext == "hpp"@ || ext == "hh"@
        || ext == "hxx"@ {
        "cpp"@
    } else if ext == "py"@ {
        "python"@
    } else if ext == "hs"@ || ext == "lhs"@ {
        "haskell"@
    } else if ext == "zig"@ {
        "zig"@
    } else if ext == "dart"@ {
        "dart"@
    } else if ext == "swift"@ {
        "swift"@
    } else if ext == "kt"@ || ext == "kts"@ {
        "kotlin"@
    } else if ext == "sql"@ {
        "sql"@
    } else if ext == "php"@ {
        "php"@
    } else if ext == "lua"@ {
        "lua"@
    } else if ext == "rb"@ {
        "ruby"@
    } else if ext == "ml"@ || ext == "mli"@ {
        "ocaml"@
    } else if ext == "sh"@ || ext == "bash"@ {
        "bash"@
    } else if ext == "ps1"@ || ext == "psm1"@ || ext == "psd1"@ {
        "powershell"@
    } else {
        raw
    }
}

/// The language tag of a file, from its extension, case-insensitively.
pub open spec fn language_of_path(path: Seq<char>) -> Seq<char> {
    language_for_extension(ascii_lowercase(path_extension(path)), path_extension(path))
}

/// Whether the string holds exactly the literal's text.
pub(crate) fn is(s: &String, lit: &str) -> (r: bool)
    ensures
        r == (s@ == lit@),
{
    let l = String::from_str(lit);
    *s == l
}

/// An owned copy of a literal.
fn tag(lit: &str) -> (r: String)
    ensures
        r@ == lit@,
{
    String::from_str(lit)
}

/// The language tag of a file from its extension (see `language_of_path`).
pub fn detect_language_from_extension(path: &str) -> (r: String)
    ensures
        r@ == language_of_path(path@),
{
    let ext_raw = extension_of(path);
    let e = to_ascii_lower(ext_raw.as_str());
    if is(&e, "rs") {
        tag("rust")
    } else if is(&e, "ts") || is(&e, "tsx") {
        tag("typescript")
    } else if is(&e, "js") || is(&e, "jsx") {
        tag("javascript")
    } else if is(&e, "json") {
        tag("json")
    } else if is(&e, "css") {
        tag("css")
    } else if is(&e, "html") || is(&e, "htm") {
        tag("html")
    } else if is(&e, "md") || is(&e, "markdown") {
        tag("markdown")
    } else if is(&e, "go") {
        tag("go")
    } else if is(&e, "java") {
        tag("java")
    } else if is(&e, "c") {
        tag("c")
    } else if is(&e, "cpp") || is(&e, "cc") || is(&e, "cxx") || is(&e, "hpp") || is(&e, "hh")
        || is(&e, "hxx") {
        tag("cpp")
    } else if is(&e, "py") {
        tag("python")
    } else if is(&e, "hs") || is(&e, "lhs") {
        tag("haskell")
    } else if is(&e, "zig") {
        tag("zig")
    } else if is(&e, "dart") {
        tag("dart")
    } else if is(&e, "swift") {
        tag("swift")
    } else if is(&e, "kt") || is(&e, "kts") {
        tag("kotlin")
    } else if is(&e, "sql") {
        tag("sql")
    } else if is(&e, "php") {
        tag("php")
    } else if is(&e, "lua") {
        tag("lua")
    } else if is(&e, "rb") {
        tag("ruby")
    } else if is(&e, "ml") || is(&e, "mli") {
        tag("ocaml")
    } else if is(&e, "sh") || is(&e, "bash") {
        tag("bash")
    } else if is(&e, "ps1") || is(&e, "psm1") || is(&e, "psd1") {
        tag("powershell")
    } else {
        ext_raw
    }
}

/// Relies on `str::starts_with` with a `char` pattern.
#[verifier::external_body]
fn starts_with_char(s: &str, c: char) -> (r: bool)
    ensures
        r == (s@.len() > 0 && s@[0] == c),
{
    s.starts_with(c)
}

/// Whether a directory name is hidden: it starts with a dot.
pub fn is_dot_folder(name: &str) -> (r: bool)
    ensures
        r == (name@.len() > 0 && name@[0] == '.'),
{
    starts_with_char(name, '.')
}

} // verus!
