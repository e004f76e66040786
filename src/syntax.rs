//! Structural parsing with tree-sitter: which grammar parses a language tag,
//! and the leaf nodes of a parse that fall within a range of rows.
use vstd::prelude::*;
use crate::language::{ascii_lowercase, is, to_ascii_lower};
use crate::tokens::{tokens_view, Offset, Token, TokenView};

verus! {

#[verifier::external_type_specification]
#[verifier::external_body]
pub struct ExLanguage(tree_sitter::Language);

#[verifier::external_type_specification]
#[verifier::external_body]
pub struct ExTree(tree_sitter::Tree);

/// The grammars available for parsing.
#[derive(Clone, Copy, Debug, PartialEq, Eq, Structural)]
pub enum Grammar {
    Rust,
    JavaScript,
    TypeScript,
    Tsx,
    Json,
    Css,
    Html,
    Markdown,
    Python,
    Go,
    Java,
    C,
    Cpp,
    Zig,
    Lua,
    Php,
    Ruby,
    Bash,
    OCaml,
    Dart,
    PowerShell,
    Haskell,
    Swift,
}

/// The grammar for a lower-case language tag, if there is one.
pub open spec fn grammar_of(tag: Seq<char>) -> Option<Grammar> {
    if tag == "rust"@ {
        Some(Grammar::Rust)
    } else if tag == "javascript"@ {
        Some(Grammar::JavaScript)
    } else if tag == "typescript"@ {
        Some(Grammar::TypeScript)
    } else if tag == "tsx"@ {
        Some(Grammar::Tsx)
    } else if tag == "json"@ {
        Some(Grammar::Json)
    } else if tag == "css"@ {
        Some(Grammar::Css)
    } else if tag == "html"@ {
        Some(Grammar::Html)
    } else if tag == "markdown"@ {
        Some(Grammar::Markdown)
    } else if tag == "python"@ {
        Some(Grammar::Python)
    } else if tag == "go"@ {
        Some(Grammar::Go)
    } else if tag == "java"@ {
        Some(Grammar::Java)
    } else if tag == "c"@ {
        Some(Grammar::C)
    } else if tag == "cpp"@ {
        Some(Grammar::Cpp)
    } else if tag == "zig"@ {
        Some(Grammar::Zig)
    } else if tag == "lua"@ {
        Some(Grammar::Lua)
    } else if tag == "php"@ {
        Some(Grammar::Php)
    } else if tag == "ruby"@ {
        Some(Grammar::Ruby)
    } else if tag == "bash"@ {
        Some(Grammar::Bash)
    } else if tag == "ocaml"@ {
        Some(Grammar::OCaml)
    } else if tag == "dart"@ {
        Some(Grammar::Dart)
    } else if tag == "powershell"@ {
        Some(Grammar::PowerShell)
    } else if tag == "haskell"@ {
        Some(Grammar::Haskell)
    } else if tag == "swift"@ {
        Some(Grammar::Swift)
    } else {
        None
    }
}

/// The grammar for a language tag, compared case-insensitively.
pub open spec fn grammar_for_tag(tag: Seq<char>) -> Option<Grammar> {
    grammar_of(ascii_lowercase(tag))
}

/// The grammar that parses text of a language tag, if any.
pub fn grammar_for(tag: &str) -> (r: Option<Grammar>)
    ensures
        r == grammar_for_tag(tag@),
{
    let t = to_ascii_lower(tag);
    if is(&t, "rust") {
        Some(Grammar::Rust)
    } else if is(&t, "javascript") {
        Some(Grammar::JavaScript)
    } else if is(&t, "typescript") {
        Some(Grammar::TypeScript)
    } else if is(&t, "tsx") {
        Some(Grammar::Tsx)
    } else if is(&t, "json") {
        Some(Grammar::Json)
    } else if is(&t, "css") {
        Some(Grammar::Css)
    } else if is(&t, "html") {
        Some(Grammar::Html)
    } else if is(&t, "markdown") {
        Some(Grammar::Markdown)
    } else if is(&t, "python") {
        Some(Grammar::Python)
    } else if is(&t, "go") {
        Some(Grammar::Go)
    } else if is(&t, "java") {
        Some(Grammar::Java)
    } else if is(&t, "c") {
        Some(Grammar::C)
    } else if is(&t, "cpp") {
        Some(Grammar::Cpp)
    } else if is(&t, "zig") {
        Some(Grammar::Zig)
    } else if is(&t, "lua") {
        Some(Grammar::Lua)
    } else if is(&t, "php") {
        Some(Grammar::Php)
    } else if is(&t, "ruby") {
        Some(Grammar::Ruby)
    } else if is(&t, "bash") {
        Some(Grammar::Bash)
    } else if is(&t, "ocaml") {
        Some(Grammar::OCaml)
    } else if is(&t, "dart") {
        Some(Grammar::Dart)
    } else if is(&t, "powershell") {
        Some(Grammar::PowerShell)
    } else if is(&t, "haskell") {
        Some(Grammar::Haskell)
    } else if is(&t, "swift") {
        Some(Grammar::Swift)
    } else {
        None
    }
}

/// Relies on `tree_sitter_rust::LANGUAGE`.
#[verifier::external_body]
fn rust_grammar() -> (r: tree_sitter::Language)
    ensures
        r == grammar_language(Grammar::Rust),
{
    tree_sitter_rust::LANGUAGE.into()
}

/// Relies on `tree_sitter_javascript::LANGUAGE`.
#[verifier::external_body]
fn javascript_grammar() -> (r: tree_sitter::Language)
    ensures
        r == grammar_language(Grammar::JavaScript),
{
    tree_sitter_javascript::LANGUAGE.into()
}

/// Relies on `tree_sitter_typescript::LANGUAGE_TYPESCRIPT`.
#[verifier::external_body]
fn typescript_grammar() -> (r: tree_sitter::Language)
    ensures
        r == grammar_language(Grammar::TypeScript),
{
    tree_sitter_typescript::LANGUAGE_TYPESCRIPT.into()
}

/// Relies on `tree_sitter_typescript::LANGUAGE_TSX`.
#[verifier::external_body]
fn tsx_grammar() -> (r: tree_sitter::Language)
    ensures
        r == grammar_language(Grammar::Tsx),
{
    tree_sitter_typescript::LANGUAGE_TSX.into()
}

/// Relies on `tree_sitter_json::LANGUAGE`.
#[verifier::external_body]
fn json_grammar() -> (r: tree_sitter::Language)
    ensures
        r == grammar_language(Grammar::Json),
{
    tree_sitter_json::LANGUAGE.into()
}

/// Relies on `tree_sitter_css::LANGUAGE`.
#[verifier::external_body]
fn css_grammar() -> (r: tree_sitter::Language)
    ensures
        r == grammar_language(Grammar::Css),
{
    tree_sitter_css::LANGUAGE.into()
}

/// Relies on `tree_sitter_html::LANGUAGE`.
#[verifier::external_body]
fn html_grammar() -> (r: tree_sitter::Language)
    ensures
        r == grammar_language(Grammar::Html),
{
    tree_sitter_html::LANGUAGE.into()
}

/// Relies on `tree_sitter_md::LANGUAGE`, the block-level Markdown grammar.
#[verifier::external_body]
fn markdown_grammar() -> (r: tree_sitter::Language)
    ensures
        r == grammar_language(Grammar::Markdown),
{
    tree_sitter_md::LANGUAGE.into()
}

/// Relies on `tree_sitter_python::LANGUAGE`.
#[verifier::external_body]
fn python_grammar() -> (r: tree_sitter::Language)
    ensures
        r == grammar_language(Grammar::Python),
{
    tree_sitter_python::LANGUAGE.into()
}

/// Relies on `tree_sitter_go::LANGUAGE`.
#[verifier::external_body]
fn go_grammar() -> (r: tree_sitter::Language)
    ensures
        r == grammar_language(Grammar::Go),
{
    tree_sitter_go::LANGUAGE.into()
}

/// Relies on `tree_sitter_java::LANGUAGE`.
#[verifier::external_body]
fn java_grammar() -> (r: tree_sitter::Language)
    ensures
        r == grammar_language(Grammar::Java),
{
    tree_sitter_java::LANGUAGE.into()
}

/// Relies on `tree_sitter_c::LANGUAGE`.
#[verifier::external_body]
fn c_grammar() -> (r: tree_sitter::Language)
    ensures
        r == grammar_language(Grammar::C),
{
    tree_sitter_c::LANGUAGE.into()
}

/// Relies on `tree_sitter_cpp::LANGUAGE`.
#[verifier::external_body]
fn cpp_grammar() -> (r: tree_sitter::Language)
    ensures
        r == grammar_language(Grammar::Cpp),
{
    tree_sitter_cpp::LANGUAGE.into()
}

/// Relies on `tree_sitter_zig::LANGUAGE`.
#[verifier::external_body]
fn zig_grammar() -> (r: tree_sitter::Language)
    ensures
        r == grammar_language(Grammar::Zig),
{
    tree_sitter_zig::LANGUAGE.into()
}

/// Relies on `tree_sitter_lua::LANGUAGE`.
#[verifier::external_body]
fn lua_grammar() -> (r: tree_sitter::Language)
    ensures
        r == grammar_language(Grammar::Lua),
{
    tree_sitter_lua::LANGUAGE.into()
}

/// Relies on `tree_sitter_php::LANGUAGE_PHP`.
#[verifier::external_body]
fn php_grammar() -> (r: tree_sitter::Language)
    ensures
        r == grammar_language(Grammar::Php),
{
    tree_sitter_php::LANGUAGE_PHP.into()
}

/// Relies on `tree_sitter_ruby::LANGUAGE`.
#[verifier::external_body]
fn ruby_grammar() -> (r: tree_sitter::Language)
    ensures
        r == grammar_language(Grammar::Ruby),
{
    tree_sitter_ruby::LANGUAGE.into()
}

/// Relies on `tree_sitter_bash::LANGUAGE`.
#[verifier::external_body]
fn bash_grammar() -> (r: tree_sitter::Language)
    ensures
        r == grammar_language(Grammar::Bash),
{
    tree_sitter_bash::LANGUAGE.into()
}

/// Relies on `tree_sitter_ocaml::LANGUAGE_OCAML`.
#[verifier::external_body]
fn ocaml_grammar() -> (r: tree_sitter::Language)
    ensures
        r == grammar_language(Grammar::OCaml),
{
    tree_sitter_ocaml::LANGUAGE_OCAML.into()
}

/// Relies on `tree_sitter_dart::LANGUAGE`.
#[verifier::external_body]
fn dart_grammar() -> (r: tree_sitter::Language)
    ensures
        r == grammar_language(Grammar::Dart),
{
    tree_sitter_dart::LANGUAGE.into()
}

/// Relies on `tree_sitter_powershell::LANGUAGE`.
#[verifier::external_body]
fn powershell_grammar() -> (r: tree_sitter::Language)
    ensures
        r == grammar_language(Grammar::PowerShell),
{
    tree_sitter_powershell::LANGUAGE.into()
}

/// Relies on `tree_sitter_haskell::LANGUAGE`.
#[verifier::external_body]
fn haskell_grammar() -> (r: tree_sitter::Language)
    ensures
        r == grammar_language(Grammar::Haskell),
{
    tree_sitter_haskell::LANGUAGE.into()
}

/// Relies on `tree_sitter_swift::LANGUAGE`.
#[verifier::external_body]
fn swift_grammar() -> (r: tree_sitter::Language)
    ensures
        r == grammar_language(Grammar::Swift),
{
    tree_sitter_swift::LANGUAGE.into()
}

/// The tree-sitter language of a grammar.
fn load_grammar(g: Grammar) -> (r: tree_sitter::Language)
    ensures
        r == grammar_language(g),
{
    match g {
        Grammar::Rust => rust_grammar(),
        Grammar::JavaScript => javascript_grammar(),
        Grammar::TypeScript => typescript_grammar(),
        Grammar::Tsx => tsx_grammar(),
        Grammar::Json => json_grammar(),
        Grammar::Css => css_grammar(),
        Grammar::Html => html_grammar(),
        Grammar::Markdown => markdown_grammar(),
        Grammar::Python => python_grammar(),
        Grammar::Go => go_grammar(),
        Grammar::Java => java_grammar(),
        Grammar::C => c_grammar(),
        Grammar::Cpp => cpp_grammar(),
        Grammar::Zig => zig_grammar(),
        Grammar::Lua => lua_grammar(),
        Grammar::Php => php_grammar(),
        Grammar::Ruby => ruby_grammar(),
        Grammar::Bash => bash_grammar(),
        Grammar::OCaml => ocaml_grammar(),
        Grammar::Dart => dart_grammar(),
        Grammar::PowerShell => powershell_grammar(),
        Grammar::Haskell => haskell_grammar(),
        Grammar::Swift => swift_grammar(),
    }
}

/// A node of a parse tree: its span, its depth below the root, and its kind.
#[derive(Clone, Debug)]
pub struct SyntaxNode {
    pub start_row: usize,
    pub start_col: usize,
    pub end_row: usize,
    pub end_col: usize,
    pub depth: usize,
    pub kind: String,
}

/// A node as (start row, start column, end row, end column, depth, kind).
pub type NodeView = (usize, usize, usize, usize, usize, Seq<char>);

impl View for SyntaxNode {
    type V = NodeView;

    open spec fn view(&self) -> NodeView {
        (self.start_row, self.start_col, self.end_row, self.end_col, self.depth, self.kind@)
    }
}

/// The tree-sitter language that a grammar's crate provides.
pub uninterp spec fn grammar_language(g: Grammar) -> tree_sitter::Language;

/// What a parser set to language `l` gives for `text`: the nodes of the
/// tree in pre-order, or `None` when the language is refused or no tree
/// comes out.
pub uninterp spec fn language_parse(l: tree_sitter::Language, text: Seq<char>) -> Option<
    Seq<NodeView>,
>;

/// The nodes of a tree in pre-order, the root first at depth 0.
pub uninterp spec fn tree_nodes(t: tree_sitter::Tree) -> Seq<NodeView>;

/// Relies on `Parser::new`, `Parser::set_language` and `Parser::parse` on a
/// whole text with no earlier tree.
#[verifier::external_body]
fn parse_with(l: &tree_sitter::Language, text: &str) -> (r: Option<tree_sitter::Tree>)
    ensures
        r is Some <==> language_parse(*l, text@) is Some,
        r is Some ==> tree_nodes(r->Some_0) == language_parse(*l, text@)->Some_0,
{
    let mut p = tree_sitter::Parser::new();
    if p.set_language(l).is_err() {
        return None;
    }
    p.parse(text, None)
}

/// Relies on `Node::descendant_count` of the root: the number of nodes.
#[verifier::external_body]
fn tree_node_count(t: &tree_sitter::Tree) -> (r: usize)
    ensures
        r == tree_nodes(*t).len(),
{
    t.root_node().descendant_count()
}

/// Relies on `TreeCursor::goto_descendant` and `TreeCursor::depth`: node `i`
/// of the tree in pre-order, with its span and kind.
#[verifier::external_body]
fn node_at(t: &tree_sitter::Tree, i: usize) -> (r: SyntaxNode)
    requires
        i < tree_nodes(*t).len(),
    ensures
        r@ == tree_nodes(*t)[i as int],
{
    let mut c = t.walk();
    c.goto_descendant(i);
    let n = c.node();
    let (s, e) = (n.start_position(), n.end_position());
    SyntaxNode {
        start_row: s.row,
        start_col: s.column,
        end_row: e.row,
        end_col: e.column,
        depth: c.depth() as usize,
        kind: n.kind().to_string(),
    }
}

/// Node `i` has no children: the next node in pre-order is not deeper.
pub open spec fn is_leaf(nodes: Seq<NodeView>, i: int) -> bool {
    i + 1 >= nodes.len() || nodes[i + 1].4 <= nodes[i].4
}

/// The node's rows meet the rows `first..=last`.
pub open spec fn node_meets(n: NodeView, first: int, last: int) -> bool {
    !(n.2 < first || n.0 > last)
}

/// Node `j` is node `i` or one of its ancestors.
pub open spec fn encloses(nodes: Seq<NodeView>, j: int, i: int) -> bool {
    &&& 0 <= j <= i < nodes.len()
    &&& forall|k: int| j < k <= i ==> #[trigger] nodes[k].4 > nodes[j].4
}

/// No subtree holding node `i` lies outside the rows.
pub open spec fn shown(nodes: Seq<NodeView>, i: int, first: int, last: int) -> bool {
    forall|j: int| encloses(nodes, j, i) ==> node_meets(#[trigger] nodes[j], first, last)
}

pub open spec fn leaf_token(n: NodeView) -> TokenView {
    (n.0, n.1, n.2, n.3, n.5)
}

/// The leaves among the first `n` nodes that survive pruning, in pre-order.
pub open spec fn pruned_prefix(nodes: Seq<NodeView>, n: int, first: int, last: int) -> Seq<TokenView>
    decreases n,
{
    if n <= 0 {
        Seq::empty()
    } else {
        let r = pruned_prefix(nodes, n - 1, first, last);
        if is_leaf(nodes, n - 1) && shown(nodes, n - 1, first, last) {
            r.push(leaf_token(nodes[n - 1]))
        } else {
            r
        }
    }
}

/// The leaves of a pre-order node list, in pre-order, skipping every
/// subtree whose rows lie wholly outside `first..=last`.
pub open spec fn pruned_leaves(nodes: Seq<NodeView>, first: int, last: int) -> Seq<TokenView> {
    pruned_prefix(nodes, nodes.len() as int, first, last)
}

/// The leaves that parsing `text` with grammar `g` yields for the rows;
/// none when parsing fails.
pub open spec fn parsed_leaves(g: Grammar, text: Seq<char>, first: int, last: int) -> Seq<TokenView> {
    match language_parse(grammar_language(g), text) {
        Some(nodes) => pruned_leaves(nodes, first, last),
        None => Seq::empty(),
    }
}

/// `cut` is the first node that encloses `i` and misses the rows, or
/// `None` when there is none.
spec fn cut_ok(nodes: Seq<NodeView>, i: int, cut: Option<usize>, first: int, last: int) -> bool {
    match cut {
        None => shown(nodes, i, first, last),
        Some(j) => {
            &&& encloses(nodes, j as int, i)
            &&& !node_meets(nodes[j as int], first, last)
            &&& forall|j2: int|
                encloses(nodes, j2, i) && j2 < j ==> node_meets(#[trigger] nodes[j2], first, last)
        },
    }
}

proof fn lemma_encloses_next(nodes: Seq<NodeView>, j: int, i: int)
    requires
        0 <= i,
        i + 1 < nodes.len(),
    ensures
        encloses(nodes, j, i + 1) <==> (j == i + 1 || (encloses(nodes, j, i) && nodes[j].4
            < nodes[i + 1].4)),
{
    if encloses(nodes, j, i + 1) && j != i + 1 {
        assert(nodes[i + 1].4 > nodes[j].4);
    }
}

proof fn lemma_cut_step(
    nodes: Seq<NodeView>,
    i: usize,
    prev: Option<usize>,
    next: Option<usize>,
    first: int,
    last: int,
)
    requires
        0 < i < nodes.len(),
        cut_ok(nodes, i - 1, prev, first, last),
        match prev {
            Some(j) => nodes[j as int].4 < nodes[i as int].4,
            None => false,
        } ==> next == prev,
        !(match prev {
            Some(j) => nodes[j as int].4 < nodes[i as int].4,
            None => false,
        }) ==> next == (if node_meets(nodes[i as int], first, last) {
            None::<usize>
        } else {
            Some(i)
        }),
    ensures
        cut_ok(nodes, i as int, next, first, last),
{
    let ii = i as int;
    assert forall|j: int|
        #[trigger] encloses(nodes, j, ii) <==> (j == ii || (encloses(nodes, j, ii - 1)
            && nodes[j].4 < nodes[ii].4)) by {
        lemma_encloses_next(nodes, j, ii - 1);
    }
    let keep = match prev {
        Some(j) => nodes[j as int].4 < nodes[ii].4,
        None => false,
    };
    if keep {
        let j = prev->Some_0 as int;
        assert(encloses(nodes, j, ii));
        assert forall|j2: int| encloses(nodes, j2, ii) && j2 < j implies node_meets(
            #[trigger] nodes[j2],
            first,
            last,
        ) by {
            assert(encloses(nodes, j2, ii - 1));
        }
    } else {
        assert forall|j2: int| encloses(nodes, j2, ii) && j2 != ii implies node_meets(
            #[trigger] nodes[j2],
            first,
            last,
        ) by {
            assert(encloses(nodes, j2, ii - 1));
            assert(nodes[j2].4 < nodes[ii].4);
            match prev {
                Some(j) => {
                    let jj = j as int;
                    if j2 > jj {
                        assert(encloses(nodes, jj, ii - 1));
                        assert(nodes[j2].4 > nodes[jj].4);
                    } else if j2 == jj {
                    } else {
                    }
                },
                None => {
                    assert(shown(nodes, ii - 1, first, last));
                },
            }
        }
        if node_meets(nodes[ii], first, last) {
            assert forall|j2: int| encloses(nodes, j2, ii) implies node_meets(
                #[trigger] nodes[j2],
                first,
                last,
            ) by {
                if j2 != ii {
                }
            }
        } else {
            assert(encloses(nodes, ii, ii));
        }
    }
}

/// Parses `text` with a grammar and returns, in pre-order, the leaf nodes
/// that survive pruning the subtrees whose rows lie wholly outside
/// `first..=last`; nothing when parsing fails.
pub fn parse_leaves(g: Grammar, text: &str, first: usize, last: usize) -> (r: Vec<Token>)
    ensures
        tokens_view(r@) == parsed_leaves(g, text@, first as int, last as int),
{
    let mut out: Vec<Token> = Vec::new();
    let lang = load_grammar(g);
    let tree = match parse_with(&lang, text) {
        Some(t) => t,
        None => {
            proof {
                assert(tokens_view(out@) =~= Seq::<TokenView>::empty());
            }
            return out;
        },
    };
    let ghost nodes = tree_nodes(tree);
    let count = tree_node_count(&tree);
    let mut ns: Vec<SyntaxNode> = Vec::new();
    let mut k: usize = 0;
    while k < count
        invariant
            k <= count == nodes.len(),
            nodes == tree_nodes(tree),
            ns@.len() == k,
            forall|x: int| 0 <= x < k ==> (#[trigger] ns@[x])@ == nodes[x],
        decreases count - k,
    {
        let n = node_at(&tree, k);
        ns.push(n);
        k = k + 1;
    }
    let mut cut: Option<usize> = None;
    let mut i: usize = 0;
    while i < ns.len()
        invariant
            ns@.len() == nodes.len(),
            forall|x: int| 0 <= x < ns@.len() ==> (#[trigger] ns@[x])@ == nodes[x],
            i <= ns@.len(),
            i > 0 ==> cut_ok(nodes, i - 1, cut, first as int, last as int),
            cut matches Some(j) ==> j < i,
            tokens_view(out@) == pruned_prefix(nodes, i as int, first as int, last as int),
        decreases ns@.len() - i,
    {
        let ghost prev = cut;
        let keep = match cut {
            Some(j) => ns[j].depth < ns[i].depth,
            None => false,
        };
        if !keep {
            cut = if !(ns[i].end_row < first || ns[i].start_row > last) {
                None
            } else {
                Some(i)
            };
        }
        proof {
            assert(ns@[i as int]@ == nodes[i as int]);
            if i > 0 {
                if let Some(j) = prev {
                    assert(ns@[j as int]@ == nodes[j as int]);
                }
                lemma_cut_step(nodes, i, prev, cut, first as int, last as int);
            } else {
                assert forall|j: int| encloses(nodes, j, 0) implies j == 0 by {}
            }
        }
        let leaf = i + 1 >= ns.len() || ns[i + 1].depth <= ns[i].depth;
        proof {
            if i + 1 < ns@.len() {
                assert(ns@[i + 1]@ == nodes[i + 1]);
            }
        }
        let ghost before = out@;
        if leaf && cut.is_none() {
            let n = &ns[i];
            out.push(Token {
                start_offset: Offset { row: n.start_row, col: n.start_col },
                end_offset: Offset { row: n.end_row, col: n.end_col },
                kind: n.kind.clone(),
            });
            proof {
                assert(tokens_view(out@) =~= tokens_view(before).push(leaf_token(nodes[i as int])));
            }
        }
        i = i + 1;
    }
    proof {
        assert(language_parse(grammar_language(g), text@) is Some);
    }
    out
}

} // verus!
