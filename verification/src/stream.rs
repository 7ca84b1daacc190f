//! The lexer's token streams, and what the library asks of `syn`
//!
//! `proc_macro2` hands a token stream out tree by tree; [`tokens_of`]
//! turns it into the library's own [`Tok`] trees. `syn` is asked two
//! things: whether the items of the `#[app]` module are well-formed Rust, and
//! how an integer literal reads.

use vstd::prelude::*;

use proc_macro2::{Delimiter, Spacing, TokenTree};

use crate::tokens::{lemma_tv_ext, lemma_tv_index, lemma_tv_len, tv, Delim, Tok, TokV};

verus! {

/// `proc_macro2::TokenStream`, held as it is
#[verifier::external_type_specification]
#[verifier::external_body]
pub struct ExTokenStream(proc_macro2::TokenStream);

/// The token trees of a stream, by value
pub uninterp spec fn stream_trees(ts: proc_macro2::TokenStream) -> Seq<TokV>;

/// One token tree as the lexer hands it out: a group keeps its inner stream
pub enum Tree {
    /// A delimited group
    Group(Delim, proc_macro2::TokenStream),
    /// An identifier, by its text
    Ident(String),
    /// A punctuation character, and whether it is joined to the next one
    Punct(char, bool),
    /// A literal, by its text
    Literal(String),
}

/// `t` is the tree whose value is `v`
pub open spec fn tree_is(t: Tree, v: TokV) -> bool {
    match t {
        Tree::Group(d, s) => v == TokV::Group(d, stream_trees(s)),
        Tree::Ident(x) => v == TokV::Ident(x@),
        Tree::Punct(c, j) => v == TokV::Punct(c, j),
        Tree::Literal(x) => v == TokV::Literal(x@),
    }
}

/// Walks `proc_macro2::TokenStream`'s iterator: each `TokenTree` is handed
/// out as a [`Tree`], in order; what is claimed is only that the trees are
/// those the stream holds
#[verifier::external_body]
fn trees(ts: &proc_macro2::TokenStream) -> (r: Vec<Tree>)
    ensures
        r@.len() == stream_trees(*ts).len(),
        forall|i: int| 0 <= i < r@.len() ==> tree_is(#[trigger] r@[i], stream_trees(*ts)[i]),
{
    let mut out = Vec::new();
    for tt in ts.clone() {
        out.push(match tt {
            TokenTree::Group(g) => Tree::Group(match g.delimiter() {
                Delimiter::Parenthesis => Delim::Parenthesis,
                Delimiter::Brace => Delim::Brace,
                Delimiter::Bracket => Delim::Bracket,
                Delimiter::None => Delim::Invisible,
            }, g.stream()),
            TokenTree::Ident(i) => Tree::Ident(i.to_string()),
            TokenTree::Punct(p) => Tree::Punct(p.as_char(), matches!(p.spacing(), Spacing::Joint)),
            TokenTree::Literal(l) => Tree::Literal(l.to_string()),
        });
    }
    out
}

/// The token trees of a stream
pub fn tokens_of(ts: &proc_macro2::TokenStream) -> (r: Vec<Tok>)
    ensures
        tv(r@) == stream_trees(*ts),
    decreases stream_trees(*ts),
{
    broadcast use lemma_tv_len, lemma_tv_index;

    let ghost s = stream_trees(*ts);
    let ts_trees = trees(ts);
    let mut out: Vec<Tok> = Vec::new();
    let mut i: usize = 0;
    while i < ts_trees.len()
        invariant
            s == stream_trees(*ts),
            ts_trees@.len() == s.len(),
            forall|k: int| 0 <= k < ts_trees@.len() ==> tree_is(#[trigger] ts_trees@[k], s[k]),
            i <= ts_trees@.len(),
            out@.len() == i,
            forall|k: int| 0 <= k < i ==> out@[k]@ == s[k],
        decreases ts_trees@.len() - i,
    {
        assert(tree_is(ts_trees@[i as int], s[i as int]));
        let t = match &ts_trees[i] {
            Tree::Group(d, inner) => {
                proof {
                    assert(decreases_to!(s => s[i as int]));
                    assert(s[i as int] == TokV::Group(*d, stream_trees(*inner)));
                    assert(decreases_to!(s[i as int] => s[i as int]->Group_1));
                    assert(decreases_to!(s => stream_trees(*inner)));
                }
                let inner_toks = tokens_of(inner);
                Tok::Group(*d, inner_toks)
            },
            Tree::Ident(x) => Tok::Ident(x.clone()),
            Tree::Punct(c, j) => Tok::Punct(*c, *j),
            Tree::Literal(x) => Tok::Literal(x.clone()),
        };
        out.push(t);
        i = i + 1;
    }
    proof {
        lemma_tv_ext(out@, s);
    }
    out
}

/// What `syn` says of a sequence of token trees read as the body of a
/// module: `None` when they parse as items, else the parser's message
pub uninterp spec fn items_error(trees: Seq<TokV>) -> Option<Seq<char>>;

/// Does the text read as one literal, by `proc_macro2::Literal`'s
/// `FromStr` (which checks it with `proc_macro2`'s own lexer: escapes
/// well-formed, no bare carriage return, byte strings ASCII)?
pub uninterp spec fn literal_lexes(text: Seq<char>) -> bool;

/// `str::parse::<proc_macro2::Literal>`: whether the text reads as one
/// literal. The result is claimed to be a function of the text alone,
/// named by [`literal_lexes`]: `proc_macro2` validates the text with its
/// own lexer before it hands it to the compiler, in and out of a macro
#[verifier::external_body]
fn lexes_as_literal(text: &str) -> (r: bool)
    ensures
        r == literal_lexes(text@),
{
    text.parse::<proc_macro2::Literal>().is_ok()
}

/// Is every literal in the tree, at any depth, of a form that `syn` 1
/// reads without panicking? It must read again as one literal (a literal
/// handed over by the compiler may hold an escape that the compiler already
/// reported, such as `"\q"`, and reading it panics), and not be a
/// C-string literal (`c"..."`, `cr"..."`), which `syn` 1 does not know
pub open spec fn lit_known(t: TokV) -> bool
    decreases t, 0int,
{
    match t {
        TokV::Group(_, inner) => lits_known_from(inner, 0),
        TokV::Literal(x) => x.len() > 0 && x[0] != 'c' && literal_lexes(x),
        _ => true,
    }
}

/// Is every literal in the trees `s[i..]`, at any depth, of a form that
/// `syn` 1 knows?
pub open spec fn lits_known_from(s: Seq<TokV>, i: int) -> bool
    decreases s, s.len() - i,
{
    if i < 0 || i >= s.len() {
        true
    } else {
        lit_known(s[i]) && lits_known_from(s, i + 1)
    }
}

/// Is every literal in the trees, at any depth, of a form that `syn` 1 knows?
pub open spec fn lits_known(s: Seq<TokV>) -> bool {
    lits_known_from(s, 0)
}

/// Is every literal in the trees `ts`, at any depth, of a form `syn` 1 knows?
fn toks_lits_known(ts: &Vec<Tok>) -> (r: bool)
    ensures
        r == lits_known(tv(ts@)),
    decreases ts@, 1int,
{
    broadcast use lemma_tv_len, lemma_tv_index;

    let mut i: usize = 0;
    while i < ts.len()
        invariant
            i <= ts@.len(),
            lits_known(tv(ts@)) == lits_known_from(tv(ts@), i as int),
        decreases ts@.len() - i,
    {
        proof {
            assert(decreases_to!(ts@ => ts@[i as int]));
        }
        if !tok_lits_known(&ts[i]) {
            return false;
        }
        i = i + 1;
    }
    true
}

/// Is every literal in the tree `t`, at any depth, of a form `syn` 1 knows?
fn tok_lits_known(t: &Tok) -> (r: bool)
    ensures
        r == lit_known(t@),
    decreases *t, 0int,
{
    match t {
        Tok::Group(_, ts) => {
            proof {
                assert(decreases_to!(*t => ts@));
            }
            toks_lits_known(ts)
        },
        Tok::Literal(x) => {
            let n = x.unicode_len();
            n > 0 && x.get_char(0) != 'c' && lexes_as_literal(x.as_str())
        },
        _ => true,
    }
}

/// Is every literal in the trees `ts`, at any depth, of a form `syn` 1 knows?
pub fn all_lits_known(ts: &Vec<Tok>) -> (r: bool)
    ensures
        r == lits_known(tv(ts@)),
{
    toks_lits_known(ts)
}

/// Parses the stream with `syn::parse2::<syn::File>` (inner attributes,
/// then items) and keeps only the error's message; the result is claimed
/// to be a function of the stream's trees, named by [`items_error`]. Only
/// streams whose literals `syn` knows are admitted: `syn` panics on a
/// literal it does not recognise (`Lit::new`)
#[verifier::external_body]
pub(crate) fn check_items(ts: &proc_macro2::TokenStream) -> (r: Option<String>)
    requires
        lits_known(stream_trees(*ts)),
    ensures
        match r {
            Some(m) => items_error(stream_trees(*ts)) == Some(m@),
            None => items_error(stream_trees(*ts)) is None,
        },
{
    syn::parse2::<syn::File>(ts.clone()).err().map(|e| e.to_string())
}

/// How `syn` reads an integer literal: `None` when the text does not parse
/// as one, else its suffix and its base-10 value where that fits in a `u8`
pub uninterp spec fn int_literal(text: Seq<char>) -> Option<(Seq<char>, Option<u8>)>;

/// Is `c` an ASCII letter, digit or `_`?
pub open spec fn word_char(c: char) -> bool {
    ('0' <= c && c <= '9') || ('a' <= c && c <= 'z') || ('A' <= c && c <= 'Z') || c == '_'
}

/// Does the text read as an integer literal's: an optional `-`, a decimal
/// digit, then ASCII letters, digits and `_` only. `syn` reads any such text
/// as an integer or a float literal without panicking
pub open spec fn int_text_ok(t: Seq<char>) -> bool {
    let k = if t.len() > 0 && t[0] == '-' {
        1int
    } else {
        0int
    };
    &&& k < t.len()
    &&& '0' <= t[k] && t[k] <= '9'
    &&& forall|j: int| k < j < t.len() ==> #[trigger] word_char(t[j])
}

/// Is `text` the text of an integer literal of the form `syn` reads safely?
pub fn is_int_text(text: &str) -> (r: bool)
    ensures
        r == int_text_ok(text@),
{
    let n = text.unicode_len();
    let k: usize = if n > 0 && text.get_char(0) == '-' {
        1
    } else {
        0
    };
    if k >= n {
        return false;
    }
    let d = text.get_char(k);
    if !('0' <= d && d <= '9') {
        return false;
    }
    let mut j = k + 1;
    while j < n
        invariant
            n == text@.len(),
            k < j <= n,
            k == (if text@.len() > 0 && text@[0] == '-' {
                1int
            } else {
                0int
            }),
            forall|q: int| k < q < j ==> #[trigger] word_char(text@[q]),
        decreases n - j,
    {
        let c = text.get_char(j);
        if !(('0' <= c && c <= '9') || ('a' <= c && c <= 'z') || ('A' <= c && c <= 'Z') || c == '_') {
            assert(!word_char(text@[j as int]));
            return false;
        }
        j = j + 1;
    }
    true
}

/// Parses `text` with `syn::parse_str::<syn::LitInt>`, then takes
/// `LitInt::suffix` and `LitInt::base10_parse::<u8>`; the result is claimed
/// to be a function of the text, named by [`int_literal`]. Only texts of
/// the form [`int_text_ok`] are admitted: on those `syn` reads an integer or
/// a float literal, where another literal could make `Lit::new` panic
#[verifier::external_body]
pub(crate) fn read_int_literal(text: &str) -> (r: Option<(String, Option<u8>)>)
    requires
        int_text_ok(text@),
    ensures
        match r {
            Some((suffix, value)) => int_literal(text@) == Some((suffix@, value)),
            None => int_literal(text@) is None,
        },
{
    match syn::parse_str::<syn::LitInt>(text) {
        Ok(lit) => Some((lit.suffix().to_string(), lit.base10_parse::<u8>().ok())),
        Err(_) => None,
    }
}

/// The name and the body of the module `mod NAME { .. }` that `s` must be
pub open spec fn module_parts(s: Seq<TokV>) -> Result<(Seq<char>, Seq<TokV>), crate::error::ErrV> {
    if !crate::parse::cursor::word_at(s, 0, "mod"@) {
        Err((crate::error::ErrorKind::ExpectedModule, Seq::empty()))
    } else {
        match crate::parse::cursor::name_at(s, 1) {
            None => Err((crate::error::ErrorKind::ExpectedIdent, Seq::empty())),
            Some(name) => match crate::parse::cursor::group_at(s, 2, Delim::Brace) {
                None => Err((crate::error::ErrorKind::ExpectedModule, Seq::empty())),
                Some(body) => if s.len() > 3 {
                    Err((crate::error::ErrorKind::UnexpectedToken, Seq::empty()))
                } else {
                    Ok((name, body))
                },
            },
        }
    }
}

/// Splits the module `mod NAME { .. }` into its name and the stream of its body
pub fn split_module(input: &proc_macro2::TokenStream) -> (r: Result<
    (String, proc_macro2::TokenStream),
    crate::error::Error,
>)
    ensures
        match r {
            Ok((name, body)) => module_parts(stream_trees(*input)) == Ok::<
                (Seq<char>, Seq<TokV>),
                crate::error::ErrV,
            >((name@, stream_trees(body))),
            Err(e) => module_parts(stream_trees(*input)) == Err::<
                (Seq<char>, Seq<TokV>),
                crate::error::ErrV,
            >(e@),
        },
{
    let ghost s = stream_trees(*input);
    let mut ts = trees(input);
    let n = ts.len();
    let is_mod = n > 0 && match &ts[0] {
        Tree::Ident(x) => crate::tokens::str_eq(x.as_str(), "mod"),
        _ => false,
    };
    if n > 0 {
        assert(tree_is(ts@[0], s[0]));
    }
    if !is_mod {
        return Err(crate::error::error_here(crate::error::ErrorKind::ExpectedModule));
    }
    if n > 1 {
        assert(tree_is(ts@[1], s[1]));
    }
    let name = if n > 1 {
        match &ts[1] {
            Tree::Ident(x) => if crate::parse::cursor::is_keyword(x.as_str()) {
                None
            } else {
                Some(x.clone())
            },
            _ => None,
        }
    } else {
        None
    };
    let name = match name {
        None => return Err(crate::error::error_here(crate::error::ErrorKind::ExpectedIdent)),
        Some(x) => x,
    };
    if n > 2 {
        assert(tree_is(ts@[2], s[2]));
    }
    let body = if n > 2 {
        let ghost t2 = ts@[2];
        let t = ts.remove(2);
        assert(t == t2);
        match t {
            Tree::Group(d, b) => if d == Delim::Brace {
                Some(b)
            } else {
                None
            },
            _ => None,
        }
    } else {
        None
    };
    let body = match body {
        None => return Err(crate::error::error_here(crate::error::ErrorKind::ExpectedModule)),
        Some(b) => b,
    };
    if n > 3 {
        return Err(crate::error::error_here(crate::error::ErrorKind::UnexpectedToken));
    }
    Ok((name, body))
}

} // verus!
