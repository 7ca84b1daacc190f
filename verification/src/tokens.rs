//! Token trees: the text of types, expressions, patterns and attribute
//! arguments, as the lexer hands it over.
//!
//! A group `( .. )`, `[ .. ]` or `{ .. }` is one token holding the trees
//! between its delimiters.

use vstd::prelude::*;

verus! {

/// The delimiter of a token group
#[derive(Clone, Copy, Debug, PartialEq, Eq, Structural)]
pub enum Delim {
    /// `( .. )`
    Parenthesis,
    /// `{ .. }`
    Brace,
    /// `[ .. ]`
    Bracket,
    /// an invisible delimiter
    Invisible,
}

/// One token tree
#[derive(Debug)]
pub enum Tok {
    /// A delimited group and the trees inside it
    Group(Delim, Vec<Tok>),
    /// An identifier or keyword, by its text
    Ident(String),
    /// A punctuation character; `true` when it is joined to the next one (as in `::`)
    Punct(char, bool),
    /// A literal, by its text (`1`, `2u8`, `"x"`)
    Literal(String),
}

/// A sequence of token trees: the text of a type, an expression or a pattern
pub type Tokens = Vec<Tok>;

/// The mathematical value of a token tree: strings taken by their characters
pub enum TokV {
    /// group
    Group(Delim, Seq<TokV>),
    /// identifier
    Ident(Seq<char>),
    /// punctuation
    Punct(char, bool),
    /// literal
    Literal(Seq<char>),
}

/// The value of a token tree
pub open spec fn tok_view(t: Tok) -> TokV
    decreases t,
{
    match t {
        Tok::Group(d, ts) => TokV::Group(d, tv(ts@)),
        Tok::Ident(s) => TokV::Ident(s@),
        Tok::Punct(c, j) => TokV::Punct(c, j),
        Tok::Literal(s) => TokV::Literal(s@),
    }
}

/// The value of a sequence of token trees
pub open spec fn tv(s: Seq<Tok>) -> Seq<TokV>
    decreases s,
{
    Seq::new(s.len(), |i: int| if 0 <= i < s.len() { tok_view(s[i]) } else { TokV::Punct(' ', false) })
}

impl View for Tok {
    type V = TokV;

    open spec fn view(&self) -> TokV {
        tok_view(*self)
    }
}

/// `tv` keeps the length
pub broadcast proof fn lemma_tv_len(s: Seq<Tok>)
    ensures
        #[trigger] tv(s).len() == s.len(),
{
}

/// `tv` maps each tree to its value
pub broadcast proof fn lemma_tv_index(s: Seq<Tok>, i: int)
    requires
        0 <= i < s.len(),
    ensures
        #[trigger] tv(s)[i] == s[i]@,
{
}

/// The value of a sequence is determined by the values of its trees
pub proof fn lemma_tv_ext(a: Seq<Tok>, b: Seq<TokV>)
    requires
        a.len() == b.len(),
        forall|i: int| 0 <= i < a.len() ==> a[i]@ == b[i],
    ensures
        tv(a) == b,
{
    assert(tv(a) =~= b);
}

/// A token tree with the spacing of its punctuation dropped: two trees are
/// the same type, expression or path where these agree (`>>` and `> >` in
/// `Vec<Vec<u8>>`)
pub open spec fn unspaced(t: TokV) -> TokV
    decreases t,
{
    match t {
        TokV::Group(d, s) => TokV::Group(d, unspaced_seq(s)),
        TokV::Punct(c, _) => TokV::Punct(c, false),
        TokV::Ident(x) => TokV::Ident(x),
        TokV::Literal(x) => TokV::Literal(x),
    }
}

/// A sequence of token trees with the spacing of its punctuation dropped
pub open spec fn unspaced_seq(s: Seq<TokV>) -> Seq<TokV>
    decreases s,
{
    Seq::new(
        s.len(),
        |i: int|
            if 0 <= i < s.len() {
                unspaced(s[i])
            } else {
                TokV::Punct(' ', false)
            },
    )
}

/// Is `t` the identifier `name`?
pub open spec fn is_ident(t: TokV, name: Seq<char>) -> bool {
    t matches TokV::Ident(s) && s == name
}

/// Is `t` the punctuation `c`?
pub open spec fn is_punct(t: TokV, c: char) -> bool {
    t matches TokV::Punct(p, _) && p == c
}

/// Character-wise equality of two strings
pub fn str_eq(a: &str, b: &str) -> (r: bool)
    ensures
        r == (a@ == b@),
{
    let n = a.unicode_len();
    let m = b.unicode_len();
    if n != m {
        return false;
    }
    let mut i: usize = 0;
    while i < n
        invariant
            n == a@.len(),
            m == b@.len(),
            n == m,
            i <= n,
            forall|j: int| 0 <= j < i ==> a@[j] == b@[j],
        decreases n - i,
    {
        if a.get_char(i) != b.get_char(i) {
            return false;
        }
        i = i + 1;
    }
    assert(a@ =~= b@);
    true
}

/// A copy of a token tree
pub fn copy_tok(t: &Tok) -> (r: Tok)
    ensures
        r@ == t@,
    decreases t,
{
    broadcast use lemma_tv_len, lemma_tv_index;

    match t {
        Tok::Group(d, ts) => {
            let mut out: Vec<Tok> = Vec::new();
            let mut i: usize = 0;
            while i < ts.len()
                invariant
                    i <= ts@.len(),
                    decreases_to!(*t => *ts),
                    out@.len() == i,
                    forall|j: int| 0 <= j < i ==> out@[j]@ == ts@[j]@,
                decreases ts@.len() - i,
            {
                proof {
                    assert(decreases_to!(*ts => ts[i as int]));
                }
                let c = copy_tok(&ts[i]);
                out.push(c);
                i = i + 1;
            }
            proof {
                lemma_tv_ext(out@, tv(ts@));
            }
            Tok::Group(*d, out)
        },
        Tok::Ident(s) => Tok::Ident(s.clone()),
        Tok::Punct(c, j) => Tok::Punct(*c, *j),
        Tok::Literal(s) => Tok::Literal(s.clone()),
    }
}

/// A copy of a token tree with the spacing of its punctuation dropped
pub fn unspace_tok(t: &Tok) -> (r: Tok)
    ensures
        r@ == unspaced(t@),
    decreases t,
{
    broadcast use lemma_tv_len, lemma_tv_index;

    match t {
        Tok::Group(d, ts) => {
            let mut out: Vec<Tok> = Vec::new();
            let mut i: usize = 0;
            while i < ts.len()
                invariant
                    i <= ts@.len(),
                    decreases_to!(*t => *ts),
                    out@.len() == i,
                    forall|j: int| 0 <= j < i ==> out@[j]@ == unspaced(ts@[j]@),
                decreases ts@.len() - i,
            {
                proof {
                    assert(decreases_to!(*ts => ts[i as int]));
                }
                let c = unspace_tok(&ts[i]);
                out.push(c);
                i = i + 1;
            }
            proof {
                lemma_tv_ext(out@, unspaced_seq(tv(ts@)));
            }
            Tok::Group(*d, out)
        },
        Tok::Ident(s) => Tok::Ident(s.clone()),
        Tok::Punct(c, _) => Tok::Punct(*c, false),
        Tok::Literal(s) => Tok::Literal(s.clone()),
    }
}

/// A copy of a sequence of token trees with the spacing of its punctuation
/// dropped
pub fn unspace_toks(ts: &Vec<Tok>) -> (r: Vec<Tok>)
    ensures
        tv(r@) == unspaced_seq(tv(ts@)),
{
    broadcast use lemma_tv_len, lemma_tv_index;

    let mut out: Vec<Tok> = Vec::new();
    let mut i: usize = 0;
    while i < ts.len()
        invariant
            i <= ts@.len(),
            out@.len() == i,
            forall|j: int| 0 <= j < i ==> out@[j]@ == unspaced(ts@[j]@),
        decreases ts@.len() - i,
    {
        let c = unspace_tok(&ts[i]);
        out.push(c);
        i = i + 1;
    }
    proof {
        lemma_tv_ext(out@, unspaced_seq(tv(ts@)));
    }
    out
}

/// Equality of two token trees by value
pub fn tok_eq(a: &Tok, b: &Tok) -> (r: bool)
    ensures
        r == (a@ == b@),
    decreases a,
{
    broadcast use lemma_tv_len, lemma_tv_index;

    match a {
        Tok::Group(d, xs) => match b {
            Tok::Group(e, ys) => {
                assert(a@ == TokV::Group(*d, tv(xs@)));
                assert(b@ == TokV::Group(*e, tv(ys@)));
                if *d != *e || xs.len() != ys.len() {
                    assert(tv(xs@).len() == xs@.len() && tv(ys@).len() == ys@.len());
                    return false;
                }
                let mut i: usize = 0;
                while i < xs.len()
                    invariant
                        i <= xs@.len(),
                        xs@.len() == ys@.len(),
                        decreases_to!(*a => *xs),
                        a@ == TokV::Group(*d, tv(xs@)),
                        b@ == TokV::Group(*e, tv(ys@)),
                        forall|j: int| 0 <= j < i ==> xs@[j]@ == ys@[j]@,
                    decreases xs@.len() - i,
                {
                    proof {
                        assert(decreases_to!(*xs => xs[i as int]));
                    }
                    if !tok_eq(&xs[i], &ys[i]) {
                        assert(tv(xs@)[i as int] != tv(ys@)[i as int]);
                        assert(tv(xs@) != tv(ys@));
                        return false;
                    }
                    i = i + 1;
                }
                proof {
                    lemma_tv_ext(xs@, tv(ys@));
                }
                true
            },
            _ => false,
        },
        Tok::Ident(x) => match b {
            Tok::Ident(y) => str_eq(x.as_str(), y.as_str()),
            _ => false,
        },
        Tok::Punct(c, j) => match b {
            Tok::Punct(d, k) => *c == *d && *j == *k,
            _ => false,
        },
        Tok::Literal(x) => match b {
            Tok::Literal(y) => str_eq(x.as_str(), y.as_str()),
            _ => false,
        },
    }
}

/// Equality of two token sequences by value
pub fn toks_eq(a: &Vec<Tok>, b: &Vec<Tok>) -> (r: bool)
    ensures
        r == (tv(a@) == tv(b@)),
{
    broadcast use lemma_tv_len, lemma_tv_index;

    if a.len() != b.len() {
        assert(tv(a@).len() != tv(b@).len());
        return false;
    }
    let mut i: usize = 0;
    while i < a.len()
        invariant
            a@.len() == b@.len(),
            i <= a@.len(),
            forall|j: int| 0 <= j < i ==> a@[j]@ == b@[j]@,
        decreases a@.len() - i,
    {
        if !tok_eq(&a[i], &b[i]) {
            assert(tv(a@)[i as int] != tv(b@)[i as int]);
            return false;
        }
        i = i + 1;
    }
    proof {
        lemma_tv_ext(a@, tv(b@));
    }
    true
}

/// A copy of a sequence of token trees
pub fn copy_toks(ts: &Vec<Tok>) -> (r: Vec<Tok>)
    ensures
        tv(r@) == tv(ts@),
{
    broadcast use lemma_tv_len, lemma_tv_index;

    let mut out: Vec<Tok> = Vec::new();
    let mut i: usize = 0;
    while i < ts.len()
        invariant
            i <= ts@.len(),
            out@.len() == i,
            forall|j: int| 0 <= j < i ==> out@[j]@ == ts@[j]@,
        decreases ts@.len() - i,
    {
        let c = copy_tok(&ts[i]);
        out.push(c);
        i = i + 1;
    }
    proof {
        lemma_tv_ext(out@, tv(ts@));
    }
    out
}

/// A copy of the trees `ts[from..to]`
pub fn copy_range(ts: &Vec<Tok>, from: usize, to: usize) -> (r: Vec<Tok>)
    requires
        from <= to <= ts@.len(),
    ensures
        tv(r@) == tv(ts@).subrange(from as int, to as int),
{
    broadcast use lemma_tv_len, lemma_tv_index;

    let mut out: Vec<Tok> = Vec::new();
    let mut i = from;
    while i < to
        invariant
            from <= i <= to <= ts@.len(),
            out@.len() == i - from,
            forall|j: int| 0 <= j < i - from ==> out@[j]@ == ts@[from + j]@,
        decreases to - i,
    {
        let c = copy_tok(&ts[i]);
        out.push(c);
        i = i + 1;
    }
    proof {
        lemma_tv_ext(out@, tv(ts@).subrange(from as int, to as int));
    }
    out
}

} // verus!
