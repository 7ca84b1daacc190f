//! What the application reads of a function, a field or an attribute: the
//! signatures that `#[init]`, `#[idle]` and `#[task]` functions must have,
//! their context and inputs, and their leading `static mut` locals

use vstd::prelude::*;

use crate::ast::{
    attrs_view, inputs_view, locals_view, AttrV, Attribute, HardwareTaskArgsV, HardwareTaskV,
    IdleArgsV, IdleV, InitArgsV, InitV, LateResourceV, Local, LocalV, NameMap, SoftwareTaskArgsV,
    SoftwareTaskV,
};
use crate::error::{error_at, error_here, ErrV, Error, ErrorKind};
use crate::parse::args::{entry_names, repeated_from};
use crate::parse::cursor::{
    attrs_at, colon2_at, find_item_end, find_sep, group_at, is_colon2_at, is_punct_at, is_word_at,
    item_end, name_at, next_sep, punct_at, read_attrs, read_group, word_at,
};
use crate::parse::item::{ident_text_at, not_item, split_list, FnItem, FnItemV, toks_seq_view};
use crate::tokens::{copy_range, copy_toks, lemma_tv_index, lemma_tv_len, str_eq, tv, Delim, Tok, TokV, Tokens};

verus! {

broadcast use lemma_tv_len, lemma_tv_index;

// ---- attributes ----

/// Is `a` the outer attribute `#[name ..]`?
pub open spec fn attr_named(a: AttrV, name: Seq<char>) -> bool {
    a.outer && a.path.segments.len() == 1 && a.path.segments[0] == name
}

/// The position of the first attribute named `name`
pub open spec fn attr_pos(attrs: Seq<AttrV>, name: Seq<char>) -> Option<int> {
    if exists|k: int| 0 <= k < attrs.len() && #[trigger] attr_named(attrs[k], name) {
        Some(
            choose|k: int|
                0 <= k < attrs.len() && #[trigger] attr_named(attrs[k], name) && forall|j: int|
                    0 <= j < k ==> !attr_named(attrs[j], name),
        )
    } else {
        None
    }
}

/// Below an attribute named `name` at `w` stands a first one
proof fn lemma_first_named(attrs: Seq<AttrV>, name: Seq<char>, w: int)
    requires
        0 <= w < attrs.len(),
        attr_named(attrs[w], name),
    ensures
        exists|m: int|
            0 <= m < attrs.len() && #[trigger] attr_named(attrs[m], name) && forall|j: int|
                0 <= j < m ==> !attr_named(attrs[j], name),
    decreases w,
{
    if exists|j: int| 0 <= j < w && attr_named(attrs[j], name) {
        let j = choose|j: int| 0 <= j < w && attr_named(attrs[j], name);
        lemma_first_named(attrs, name, j);
    } else {
        assert(forall|j: int| 0 <= j < w ==> !attr_named(attrs[j], name));
    }
}

/// The position of the first attribute named `name` is one of the list's,
/// and holds such an attribute
pub proof fn lemma_attr_pos(attrs: Seq<AttrV>, name: Seq<char>)
    ensures
        attr_pos(attrs, name) matches Some(k) ==> 0 <= k < attrs.len() && attr_named(attrs[k], name),
{
    if exists|k: int| 0 <= k < attrs.len() && #[trigger] attr_named(attrs[k], name) {
        let w = choose|k: int| 0 <= k < attrs.len() && #[trigger] attr_named(attrs[k], name);
        lemma_first_named(attrs, name, w);
    }
}

/// The attributes that are (`want`) or are not `#[cfg]`s, in order
pub open spec fn keep_cfgs(a: Seq<AttrV>, want: bool) -> Seq<AttrV>
    decreases a.len(),
{
    if a.len() == 0 {
        seq![]
    } else {
        let r = keep_cfgs(a.drop_last(), want);
        if attr_named(a.last(), "cfg"@) == want {
            r.push(a.last())
        } else {
            r
        }
    }
}

/// The test for a `#[cfg]` attribute, as a predicate
pub open spec fn cfg_filter() -> spec_fn(AttrV) -> bool {
    |x: AttrV| attr_named(x, "cfg"@)
}

/// The test for an attribute other than `#[cfg]`, as a predicate
pub open spec fn non_cfg_filter() -> spec_fn(AttrV) -> bool {
    |x: AttrV| !attr_named(x, "cfg"@)
}

/// Keeping the `#[cfg]`s, or the others, is filtering by the test
pub proof fn lemma_keep_cfgs_filter(a: Seq<AttrV>)
    ensures
        keep_cfgs(a, true) == a.filter(cfg_filter()),
        keep_cfgs(a, false) == a.filter(non_cfg_filter()),
    decreases a.len(),
{
    reveal(Seq::filter);
    if a.len() > 0 {
        lemma_keep_cfgs_filter(a.drop_last());
    }
}

/// Is `a` the outer attribute `#[name ..]`?
pub fn attr_eq(a: &Attribute, name: &str) -> (r: bool)
    ensures
        r == attr_named(a@, name@),
{
    a.outer && a.path.segments.len() == 1 && str_eq(a.path.segments[0].as_str(), name)
}

/// Finds the first attribute named `name`
pub fn find_attr(attrs: &Vec<Attribute>, name: &str) -> (r: Option<usize>)
    ensures
        match r {
            Some(k) => attr_pos(attrs_view(attrs@), name@) == Some(k as int) && k < attrs@.len(),
            None => attr_pos(attrs_view(attrs@), name@) is None,
        },
{
    let ghost a = attrs_view(attrs@);
    let mut k: usize = 0;
    while k < attrs.len()
        invariant
            a == attrs_view(attrs@),
            k <= attrs@.len(),
            forall|j: int| 0 <= j < k ==> !attr_named(a[j], name@),
        decreases attrs@.len() - k,
    {
        if attr_eq(&attrs[k], name) {
            assert(attr_named(a[k as int], name@));
            let ghost c = choose|m: int|
                0 <= m < a.len() && #[trigger] attr_named(a[m], name@) && forall|j: int|
                    0 <= j < m ==> !attr_named(a[j], name@);
            assert(c == k as int) by {
                if c < k {
                    assert(!attr_named(a[c], name@));
                } else if c > k {
                    assert(!attr_named(a[k as int], name@));
                }
            }
            return Some(k);
        }
        k = k + 1;
    }
    assert(!exists|m: int| 0 <= m < a.len() && #[trigger] attr_named(a[m], name@));
    None
}

/// Removes the first `#[lock_free]` attribute, and says whether there was one
pub fn extract_lock_free(attrs: &mut Vec<Attribute>) -> (r: Result<bool, Error>)
    ensures
        match attr_pos(attrs_view(old(attrs)@), "lock_free"@) {
            Some(k) => r matches Ok(true) && attrs_view(final(attrs)@) == attrs_view(
                old(attrs)@,
            ).remove(k),
            None => r matches Ok(false) && final(attrs)@ == old(attrs)@,
        },
{
    match find_attr(attrs, "lock_free") {
        Some(k) => {
            let ghost before = attrs@;
            attrs.remove(k);
            assert(attrs_view(attrs@) =~= attrs_view(before).remove(k as int));
            Ok(true)
        },
        None => Ok(false),
    }
}

/// Splits attributes into `#[cfg]`s and the others
pub fn extract_cfgs(attrs: Vec<Attribute>) -> (r: (Vec<Attribute>, Vec<Attribute>))
    ensures
        attrs_view(r.0@) == keep_cfgs(attrs_view(attrs@), true),
        attrs_view(r.1@) == keep_cfgs(attrs_view(attrs@), false),
        attrs_view(r.0@) == attrs_view(attrs@).filter(cfg_filter()),
        attrs_view(r.1@) == attrs_view(attrs@).filter(non_cfg_filter()),
{
    proof {
        lemma_keep_cfgs_filter(attrs_view(attrs@));
    }
    let ghost a = attrs_view(attrs@);
    let mut cfgs: Vec<Attribute> = Vec::new();
    let mut others: Vec<Attribute> = Vec::new();
    let mut rest = attrs;
    assert(attrs_view(cfgs@) =~= keep_cfgs(a.subrange(0, 0), true));
    assert(attrs_view(others@) =~= keep_cfgs(a.subrange(0, 0), false));
    let n = rest.len();
    let mut k: usize = 0;
    while k < n
        invariant
            n == a.len(),
            k <= n,
            attrs_view(rest@) == a.subrange(k as int, n as int),
            attrs_view(cfgs@) == keep_cfgs(a.subrange(0, k as int), true),
            attrs_view(others@) == keep_cfgs(a.subrange(0, k as int), false),
        decreases n - k,
    {
        let ghost r0 = rest@;
        assert(attrs_view(r0).len() == r0.len());
        assert(attrs_view(r0)[0] == a[k as int]);
        let at = rest.remove(0);
        assert(rest@ =~= r0.subrange(1, r0.len() as int));
        assert forall|j: int| 0 <= j < n - k - 1 implies #[trigger] attrs_view(rest@)[j] == a[k + 1
            + j] by {
            assert(attrs_view(rest@)[j] == rest@[j]@);
            assert(rest@[j] == r0[j + 1]);
            assert(attrs_view(r0)[j + 1] == r0[j + 1]@);
            assert(a.subrange(k as int, n as int)[j + 1] == a[k + 1 + j]);
        }
        assert(attrs_view(rest@) =~= a.subrange(k + 1, n as int));
        let ghost c0 = attrs_view(cfgs@);
        let ghost o0 = attrs_view(others@);
        assert(a.subrange(0, k + 1).drop_last() =~= a.subrange(0, k as int));
        assert(a.subrange(0, k + 1).last() == a[k as int]);
        if attr_eq(&at, "cfg") {
            cfgs.push(at);
            assert(attrs_view(cfgs@) =~= c0.push(a[k as int]));
        } else {
            others.push(at);
            assert(attrs_view(others@) =~= o0.push(a[k as int]));
        }
        k = k + 1;
    }
    assert(a.subrange(0, n as int) =~= a);
    (cfgs, others)
}

// ---- types ----

/// Is `t` the path `a::b` (with or without a leading `::`, and with or
/// without generic arguments after `b`)?
pub open spec fn type_named(t: Seq<TokV>, a: Seq<char>, b: Seq<char>) -> bool {
    let k = if colon2_at(t, 0) {
        2int
    } else {
        0int
    };
    word_at(t, k, a) && colon2_at(t, k + 1) && word_at(t, k + 3, b) && (t.len() == k + 4
        || punct_at(t, k + 4, '<'))
}

/// Is the return type `ret` the unit type (none, or `()`)?
pub open spec fn unit_type(ret: Option<Seq<TokV>>) -> bool {
    match ret {
        None => true,
        Some(t) => t.len() == 1 && t[0] == TokV::Group(Delim::Parenthesis, seq![]),
    }
}

/// Is the return type `ret` the never type `!`?
pub open spec fn bottom_type(ret: Option<Seq<TokV>>) -> bool {
    match ret {
        None => false,
        Some(t) => t.len() == 1 && t[0] is Punct && t[0]->Punct_0 == '!',
    }
}

/// Is `t` the path `a::b`?
pub fn type_is_path(t: &Vec<Tok>, a: &str, b: &str) -> (r: bool)
    ensures
        r == type_named(tv(t@), a@, b@),
{
    let k: usize = if is_colon2_at(t, 0) {
        2
    } else {
        0
    };
    is_word_at(t, k, a) && is_colon2_at(t, k + 1) && is_word_at(t, k + 3, b) && (t.len() == k + 4
        || is_punct_at(t, k + 4, '<'))
}

/// Is the return type `ret` the unit type?
pub fn type_is_unit(ret: &Option<Tokens>) -> (r: bool)
    ensures
        r == unit_type(crate::parse::item::opt_toks_view(*ret)),
{
    match ret {
        None => true,
        Some(t) => {
            if t.len() != 1 {
                return false;
            }
            assert(tv(t@)[0] == t@[0]@);
            match &t[0] {
                Tok::Group(d, c) => {
                    assert(t@[0]@ == TokV::Group(*d, tv(c@)));
                    if *d == Delim::Parenthesis && c.len() == 0 {
                        assert(tv(c@) =~= seq![]);
                        true
                    } else {
                        assert(tv(c@).len() == c@.len());
                        false
                    }
                },
                _ => false,
            }
        },
    }
}

/// Is the return type `ret` the never type?
pub fn type_is_bottom(ret: &Option<Tokens>) -> (r: bool)
    ensures
        r == bottom_type(crate::parse::item::opt_toks_view(*ret)),
{
    match ret {
        None => false,
        Some(t) => t.len() == 1 && is_punct_at(t, 0, '!'),
    }
}

// ---- parameters ----

/// The first typing colon (a `:` that is not part of `::`) from `i`
pub open spec fn first_colon(p: Seq<TokV>, i: int) -> int
    decreases p.len() - i,
{
    if i < 0 || i >= p.len() {
        p.len() as int
    } else if p[i] == TokV::Punct(':', false) && !(i > 0 && p[i - 1] == TokV::Punct(':', true)) {
        i
    } else {
        first_colon(p, i + 1)
    }
}

/// The pattern and the type of a typed parameter `pat: Type`
pub open spec fn typed(p: Seq<TokV>) -> Option<(Seq<TokV>, Seq<TokV>)> {
    let c = first_colon(p, 0);
    if c < p.len() {
        Some((p.subrange(0, c), p.subrange(c + 1, p.len() as int)))
    } else {
        None
    }
}

/// The typed parameters `params[k..]`, after `acc`; `None` where one is not typed
pub open spec fn typed_from(params: Seq<Seq<TokV>>, k: int, acc: Seq<(Seq<TokV>, Seq<TokV>)>) -> Option<
    Seq<(Seq<TokV>, Seq<TokV>)>,
>
    decreases params.len() - k,
{
    if k < 0 || k >= params.len() {
        Some(acc)
    } else {
        match typed(params[k]) {
            None => None,
            Some(x) => typed_from(params, k + 1, acc.push(x)),
        }
    }
}

/// The context pattern of a function named `name` (its first parameter must
/// be typed `name::Context`), and its other parameters where all are typed
pub open spec fn inputs_of(params: Seq<Seq<TokV>>, name: Seq<char>) -> Option<
    (Seq<TokV>, Option<Seq<(Seq<TokV>, Seq<TokV>)>>),
> {
    if params.len() == 0 {
        None
    } else {
        match typed(params[0]) {
            None => None,
            Some((pat, ty)) => if type_named(ty, name, "Context"@) {
                Some((pat, typed_from(params, 1, seq![])))
            } else {
                None
            },
        }
    }
}

/// Finds the typing colon of a parameter
fn find_colon(p: &Vec<Tok>) -> (r: usize)
    ensures
        r == first_colon(tv(p@), 0),
        r <= p@.len(),
{
    let ghost s = tv(p@);
    let mut i: usize = 0;
    while i < p.len()
        invariant
            s == tv(p@),
            i <= p@.len(),
            first_colon(s, 0) == first_colon(s, i as int),
        decreases p@.len() - i,
    {
        let lone = match &p[i] {
            Tok::Punct(c, j) => *c == ':' && !*j,
            _ => false,
        };
        let after_joint = i > 0 && match &p[i - 1] {
            Tok::Punct(c, j) => *c == ':' && *j,
            _ => false,
        };
        if lone && !after_joint {
            return i;
        }
        i = i + 1;
    }
    i
}

/// Splits a typed parameter into its pattern and its type
fn read_typed(p: &Vec<Tok>) -> (r: Option<(Tokens, Tokens)>)
    ensures
        match r {
            Some((a, b)) => typed(tv(p@)) == Some((tv(a@), tv(b@))),
            None => typed(tv(p@)) is None,
        },
{
    let c = find_colon(p);
    if c < p.len() {
        Some((copy_range(p, 0, c), copy_range(p, c + 1, p.len())))
    } else {
        None
    }
}

/// Reads the context pattern and the other parameters of a function
pub fn parse_inputs(params: &Vec<Tokens>, name: &String) -> (r: Option<(Tokens, Option<Vec<(Tokens, Tokens)>>)>)
    ensures
        match r {
            Some((ctx, rest)) => inputs_of(toks_seq_view(params@), name@) == Some(
                (
                    tv(ctx@),
                    match rest {
                        Some(v) => Some(inputs_view(v@)),
                        None => None,
                    },
                ),
            ),
            None => inputs_of(toks_seq_view(params@), name@) is None,
        },
{
    let ghost ps = toks_seq_view(params@);
    if params.len() == 0 {
        return None;
    }
    let (pat, ty) = match read_typed(&params[0]) {
        None => return None,
        Some(x) => x,
    };
    if !type_is_path(&ty, name.as_str(), "Context") {
        return None;
    }
    let mut rest: Vec<(Tokens, Tokens)> = Vec::new();
    let mut k: usize = 1;
    assert(inputs_view(rest@) =~= seq![]);
    assert(ps[0] == tv(params@[0]@));
    while k < params.len()
        invariant
            ps == toks_seq_view(params@),
            ps.len() > 0,
            typed(ps[0]) == Some((tv(pat@), tv(ty@))),
            type_named(tv(ty@), name@, "Context"@),
            1 <= k <= params@.len(),
            typed_from(ps, 1, seq![]) == typed_from(ps, k as int, inputs_view(rest@)),
        decreases params@.len() - k,
    {
        assert(ps[k as int] == tv(params@[k as int]@));
        match read_typed(&params[k]) {
            None => return Some((pat, None)),
            Some((a, b)) => {
                let ghost before = rest@;
                let ghost x = (tv(a@), tv(b@));
                rest.push((a, b));
                proof {
                    assert(inputs_view(rest@) =~= inputs_view(before).push(x));
                }
            },
        }
        k = k + 1;
    }
    Some((pat, Some(rest)))
}

// ---- locals ----

/// The `static` items that open the body `b` from `p` on, after `acc`: each
/// must be `static mut NAME: Type = expr;`. Gives the locals and where the
/// other statements start.
pub open spec fn statics_from(b: Seq<TokV>, p: int, acc: Seq<(Seq<char>, LocalV)>) -> Result<
    (Seq<(Seq<char>, LocalV)>, int),
    ErrV,
>
    decreases b.len() - p,
{
    let (attrs, q) = attrs_at(b, p);
    if p < 0 || !word_at(b, q, "static"@) {
        Ok((acc, p))
    } else {
        let mutable = word_at(b, q + 1, "mut"@);
        let n = if mutable {
            q + 2
        } else {
            q + 1
        };
        match ident_text_at(b, n) {
            None => Err(not_item()),
            Some(x) => if !mutable {
                Err((ErrorKind::OnlyStaticMut, x))
            } else if !punct_at(b, n + 1, ':') {
                Err(not_item())
            } else {
                let eq = next_sep(b, n + 2, 0, '=');
                if eq >= b.len() {
                    Err(not_item())
                } else {
                    let semi = item_end(b, eq + 1, true);
                    if semi >= b.len() {
                        Err(not_item())
                    } else {
                        proof {
                            crate::parse::item::lemma_attrs_at(b, p);
                            crate::parse::cursor::lemma_next_sep(b, n + 2, 0, '=');
                            crate::parse::cursor::lemma_item_end(b, eq + 1, true);
                        }
                        statics_from(
                            b,
                            semi + 1,
                            acc.push(
                                (
                                    x,
                                    LocalV {
                                        attrs: keep_cfgs(attrs, false),
                                        cfgs: keep_cfgs(attrs, true),
                                        ty: b.subrange(n + 2, eq),
                                        expr: b.subrange(eq + 1, semi),
                                    },
                                ),
                            ),
                        )
                    }
                }
            },
        }
    }
}

/// The `#[cfg]`s of a local are `#[cfg]` attributes, and its other
/// attributes are not
pub open spec fn cfgs_split(l: LocalV) -> bool {
    &&& forall|i: int| 0 <= i < l.cfgs.len() ==> attr_named(#[trigger] l.cfgs[i], "cfg"@)
    &&& forall|i: int| 0 <= i < l.attrs.len() ==> !attr_named(#[trigger] l.attrs[i], "cfg"@)
}

proof fn lemma_statics_split(b: Seq<TokV>, p: int, acc: Seq<(Seq<char>, LocalV)>)
    requires
        forall|k: int| 0 <= k < acc.len() ==> cfgs_split(#[trigger] acc[k].1),
    ensures
        statics_from(b, p, acc) matches Ok((ls, _)) ==> forall|k: int|
            0 <= k < ls.len() ==> cfgs_split(#[trigger] ls[k].1),
    decreases b.len() - p,
{
    let (attrs, q) = attrs_at(b, p);
    if !(p < 0 || !word_at(b, q, "static"@)) {
        let mutable = word_at(b, q + 1, "mut"@);
        let n = if mutable { q + 2 } else { q + 1 };
        if let Some(x) = ident_text_at(b, n) {
            if mutable && punct_at(b, n + 1, ':') {
                let eq = next_sep(b, n + 2, 0, '=');
                if eq < b.len() {
                    let semi = item_end(b, eq + 1, true);
                    if semi < b.len() {
                        crate::parse::item::lemma_attrs_at(b, p);
                        crate::parse::cursor::lemma_next_sep(b, n + 2, 0, '=');
                        crate::parse::cursor::lemma_item_end(b, eq + 1, true);
                        lemma_keep_cfgs_filter(attrs);
                        let l = LocalV {
                            attrs: keep_cfgs(attrs, false),
                            cfgs: keep_cfgs(attrs, true),
                            ty: b.subrange(n + 2, eq),
                            expr: b.subrange(eq + 1, semi),
                        };
                        assert forall|i: int| 0 <= i < l.cfgs.len() implies attr_named(
                            #[trigger] l.cfgs[i],
                            "cfg"@,
                        ) by {
                            attrs.lemma_filter_pred(cfg_filter(), i);
                        }
                        assert forall|i: int| 0 <= i < l.attrs.len() implies !attr_named(
                            #[trigger] l.attrs[i],
                            "cfg"@,
                        ) by {
                            attrs.lemma_filter_pred(non_cfg_filter(), i);
                        }
                        let acc2 = acc.push((x, l));
                        assert forall|k: int| 0 <= k < acc2.len() implies cfgs_split(
                            #[trigger] acc2[k].1,
                        ) by {
                            if k < acc.len() {
                                assert(acc2[k] == acc[k]);
                            }
                        }
                        lemma_statics_split(b, semi + 1, acc2);
                    }
                }
            }
        }
    }
}

/// Law: each local that a body declares (`static mut`) keeps its `#[cfg]`
/// attributes as its `cfgs` and only the others as its `attrs`
pub proof fn law_locals_cfgs(b: Seq<TokV>)
    ensures
        locals_of(b) matches Ok((ls, _)) ==> forall|k: int|
            0 <= k < ls.len() ==> cfgs_split(#[trigger] ls[k].1),
{
    lemma_statics_split(b, 0, seq![]);
}

/// The locals of a body, with distinct names, and its other statements
pub open spec fn locals_of(b: Seq<TokV>) -> Result<(Seq<(Seq<char>, LocalV)>, Seq<TokV>), ErrV> {
    match statics_from(b, 0, seq![]) {
        Err(e) => Err(e),
        Ok((ls, p)) => match repeated_from(entry_names(ls), 0) {
            Some(x) => Err((ErrorKind::StaticListedMoreThanOnce, x)),
            None => Ok((ls, b.subrange(p, b.len() as int))),
        },
    }
}

/// Reads the locals of a body, and its other statements
pub fn read_locals(b: &Vec<Tok>) -> (r: Result<(NameMap<Local>, Tokens), Error>)
    ensures
        match r {
            Ok((ls, st)) => locals_of(tv(b@)) == Ok::<(Seq<(Seq<char>, LocalV)>, Seq<TokV>), ErrV>(
                (locals_view(ls@), tv(st@)),
            ),
            Err(e) => locals_of(tv(b@)) == Err::<(Seq<(Seq<char>, LocalV)>, Seq<TokV>), ErrV>(
                e@,
            ),
        },
{
    let ghost s = tv(b@);
    let len = b.len();
    let mut out: NameMap<Local> = Vec::new();
    let mut p: usize = 0;
    assert(locals_view(out@) =~= seq![]);
    loop
        invariant
            s == tv(b@),
            len == b@.len(),
            p <= len,
            statics_from(s, 0, seq![]) == statics_from(s, p as int, locals_view(out@)),
        ensures
            p <= len,
            statics_from(s, 0, seq![]) == Ok::<(Seq<(Seq<char>, LocalV)>, int), ErrV>(
                (locals_view(out@), p as int),
            ),
        decreases len - p,
    {
        let (attrs, q) = read_attrs(b, p);
        if !is_word_at(b, q, "static") {
            break;
        }
        let mutable = is_word_at(b, q + 1, "mut");
        let n = if mutable {
            q + 2
        } else {
            q + 1
        };
        let x = match read_ident_text_at(b, n) {
            None => return Err(error_here(ErrorKind::ExpectedItem)),
            Some(x) => x,
        };
        if !mutable {
            return Err(error_at(ErrorKind::OnlyStaticMut, &x));
        }
        if !is_punct_at(b, n + 1, ':') {
            return Err(error_here(ErrorKind::ExpectedItem));
        }
        let eq = find_sep(b, n + 2, '=');
        if eq >= len {
            return Err(error_here(ErrorKind::ExpectedItem));
        }
        let semi = find_item_end(b, eq + 1, true);
        if semi >= len {
            return Err(error_here(ErrorKind::ExpectedItem));
        }
        let (cfgs, others) = extract_cfgs(attrs);
        let ty = copy_range(b, n + 2, eq);
        let expr = copy_range(b, eq + 1, semi);
        let local = Local { attrs: others, cfgs, ty, expr };
        let ghost before = out@;
        let ghost lv = local@;
        out.push((x, local));
        proof {
            assert(locals_view(out@) =~= locals_view(before).push((x@, lv)));
        }
        p = semi + 1;
    }
    let ghost ls = locals_view(out@);
    assert(statics_from(s, 0, seq![]) == Ok::<(Seq<(Seq<char>, LocalV)>, int), ErrV>(
        (ls, p as int),
    ));
    let mut m: usize = 0;
    while m < out.len()
        invariant
            s == tv(b@),
            p <= len,
            len == b@.len(),
            statics_from(s, 0, seq![]) == Ok::<(Seq<(Seq<char>, LocalV)>, int), ErrV>(
                (ls, p as int),
            ),
            ls == locals_view(out@),
            m <= out@.len(),
            repeated_from(entry_names(ls), 0) == repeated_from(entry_names(ls), m as int),
        decreases out@.len() - m,
    {
        let mut j: usize = 0;
        while j < m
            invariant
                s == tv(b@),
                statics_from(s, 0, seq![]) == Ok::<(Seq<(Seq<char>, LocalV)>, int), ErrV>(
                    (ls, p as int),
                ),
                repeated_from(entry_names(ls), 0) == repeated_from(entry_names(ls), m as int),
                ls == locals_view(out@),
                m < out@.len(),
                j <= m,
                forall|q: int| 0 <= q < j ==> out@[q].0@ != out@[m as int].0@,
            decreases m - j,
        {
            if str_eq(out[j].0.as_str(), out[m].0.as_str()) {
                proof {
                    let names = entry_names(ls);
                    assert(names[m as int] == out@[m as int].0@);
                    assert(names[j as int] == out@[j as int].0@);
                    assert(names.subrange(0, m as int)[j as int] == names[m as int]);
                    assert(names.subrange(0, m as int).contains(names[m as int]));
                }
                return Err(error_at(ErrorKind::StaticListedMoreThanOnce, &out[m].0));
            }
            j = j + 1;
        }
        proof {
            let names = entry_names(ls);
            assert(names[m as int] == out@[m as int].0@);
            assert(!names.subrange(0, m as int).contains(names[m as int])) by {
                if names.subrange(0, m as int).contains(names[m as int]) {
                    let q = choose|q: int|
                        0 <= q < m && names.subrange(0, m as int)[q] == names[m as int];
                    assert(names[q] == out@[q].0@);
                    assert(out@[q].0@ != out@[m as int].0@);
                }
            }
        }
        m = m + 1;
    }
    let st = copy_range(b, p, len);
    Ok((out, st))
}

/// Reads the text of the identifier at `i`
fn read_ident_text_at(ts: &Vec<Tok>, i: usize) -> (r: Option<String>)
    ensures
        match r {
            Some(x) => ident_text_at(tv(ts@), i as int) == Some(x@) && i < ts@.len(),
            None => ident_text_at(tv(ts@), i as int) is None,
        },
{
    if i < ts.len() {
        match &ts[i] {
            Tok::Ident(x) => Some(x.clone()),
            _ => None,
        }
    } else {
        None
    }
}

// ---- contexts ----

/// No visibility, no qualifier, no generics, no `where` clause
pub open spec fn sig_ok(f: FnItemV) -> bool {
    f.vis_inherited && f.plain && !f.generic && !f.where_clause
}

/// The body of a function (none for a declaration)
pub open spec fn body_of(f: FnItemV) -> Seq<TokV> {
    match f.body {
        Some(b) => b,
        None => seq![],
    }
}

/// Is `t` a plain name as a type (`Shared`)?
pub open spec fn plain_type(t: Seq<TokV>) -> bool {
    t.len() == 1 && name_at(t, 0) is Some
}

/// Is the return type `ret` `(Shared, Local, name::Monotonics)`, or
/// `(Shared, Local, name::Monotonics, Actors)`: the `#[shared]` and
/// `#[local]` structs (by any plain names), the monotonics, and the
/// `#[actors]` struct?
pub open spec fn structs_return(ret: Option<Seq<TokV>>, name: Seq<char>) -> bool {
    match ret {
        None => false,
        Some(t) => match group_at(t, 0, Delim::Parenthesis) {
            None => false,
            Some(g) => {
                let parts = split_list(g);
                &&& t.len() == 1
                &&& (parts.len() == 3 || (parts.len() == 4 && plain_type(parts[3])))
                &&& plain_type(parts[0])
                &&& plain_type(parts[1])
                &&& type_named(parts[2], name, "Monotonics"@)
            },
        },
    }
}

/// The names of the structs that `init` returns, where its return type is
/// `(S, L, name::Monotonics)` or `(S, L, name::Monotonics, A)`: `S` for the
/// `#[shared]` struct, `L` for the `#[local]` one, `A` for the `#[actors]`
/// one; `None` for any other return type
pub open spec fn init_structs(ret: Option<Seq<TokV>>, name: Seq<char>) -> Option<
    (Seq<char>, Seq<char>, Option<Seq<char>>),
> {
    if !structs_return(ret, name) {
        None
    } else {
        let parts = split_list(ret->Some_0[0]->Group_1);
        Some(
            (
                parts[0][0]->Ident_0,
                parts[1][0]->Ident_0,
                if parts.len() == 4 {
                    Some(parts[3][0]->Ident_0)
                } else {
                    None
                },
            ),
        )
    }
}

/// The `init` function `f` (its `#[init]` attribute taken off), with
/// metadata `args`
pub open spec fn init_of(args: InitArgsV, f: FnItemV) -> Result<InitV, ErrV> {
    let err = Err((ErrorKind::InitSignature, f.name));
    if !(sig_ok(f) && f.params.len() == 1) {
        err
    } else {
        match init_structs(f.ret, f.name) {
            None => err,
            Some((sh, lo, ac)) => match inputs_of(f.params, f.name) {
                Some((ctx, Some(rest))) => if rest.len() == 0 {
                    match locals_of(body_of(f)) {
                        Err(e) => Err(e),
                        Ok((ls, st)) => Ok(
                            InitV {
                                args,
                                attrs: f.attrs,
                                name: f.name,
                                context: ctx,
                                returns_late_resources: false,
                                user_shared_struct: sh,
                                user_local_struct: lo,
                                user_actors_struct: ac,
                                locals: ls,
                                stmts: st,
                            },
                        ),
                    }
                } else {
                    err
                },
                _ => err,
            },
        }
    }
}

/// The `idle` function `f` (its `#[idle]` attribute taken off), with
/// metadata `args`
pub open spec fn idle_of(args: IdleArgsV, f: FnItemV) -> Result<IdleV, ErrV> {
    let err = Err((ErrorKind::IdleSignature, f.name));
    if !(sig_ok(f) && f.params.len() == 1 && bottom_type(f.ret)) {
        err
    } else {
        match inputs_of(f.params, f.name) {
            Some((ctx, Some(rest))) => if rest.len() == 0 {
                match locals_of(body_of(f)) {
                    Err(e) => Err(e),
                    Ok((ls, st)) => Ok(
                        IdleV { args, attrs: f.attrs, name: f.name, context: ctx, locals: ls, stmts: st },
                    ),
                }
            } else {
                err
            },
            _ => err,
        }
    }
}

/// The hardware task `f` (its `#[task]` attribute taken off), with
/// metadata `args`
pub open spec fn hardware_task_of(args: HardwareTaskArgsV, f: FnItemV) -> Result<HardwareTaskV, ErrV> {
    let err = Err((ErrorKind::TaskSignature, f.name));
    if f.name == "init"@ || f.name == "idle"@ {
        Err((ErrorKind::TaskNamedInitOrIdle, f.name))
    } else if !(sig_ok(f) && f.params.len() == 1) {
        err
    } else {
        match inputs_of(f.params, f.name) {
            Some((ctx, Some(rest))) => if rest.len() == 0 {
                match locals_of(body_of(f)) {
                    Err(e) => Err(e),
                    Ok((ls, st)) => if unit_type(f.ret) {
                        Ok(HardwareTaskV { args, attrs: f.attrs, context: ctx, locals: ls, stmts: st })
                    } else {
                        err
                    },
                }
            } else {
                err
            },
            _ => err,
        }
    }
}

/// The software task `f` (its `#[task]` attribute taken off), with
/// metadata `args`
pub open spec fn software_task_of(args: SoftwareTaskArgsV, f: FnItemV) -> Result<SoftwareTaskV, ErrV> {
    let err = Err((ErrorKind::TaskSignature, f.name));
    if !(sig_ok(f) && unit_type(f.ret)) {
        err
    } else {
        match inputs_of(f.params, f.name) {
            Some((ctx, Some(inputs))) => match locals_of(body_of(f)) {
                Err(e) => Err(e),
                Ok((ls, st)) => Ok(
                    SoftwareTaskV {
                        args,
                        cfgs: keep_cfgs(f.attrs, true),
                        attrs: keep_cfgs(f.attrs, false),
                        context: ctx,
                        inputs,
                        locals: ls,
                        stmts: st,
                    },
                ),
            },
            _ => err,
        }
    }
}

/// Law: a parsed software task keeps the `#[cfg]` attributes of its
/// function as its `cfgs`, in order, and all the others as its `attrs`
pub proof fn law_software_task_attrs(args: SoftwareTaskArgsV, f: FnItemV)
    ensures
        software_task_of(args, f) matches Ok(t) ==> t.cfgs == f.attrs.filter(cfg_filter())
            && t.attrs == f.attrs.filter(non_cfg_filter()),
{
    lemma_keep_cfgs_filter(f.attrs);
}

/// The attributes of the extern interrupt `f`, which must be `fn NAME();`
pub open spec fn interrupt_of(f: FnItemV) -> Result<Seq<AttrV>, ErrV> {
    if sig_ok(f) && f.params.len() == 0 && unit_type(f.ret) {
        Ok(f.attrs)
    } else {
        Err((ErrorKind::ExternInterruptSignature, f.name))
    }
}

fn body_tokens(body: Option<Tokens>) -> (r: Tokens)
    ensures
        tv(r@) == match body {
            Some(b) => tv(b@),
            None => seq![],
        },
{
    match body {
        Some(b) => b,
        None => {
            let v: Tokens = Vec::new();
            assert(tv(v@) =~= seq![]);
            v
        },
    }
}

/// Does the function have no visibility, no qualifier (`const`, `async`,
/// `unsafe`, `extern`), no generics and no `where` clause?
pub fn check_fn_signature(f: &FnItem) -> (r: bool)
    ensures
        r == sig_ok(f@),
{
    f.vis_inherited && f.plain && !f.generic && !f.where_clause
}

/// Does the function declared in an `extern` block have no visibility, no
/// qualifier, no generics and no `where` clause?
pub fn check_foreign_fn_signature(f: &FnItem) -> (r: bool)
    ensures
        r == sig_ok(f@),
{
    check_fn_signature(f)
}

/// The names of the structs that `init` returns, by its return type
/// `(S, L, name::Monotonics[, A])`; `None` for another return type
pub fn type_is_init_return(ret: &Option<Tokens>, name: &String) -> (r: Option<
    (String, String, Option<String>),
>)
    ensures
        match r {
            Some((s, l, a)) => init_structs(crate::parse::item::opt_toks_view(*ret), name@)
                == Some::<(Seq<char>, Seq<char>, Option<Seq<char>>)>(
                (
                    s@,
                    l@,
                    match a {
                        Some(x) => Some(x@),
                        None => None,
                    },
                ),
            ),
            None => init_structs(crate::parse::item::opt_toks_view(*ret), name@) is None,
        },
{
    proof {
        reveal_strlit("Monotonics");
    }
    let t = match ret {
        None => return None,
        Some(t) => t,
    };
    let g = match read_group(t, 0, Delim::Parenthesis) {
        None => return None,
        Some(g) => g,
    };
    let parts = crate::parse::item::read_list(g);
    if t.len() != 1 || parts.len() < 3 || parts.len() > 4 {
        return None;
    }
    assert(tv(t@)[0] == t@[0]@);
    assert(toks_seq_view(parts@)[0] == tv(parts@[0]@));
    assert(toks_seq_view(parts@)[1] == tv(parts@[1]@));
    assert(toks_seq_view(parts@)[2] == tv(parts@[2]@));
    if !type_is_path(&parts[2], name.as_str(), "Monotonics") {
        return None;
    }
    if parts[0].len() != 1 || parts[1].len() != 1 {
        return None;
    }
    let sh = match crate::parse::cursor::read_name(&parts[0], 0) {
        None => return None,
        Some(x) => x,
    };
    let lo = match crate::parse::cursor::read_name(&parts[1], 0) {
        None => return None,
        Some(x) => x,
    };
    let ac = if parts.len() == 4 {
        assert(toks_seq_view(parts@)[3] == tv(parts@[3]@));
        if parts[3].len() != 1 {
            return None;
        }
        match crate::parse::cursor::read_name(&parts[3], 0) {
            None => return None,
            Some(x) => Some(x),
        }
    } else {
        None
    };
    Some((sh, lo, ac))
}

/// Parses the `init` function `f` (its `#[init]` attribute taken off)
pub fn parse_init(args: crate::ast::InitArgs, f: FnItem) -> (r: Result<crate::ast::Init, Error>)
    ensures
        crate::error::res_view(r) == init_of(args@, f@),
{
    let ghost fv = f@;
    if !(check_fn_signature(&f) && f.params.len() == 1) {
        return Err(error_at(ErrorKind::InitSignature, &f.name));
    }
    let (sh, lo, ac) = match type_is_init_return(&f.ret, &f.name) {
        Some(v) => v,
        None => return Err(error_at(ErrorKind::InitSignature, &f.name)),
    };
    let (ctx, rest) = match parse_inputs(&f.params, &f.name) {
        Some((ctx, Some(rest))) => (ctx, rest),
        _ => return Err(error_at(ErrorKind::InitSignature, &f.name)),
    };
    if rest.len() != 0 {
        return Err(error_at(ErrorKind::InitSignature, &f.name));
    }
    let body = body_tokens(f.body);
    let (locals, stmts) = match read_locals(&body) {
        Err(e) => return Err(e),
        Ok(v) => v,
    };
    Ok(
        crate::ast::Init {
            args,
            attrs: f.attrs,
            name: f.name,
            context: ctx,
            returns_late_resources: false,
            user_shared_struct: sh,
            user_local_struct: lo,
            user_actors_struct: ac,
            locals,
            stmts,
        },
    )
}

/// Parses the `idle` function `f` (its `#[idle]` attribute taken off)
pub fn parse_idle(args: crate::ast::IdleArgs, f: FnItem) -> (r: Result<crate::ast::Idle, Error>)
    ensures
        crate::error::res_view(r) == idle_of(args@, f@),
{
    if !(check_fn_signature(&f) && f.params.len() == 1 && type_is_bottom(&f.ret)) {
        return Err(error_at(ErrorKind::IdleSignature, &f.name));
    }
    let (ctx, rest) = match parse_inputs(&f.params, &f.name) {
        Some((ctx, Some(rest))) => (ctx, rest),
        _ => return Err(error_at(ErrorKind::IdleSignature, &f.name)),
    };
    if rest.len() != 0 {
        return Err(error_at(ErrorKind::IdleSignature, &f.name));
    }
    let body = body_tokens(f.body);
    let (locals, stmts) = match read_locals(&body) {
        Err(e) => return Err(e),
        Ok(v) => v,
    };
    Ok(crate::ast::Idle { args, attrs: f.attrs, name: f.name, context: ctx, locals, stmts })
}

/// Parses the hardware task `f` (its `#[task]` attribute taken off)
pub fn parse_hardware_task(args: crate::ast::HardwareTaskArgs, f: FnItem) -> (r: Result<
    crate::ast::HardwareTask,
    Error,
>)
    ensures
        crate::error::res_view(r) == hardware_task_of(args@, f@),
{
    if str_eq(f.name.as_str(), "init") || str_eq(f.name.as_str(), "idle") {
        return Err(error_at(ErrorKind::TaskNamedInitOrIdle, &f.name));
    }
    if !(check_fn_signature(&f) && f.params.len() == 1) {
        return Err(error_at(ErrorKind::TaskSignature, &f.name));
    }
    let (ctx, rest) = match parse_inputs(&f.params, &f.name) {
        Some((ctx, Some(rest))) => (ctx, rest),
        _ => return Err(error_at(ErrorKind::TaskSignature, &f.name)),
    };
    if rest.len() != 0 {
        return Err(error_at(ErrorKind::TaskSignature, &f.name));
    }
    let unit = type_is_unit(&f.ret);
    let body = body_tokens(f.body);
    let (locals, stmts) = match read_locals(&body) {
        Err(e) => return Err(e),
        Ok(v) => v,
    };
    if !unit {
        return Err(error_at(ErrorKind::TaskSignature, &f.name));
    }
    Ok(crate::ast::HardwareTask { args, attrs: f.attrs, context: ctx, locals, stmts })
}

/// Parses the software task `f` (its `#[task]` attribute taken off)
pub fn parse_software_task(args: crate::ast::SoftwareTaskArgs, f: FnItem) -> (r: Result<
    crate::ast::SoftwareTask,
    Error,
>)
    ensures
        crate::error::res_view(r) == software_task_of(args@, f@),
{
    if !(check_fn_signature(&f) && type_is_unit(&f.ret)) {
        return Err(error_at(ErrorKind::TaskSignature, &f.name));
    }
    let (ctx, inputs) = match parse_inputs(&f.params, &f.name) {
        Some((ctx, Some(inputs))) => (ctx, inputs),
        _ => return Err(error_at(ErrorKind::TaskSignature, &f.name)),
    };
    let body = body_tokens(f.body);
    let (locals, stmts) = match read_locals(&body) {
        Err(e) => return Err(e),
        Ok(v) => v,
    };
    let (cfgs, attrs) = extract_cfgs(f.attrs);
    Ok(crate::ast::SoftwareTask { args, cfgs, attrs, context: ctx, inputs, locals, stmts })
}

/// Parses the extern interrupt `f`
pub fn parse_interrupt(f: FnItem) -> (r: Result<crate::ast::ExternInterrupt, Error>)
    ensures
        match r {
            Ok(x) => interrupt_of(f@) == Ok::<Seq<AttrV>, ErrV>(attrs_view(x.attrs@)),
            Err(e) => interrupt_of(f@) == Err::<Seq<AttrV>, ErrV>(e@),
        },
{
    if check_foreign_fn_signature(&f) && f.params.len() == 0 && type_is_unit(&f.ret) {
        Ok(crate::ast::ExternInterrupt { attrs: f.attrs })
    } else {
        Err(error_at(ErrorKind::ExternInterruptSignature, &f.name))
    }
}

} // verus!
