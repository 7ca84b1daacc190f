//! The arguments of `#[app(..)]`, `#[init(..)]`, `#[idle(..)]`, `#[task(..)]`
//! and `#[monotonic(..)]`
//!
//! Each is a comma-separated list of `name = value`; which names an attribute
//! takes, and the grammar of each value, are below. `#[task]` takes `binds`
//! (where the settings allow it), `capacity`, `priority`, `resources`,
//! `shared` and `local`; `#[init]` takes `late` and `resources`; `#[idle]`
//! takes `resources`, `shared` and `local`. Values:
//! - `binds = Name`: an identifier;
//! - `capacity = N`, `priority = N`: an unsuffixed integer literal in `1..=255`;
//! - `resources = [a, &b]`, or `shared = [..]` in its place: resource
//!   names, `&` for shared access;
//! - `local = [a, b: Type = expr]`: local resources, named (each then an
//!   exclusive access too) or declared in place;
//! - `late = [..]`: distinct identifiers;
//! - `default = b`, `peripherals = b`: `true` or `false`;
//! - `device = path`: a path of identifiers (`a::b`, `::a`);
//! - `dispatchers = [#[attr] A, B]`: distinct interrupt names, each with its
//!   attributes.

use vstd::prelude::*;

use crate::ast::{
    attrs_view, find_key, has_key, interrupts_view, keys_unique, names_view, opt_path_view,
    resources_view, task_locals_view, Access, AppArgs, Local, LocalV, TaskLocal, TaskLocalV,
    AppArgsV, AttrV, Attribute, ExternInterrupt, HardwareTaskArgs, HardwareTaskArgsV, IdleArgs,
    IdleArgsV, InitArgs, InitArgsV, MonotonicArgs, MonotonicArgsV, NameMap, NameSet, Path, PathV,
    Resources, SoftwareTaskArgs, SoftwareTaskArgsV,
};
use crate::error::{error_at, error_here, error_str, res_view, ErrV, Error, ErrorKind};
use crate::parse::cursor::{
    local_segments,
    attrs_at, colon2_at, comma_segments, find_sep, group_at, is_colon2_at, is_punct_at,
    is_word_at, name_at, next_sep, path_at,
    path_rest, punct_at, read_attrs, read_group, read_name, read_path, segment_at, segments,
    whole_path, word_at,
};
use crate::stream::{int_literal, int_text_ok, is_int_text, read_int_literal, stream_trees, tokens_of};
use crate::tokens::{copy_range, lemma_tv_index, lemma_tv_len, str_eq, tv, Delim, Tok, TokV, Tokens};
use crate::Settings;

verus! {

broadcast use lemma_tv_len, lemma_tv_index;

// ---- values ----

/// The text of the integer literal at `i` (with its sign, where a `-`
/// stands before it), and where it ends
pub open spec fn literal_text_at(s: Seq<TokV>, i: int) -> Option<(Seq<char>, int)> {
    if 0 <= i < s.len() && s[i] is Literal {
        Some((s[i]->Literal_0, i + 1))
    } else if punct_at(s, i, '-') && i + 1 < s.len() && s[i + 1] is Literal {
        Some((seq!['-'] + s[i + 1]->Literal_0, i + 2))
    } else {
        None
    }
}

/// The value of an optional literal reading
pub open spec fn reading_view(r: Option<(String, Option<u8>)>) -> Option<(Seq<char>, Option<u8>)> {
    match r {
        Some((suffix, value)) => Some((suffix@, value)),
        None => None,
    }
}

/// What the integer literal `text`, read by `syn` as `read`, gives: an
/// unsuffixed literal in `1..=255`
pub open spec fn literal_check(read: Option<(Seq<char>, Option<u8>)>, text: Seq<char>) -> Result<
    u8,
    ErrV,
> {
    match read {
        None => Err((ErrorKind::ExpectedIntLiteral, Seq::empty())),
        Some((suffix, value)) => if suffix.len() != 0 {
            Err((ErrorKind::LiteralMustBeUnsuffixed, text))
        } else {
            match value {
                Some(v) => if v != 0 {
                    Ok(v)
                } else {
                    Err((ErrorKind::LiteralOutOfRange, text))
                },
                None => Err((ErrorKind::LiteralOutOfRange, text)),
            }
        },
    }
}

/// The integer at `i` (`capacity`, `priority`), and where it ends
pub open spec fn int_at(s: Seq<TokV>, i: int) -> Result<(u8, int), ErrV> {
    match literal_text_at(s, i) {
        None => Err((ErrorKind::ExpectedIntLiteral, Seq::empty())),
        Some((text, j)) => if !int_text_ok(text) {
            Err((ErrorKind::ExpectedIntLiteral, Seq::empty()))
        } else {
            match literal_check(int_literal(text), text) {
                Ok(v) => Ok((v, j)),
                Err(e) => Err(e),
            }
        },
    }
}

/// The boolean at `i`
pub open spec fn bool_at(s: Seq<TokV>, i: int) -> Option<bool> {
    if word_at(s, i, "true"@) {
        Some(true)
    } else if word_at(s, i, "false"@) {
        Some(false)
    } else {
        None
    }
}

/// Checks the reading of an integer literal: the value where it is an
/// unsuffixed literal in `1..=255`, else the error
pub fn check_literal(read: &Option<(String, Option<u8>)>, text: &String) -> (r: Result<u8, Error>)
    ensures
        res_view(r) == literal_check(reading_view(*read), text@),
{
    match read {
        None => Err(error_here(ErrorKind::ExpectedIntLiteral)),
        Some((suffix, value)) => {
            if suffix.unicode_len() != 0 {
                Err(error_at(ErrorKind::LiteralMustBeUnsuffixed, text))
            } else {
                match value {
                    Some(v) => if *v != 0 {
                        Ok(*v)
                    } else {
                        Err(error_at(ErrorKind::LiteralOutOfRange, text))
                    },
                    None => Err(error_at(ErrorKind::LiteralOutOfRange, text)),
                }
            }
        },
    }
}

/// Reads the integer at `i`
pub(crate) fn read_int(ts: &Vec<Tok>, i: usize) -> (r: Result<(u8, usize), Error>)
    ensures
        match r {
            Ok((v, j)) => int_at(tv(ts@), i as int) == Ok::<(u8, int), ErrV>((v, j as int)) && j
                <= ts@.len(),
            Err(e) => int_at(tv(ts@), i as int) == Err::<(u8, int), ErrV>(e@),
        },
{
    proof {
        reveal_strlit("");
        reveal_strlit("-");
    }
    let n = ts.len();
    if i >= n {
        return Err(error_here(ErrorKind::ExpectedIntLiteral));
    }
    let (text, j) = match &ts[i] {
        Tok::Literal(t) => (t.clone(), i + 1),
        Tok::Punct(c, _) => {
            if *c != '-' || i + 1 >= n {
                return Err(error_here(ErrorKind::ExpectedIntLiteral));
            }
            match &ts[i + 1] {
                Tok::Literal(t) => {
                    let mut text = String::from_str("-");
                    text.append(t.as_str());
                    assert("-"@ =~= seq!['-']);
                    (text, i + 2)
                },
                _ => return Err(error_here(ErrorKind::ExpectedIntLiteral)),
            }
        },
        _ => return Err(error_here(ErrorKind::ExpectedIntLiteral)),
    };
    if !is_int_text(text.as_str()) {
        return Err(error_here(ErrorKind::ExpectedIntLiteral));
    }
    let read = read_int_literal(text.as_str());
    match check_literal(&read, &text) {
        Ok(v) => Ok((v, j)),
        Err(e) => Err(e),
    }
}

// ---- lists of names ----

/// The names `a, b, c` from `k`, after the names `acc`
pub open spec fn names_from(c: Seq<TokV>, k: int, acc: Seq<Seq<char>>) -> Result<
    Seq<Seq<char>>,
    ErrV,
>
    decreases c.len() - k,
{
    if k < 0 || k >= c.len() {
        Ok(acc)
    } else {
        match name_at(c, k) {
            None => Err((ErrorKind::ExpectedIdent, Seq::empty())),
            Some(x) => if k + 1 >= c.len() {
                Ok(acc.push(x))
            } else if !punct_at(c, k + 1, ',') {
                Err((ErrorKind::ExpectedComma, Seq::empty()))
            } else {
                names_from(c, k + 2, acc.push(x))
            },
        }
    }
}

/// The first name, from position `k`, that repeats an earlier one
pub open spec fn repeated_from(v: Seq<Seq<char>>, k: int) -> Option<Seq<char>>
    decreases v.len() - k,
{
    if k < 0 || k >= v.len() {
        None
    } else if v.subrange(0, k).contains(v[k]) {
        Some(v[k])
    } else {
        repeated_from(v, k + 1)
    }
}

/// A list of distinct names
pub open spec fn names_list(c: Seq<TokV>) -> Result<Seq<Seq<char>>, ErrV> {
    match names_from(c, 0, seq![]) {
        Err(e) => Err(e),
        Ok(v) => match repeated_from(v, 0) {
            Some(x) => Err((ErrorKind::IdentifierAppearsMoreThanOnce, x)),
            None => Ok(v),
        },
    }
}

/// Is `x` among the first `k` names of `v`?
fn among_first(v: &Vec<String>, k: usize, x: &String) -> (r: bool)
    requires
        k <= v@.len(),
    ensures
        r == names_view(v@).subrange(0, k as int).contains(x@),
{
    let mut j: usize = 0;
    while j < k
        invariant
            k <= v@.len(),
            j <= k,
            forall|m: int| 0 <= m < j ==> v@[m]@ != x@,
        decreases k - j,
    {
        if crate::tokens::str_eq(v[j].as_str(), x.as_str()) {
            assert(names_view(v@).subrange(0, k as int)[j as int] == x@);
            return true;
        }
        j = j + 1;
    }
    assert(!names_view(v@).subrange(0, k as int).contains(x@)) by {
        if names_view(v@).subrange(0, k as int).contains(x@) {
            let m = choose|m: int|
                0 <= m < k && names_view(v@).subrange(0, k as int)[m] == x@;
            assert(v@[m]@ != x@);
        }
    }
    false
}

/// Reads a list of distinct names
pub fn parse_idents(c: &Vec<Tok>) -> (r: Result<NameSet, Error>)
    ensures
        match r {
            Ok(v) => names_list(tv(c@)) == Ok::<Seq<Seq<char>>, ErrV>(names_view(v@)),
            Err(e) => names_list(tv(c@)) == Err::<Seq<Seq<char>>, ErrV>(e@),
        },
{
    proof {
        reveal_strlit("");
    }
    let ghost s = tv(c@);
    let n = c.len();
    let mut out: Vec<String> = Vec::new();
    let mut k: usize = 0;
    assert(names_view(out@) =~= seq![]);
    while k < n
        invariant
            s == tv(c@),
            n == c@.len(),
            k <= n,
            names_from(s, 0, seq![]) == names_from(s, k as int, names_view(out@)),
        decreases n - k,
    {
        let x = match read_name(c, k) {
            Some(x) => x,
            None => return Err(error_here(ErrorKind::ExpectedIdent)),
        };
        let ghost before = out@;
        out.push(x);
        proof {
            assert(names_view(out@) =~= names_view(before).push(x@));
        }
        if k + 1 >= n {
            k = n;
        } else if !is_punct_at(c, k + 1, ',') {
            return Err(error_here(ErrorKind::ExpectedComma));
        } else {
            k = k + 2;
        }
    }
    let ghost v = names_view(out@);
    assert(names_from(s, 0, seq![]) == Ok::<Seq<Seq<char>>, ErrV>(v));
    let mut m: usize = 0;
    while m < out.len()
        invariant
            s == tv(c@),
            names_from(s, 0, seq![]) == Ok::<Seq<Seq<char>>, ErrV>(v),
            v == names_view(out@),
            m <= out@.len(),
            repeated_from(v, 0) == repeated_from(v, m as int),
        decreases out@.len() - m,
    {
        assert(v[m as int] == out@[m as int]@);
        if among_first(&out, m, &out[m]) {
            assert(repeated_from(v, m as int) == Some(v[m as int]));
            assert(names_list(s) == Err::<Seq<Seq<char>>, ErrV>(
                (ErrorKind::IdentifierAppearsMoreThanOnce, v[m as int]),
            ));
            return Err(error_at(ErrorKind::IdentifierAppearsMoreThanOnce, &out[m]));
        }
        m = m + 1;
    }
    Ok(out)
}

// ---- resource lists ----

/// The resource that one element of a `resources` list names, and how
pub open spec fn resource_of(e: Seq<TokV>) -> Result<(Seq<char>, Access), ErrV> {
    let shared = punct_at(e, 0, '&');
    let p = if shared {
        e.subrange(1, e.len() as int)
    } else {
        e
    };
    match whole_path(p) {
        None => Err((ErrorKind::IdentifierAppearsMoreThanOnce, Seq::empty())),
        Some(pv) => if pv.leading_colon || pv.segments.len() != 1 {
            Err((ErrorKind::ResourceMustBeIdentifier, Seq::empty()))
        } else {
            Ok(
                (
                    pv.segments[0],
                    if shared {
                        Access::Shared
                    } else {
                        Access::Exclusive
                    },
                ),
            )
        },
    }
}

/// The names of a sequence of entries
pub open spec fn entry_names<T>(m: Seq<(Seq<char>, T)>) -> Seq<Seq<char>> {
    m.map_values(|e: (Seq<char>, T)| e.0)
}

/// Some element of the list is empty
pub open spec fn some_empty(segs: Seq<(int, int)>) -> bool {
    exists|k: int| 0 <= k < segs.len() && segs[k].0 == segs[k].1
}

/// The resources of the elements `segs[k..]` of a list, after `acc`
pub open spec fn resources_from(
    c: Seq<TokV>,
    segs: Seq<(int, int)>,
    k: int,
    acc: Seq<(Seq<char>, Access)>,
) -> Result<Seq<(Seq<char>, Access)>, ErrV>
    decreases segs.len() - k,
{
    if k < 0 || k >= segs.len() {
        Ok(acc)
    } else {
        match resource_of(c.subrange(segs[k].0, segs[k].1)) {
            Err(e) => Err(e),
            Ok((x, a)) => if entry_names(acc).contains(x) {
                Err((ErrorKind::ResourceAppearsMoreThanOnce, x))
            } else {
                resources_from(c, segs, k + 1, acc.push((x, a)))
            },
        }
    }
}

/// A `resources` list: expressions first, then each names a distinct resource
pub open spec fn resources_list(c: Seq<TokV>) -> Result<Seq<(Seq<char>, Access)>, ErrV> {
    if some_empty(segments(c)) {
        Err((ErrorKind::ExpectedExpression, Seq::empty()))
    } else {
        resources_from(c, segments(c), 0, seq![])
    }
}

/// Is `e` exactly a path?
fn read_whole_path(e: &Vec<Tok>) -> (r: Option<Path>)
    ensures
        match r {
            Some(p) => whole_path(tv(e@)) == Some(p@),
            None => whole_path(tv(e@)) is None,
        },
{
    match read_path(e, 0) {
        Some((p, k)) => if k == e.len() {
            Some(p)
        } else {
            None
        },
        None => None,
    }
}

/// Reads one element of a `resources` list
fn read_resource(e: &Vec<Tok>) -> (r: Result<(String, Access), Error>)
    ensures
        match r {
            Ok((x, a)) => resource_of(tv(e@)) == Ok::<(Seq<char>, Access), ErrV>((x@, a)),
            Err(err) => resource_of(tv(e@)) == Err::<(Seq<char>, Access), ErrV>(err@),
        },
{
    proof {
        reveal_strlit("");
    }
    let shared = is_punct_at(e, 0, '&');
    let p = if shared {
        copy_range(e, 1, e.len())
    } else {
        copy_range(e, 0, e.len())
    };
    assert(tv(e@).subrange(0, e@.len() as int) =~= tv(e@));
    match read_whole_path(&p) {
        None => Err(error_here(ErrorKind::IdentifierAppearsMoreThanOnce)),
        Some(pv) => {
            if pv.leading_colon || pv.segments.len() != 1 {
                Err(error_here(ErrorKind::ResourceMustBeIdentifier))
            } else {
                let x = pv.segments[0].clone();
                Ok(
                    (
                        x,
                        if shared {
                            Access::Shared
                        } else {
                            Access::Exclusive
                        },
                    ),
                )
            }
        },
    }
}

/// Does the map have an entry named `x`?
pub(crate) fn has_entry<T>(m: &Vec<(String, T)>, x: &String, Ghost(names): Ghost<Seq<Seq<char>>>) -> (r: bool)
    requires
        names.len() == m@.len(),
        forall|j: int| 0 <= j < m@.len() ==> #[trigger] names[j] == m@[j].0@,
    ensures
        r == names.contains(x@),
{
    let mut j: usize = 0;
    while j < m.len()
        invariant
            names.len() == m@.len(),
            forall|q: int| 0 <= q < m@.len() ==> #[trigger] names[q] == m@[q].0@,
            j <= m@.len(),
            forall|q: int| 0 <= q < j ==> m@[q].0@ != x@,
        decreases m@.len() - j,
    {
        if crate::tokens::str_eq(m[j].0.as_str(), x.as_str()) {
            assert(names[j as int] == x@);
            return true;
        }
        j = j + 1;
    }
    assert(!names.contains(x@)) by {
        if names.contains(x@) {
            let q = choose|q: int| 0 <= q < names.len() && names[q] == x@;
            assert(names[q] == m@[q].0@);
        }
    }
    false
}

/// Reads a `resources` list
pub fn parse_shared_resources(c: &Vec<Tok>) -> (r: Result<Resources, Error>)
    ensures
        match r {
            Ok(v) => resources_list(tv(c@)) == Ok::<Seq<(Seq<char>, Access)>, ErrV>(
                resources_view(v@),
            ),
            Err(e) => resources_list(tv(c@)) == Err::<Seq<(Seq<char>, Access)>, ErrV>(e@),
        },
{
    proof {
        reveal_strlit("");
    }
    let ghost s = tv(c@);
    let segs = comma_segments(c);
    let ghost gs = segments(s);
    let mut k: usize = 0;
    while k < segs.len()
        invariant
            s == tv(c@),
            gs == segments(s),
            crate::parse::cursor::ranges_view(segs@) == gs,
            k <= segs@.len(),
            forall|q: int| 0 <= q < k ==> gs[q].0 != gs[q].1,
        decreases segs@.len() - k,
    {
        assert(gs[k as int] == (segs@[k as int].0 as int, segs@[k as int].1 as int));
        if segs[k].0 == segs[k].1 {
            return Err(error_here(ErrorKind::ExpectedExpression));
        }
        k = k + 1;
    }
    assert(!some_empty(gs));
    proof {
        crate::parse::cursor::lemma_segments_bounds(s, 0);
    }
    let mut out: Resources = Vec::new();
    let mut k: usize = 0;
    assert(resources_view(out@) =~= seq![]);
    while k < segs.len()
        invariant
            s == tv(c@),
            gs == segments(s),
            crate::parse::cursor::ranges_view(segs@) == gs,
            k <= segs@.len(),
            !some_empty(gs),
            forall|q: int| 0 <= q < gs.len() ==> 0 <= #[trigger] gs[q].0 <= gs[q].1 <= s.len(),
            resources_from(s, gs, 0, seq![]) == resources_from(s, gs, k as int, resources_view(out@)),
        decreases segs@.len() - k,
    {
        assert(gs[k as int] == (segs@[k as int].0 as int, segs@[k as int].1 as int));
        let e = copy_range(c, segs[k].0, segs[k].1);
        let (x, a) = match read_resource(&e) {
            Ok(v) => v,
            Err(err) => return Err(err),
        };
        if has_entry(&out, &x, Ghost(entry_names(resources_view(out@)))) {
            return Err(error_at(ErrorKind::ResourceAppearsMoreThanOnce, &x));
        }
        let ghost before = out@;
        out.push((x, a));
        proof {
            assert(resources_view(out@) =~= resources_view(before).push((x@, a)));
        }
        k = k + 1;
    }
    Ok(out)
}

// ---- local resource lists ----

/// Is `t` a type that a local declared in a list may have: an array, a
/// tuple (`()`, `(T,)`, `(A, B)`), a pointer or a type path
pub open spec fn local_type_ok(t: Seq<TokV>) -> bool {
    ||| t.len() == 1 && group_at(t, 0, Delim::Bracket) is Some
    ||| t.len() == 1 && match group_at(t, 0, Delim::Parenthesis) {
        Some(g) => g.len() == 0 || next_sep(g, 0, 0, ',') < g.len(),
        None => false,
    }
    ||| punct_at(t, 0, '*')
    ||| (segment_at(t, 0) is Some && !word_at(t, 0, "dyn"@)) || colon2_at(t, 0) || punct_at(t, 0, '<')
}

/// Is the token at `i` an `=` that stands alone (not part of `==`, `<=`,
/// `=>`, `+=` and the like)?
pub open spec fn lone_eq_at(e: Seq<TokV>, i: int) -> bool {
    &&& 0 <= i < e.len()
    &&& e[i] == TokV::Punct('=', false)
    &&& !(i > 0 && e[i - 1] matches TokV::Punct(_, true))
}

/// The local resource that one element of a `local` list names or
/// declares: `name`, or `name: Type = expr`
pub open spec fn local_of(e: Seq<TokV>) -> Result<(Seq<char>, TaskLocalV), ErrV> {
    match whole_path(e) {
        Some(pv) => if pv.leading_colon || pv.segments.len() != 1 {
            Err((ErrorKind::ResourceMustBeIdentifier, Seq::empty()))
        } else {
            Ok((pv.segments[0], TaskLocalV::External))
        },
        None => {
            let eq = next_sep(e, 0, 0, '=');
            if !lone_eq_at(e, eq) {
                Err((ErrorKind::IdentifierAppearsMoreThanOnce, Seq::empty()))
            } else if eq + 1 >= e.len() {
                Err((ErrorKind::ExpectedExpression, Seq::empty()))
            } else {
                let left = e.subrange(0, eq);
                match path_at(left, 0) {
                    None => Err((ErrorKind::NotAType, Seq::empty())),
                    Some((pv, k)) => if !punct_at(left, k, ':') || colon2_at(left, k) {
                        Err((ErrorKind::NotAType, Seq::empty()))
                    } else if pv.leading_colon || pv.segments.len() != 1 {
                        Err((ErrorKind::ResourceMustBeIdentifier, Seq::empty()))
                    } else if !local_type_ok(left.subrange(k + 1, eq)) {
                        Err((ErrorKind::UnsupportedLocalType, Seq::empty()))
                    } else {
                        Ok(
                            (
                                pv.segments[0],
                                TaskLocalV::Declared(
                                    LocalV {
                                        attrs: seq![],
                                        cfgs: seq![],
                                        ty: left.subrange(k + 1, eq),
                                        expr: e.subrange(eq + 1, e.len() as int),
                                    },
                                ),
                            ),
                        )
                    },
                }
            }
        },
    }
}

/// The position of the entry named `x`
pub open spec fn entry_pos<T>(m: Seq<(Seq<char>, T)>, x: Seq<char>) -> int {
    choose|i: int| 0 <= i < m.len() && m[i].0 == x
}

/// `m` with `x` set to `v`: an entry named `x` keeps its place and takes
/// the new value, else the entry goes last
pub open spec fn map_insert<T>(m: Seq<(Seq<char>, T)>, x: Seq<char>, v: T) -> Seq<(Seq<char>, T)> {
    if entry_names(m).contains(x) {
        m.update(entry_pos(m, x), (x, v))
    } else {
        m.push((x, v))
    }
}

/// The locals of the elements `segs[k..]` of a list, inserted into `acc`
pub open spec fn locals_from(
    c: Seq<TokV>,
    segs: Seq<(int, int)>,
    k: int,
    acc: Seq<(Seq<char>, TaskLocalV)>,
) -> Result<Seq<(Seq<char>, TaskLocalV)>, ErrV>
    decreases segs.len() - k,
{
    if k < 0 || k >= segs.len() {
        Ok(acc)
    } else {
        match local_of(c.subrange(segs[k].0, segs[k].1)) {
            Err(e) => Err(e),
            Ok((x, l)) => locals_from(c, segs, k + 1, map_insert(acc, x, l)),
        }
    }
}

/// A `local` list: expressions first, then each names or declares a local;
/// a name given twice keeps its first place and its last meaning
pub open spec fn locals_list(c: Seq<TokV>) -> Result<Seq<(Seq<char>, TaskLocalV)>, ErrV> {
    if some_empty(local_segments(c)) {
        Err((ErrorKind::ExpectedExpression, Seq::empty()))
    } else {
        locals_from(c, local_segments(c), 0, seq![])
    }
}

/// Is `t` a type that a declared local may have?
fn is_local_type(t: &Vec<Tok>) -> (r: bool)
    ensures
        r == local_type_ok(tv(t@)),
{
    proof {
        reveal_strlit("dyn");
    }
    if t.len() == 1 {
        if read_group(t, 0, Delim::Bracket).is_some() {
            return true;
        }
        match read_group(t, 0, Delim::Parenthesis) {
            Some(g) => {
                if g.len() == 0 || find_sep(g, 0, ',') < g.len() {
                    return true;
                }
            },
            None => {},
        }
    }
    is_punct_at(t, 0, '*') || (crate::parse::cursor::read_segment(t, 0).is_some() && !is_word_at(
        t,
        0,
        "dyn",
    )) || is_colon2_at(t, 0) || is_punct_at(t, 0, '<')
}

/// Is the token at `i` an `=` that stands alone?
fn is_lone_eq_at(e: &Vec<Tok>, i: usize) -> (r: bool)
    ensures
        r == lone_eq_at(tv(e@), i as int),
{
    if i >= e.len() {
        return false;
    }
    let eq = match &e[i] {
        Tok::Punct(c, joint) => *c == '=' && !*joint,
        _ => false,
    };
    let after_joint = i > 0 && match &e[i - 1] {
        Tok::Punct(_, joint) => *joint,
        _ => false,
    };
    eq && !after_joint
}

/// Reads one element of a `local` list
fn read_local(e: &Vec<Tok>) -> (r: Result<(String, TaskLocal), Error>)
    ensures
        match r {
            Ok((x, l)) => local_of(tv(e@)) == Ok::<(Seq<char>, TaskLocalV), ErrV>((x@, l@)),
            Err(err) => local_of(tv(e@)) == Err::<(Seq<char>, TaskLocalV), ErrV>(err@),
        },
{
    proof {
        reveal_strlit("");
    }
    let ghost s = tv(e@);
    match read_whole_path(e) {
        Some(pv) => {
            if pv.leading_colon || pv.segments.len() != 1 {
                return Err(error_here(ErrorKind::ResourceMustBeIdentifier));
            }
            return Ok((pv.segments[0].clone(), TaskLocal::External));
        },
        None => {},
    }
    let eq = find_sep(e, 0, '=');
    if !is_lone_eq_at(e, eq) {
        return Err(error_here(ErrorKind::IdentifierAppearsMoreThanOnce));
    }
    assert(eq < s.len() && s.len() == e@.len());
    if e.len() - eq <= 1 {
        return Err(error_here(ErrorKind::ExpectedExpression));
    }
    let left = copy_range(e, 0, eq);
    let ghost l = tv(left@);
    let (pv, k) = match read_path(&left, 0) {
        None => return Err(error_here(ErrorKind::NotAType)),
        Some(v) => v,
    };
    if !is_punct_at(&left, k, ':') || is_colon2_at(&left, k) {
        return Err(error_here(ErrorKind::NotAType));
    }
    if pv.leading_colon || pv.segments.len() != 1 {
        return Err(error_here(ErrorKind::ResourceMustBeIdentifier));
    }
    let ty = copy_range(&left, k + 1, eq);
    if !is_local_type(&ty) {
        return Err(error_here(ErrorKind::UnsupportedLocalType));
    }
    let expr = copy_range(e, eq + 1, e.len());
    let local = Local { attrs: Vec::new(), cfgs: Vec::new(), ty, expr };
    assert(attrs_view(local.attrs@) =~= seq![]);
    assert(attrs_view(local.cfgs@) =~= seq![]);
    Ok((pv.segments[0].clone(), TaskLocal::Declared(local)))
}

/// Reads a `local` list: names of resources declared elsewhere, and locals
/// declared in place as `name: Type = expr`
pub fn parse_local_resources(c: &Vec<Tok>) -> (r: Result<NameMap<TaskLocal>, Error>)
    ensures
        match r {
            Ok(v) => locals_list(tv(c@)) == Ok::<Seq<(Seq<char>, TaskLocalV)>, ErrV>(
                task_locals_view(v@),
            ),
            Err(e) => locals_list(tv(c@)) == Err::<Seq<(Seq<char>, TaskLocalV)>, ErrV>(e@),
        },
{
    proof {
        reveal_strlit("");
    }
    let ghost s = tv(c@);
    let segs = crate::parse::cursor::local_comma_segments(c);
    let ghost gs = local_segments(s);
    let mut k: usize = 0;
    while k < segs.len()
        invariant
            s == tv(c@),
            gs == local_segments(s),
            crate::parse::cursor::ranges_view(segs@) == gs,
            k <= segs@.len(),
            forall|q: int| 0 <= q < k ==> gs[q].0 != gs[q].1,
        decreases segs@.len() - k,
    {
        assert(gs[k as int] == (segs@[k as int].0 as int, segs@[k as int].1 as int));
        if segs[k].0 == segs[k].1 {
            return Err(error_here(ErrorKind::ExpectedExpression));
        }
        k = k + 1;
    }
    assert(!some_empty(gs));
    proof {
        crate::parse::cursor::lemma_local_segments_bounds(s, 0);
    }
    let mut out: NameMap<TaskLocal> = Vec::new();
    let mut k: usize = 0;
    assert(task_locals_view(out@) =~= seq![]);
    while k < segs.len()
        invariant
            s == tv(c@),
            gs == local_segments(s),
            crate::parse::cursor::ranges_view(segs@) == gs,
            k <= segs@.len(),
            !some_empty(gs),
            forall|q: int| 0 <= q < gs.len() ==> 0 <= #[trigger] gs[q].0 <= gs[q].1 <= s.len(),
            keys_unique(out@),
            locals_from(s, gs, 0, seq![]) == locals_from(s, gs, k as int, task_locals_view(out@)),
        decreases segs@.len() - k,
    {
        assert(gs[k as int] == (segs@[k as int].0 as int, segs@[k as int].1 as int));
        let e = copy_range(c, segs[k].0, segs[k].1);
        let (x, l) = match read_local(&e) {
            Ok(v) => v,
            Err(err) => return Err(err),
        };
        let ghost before = task_locals_view(out@);
        let ghost lv = l@;
        match find_key(&out, &x) {
            Some(i) => {
                proof {
                    assert(entry_names(before).contains(x@)) by {
                        assert(entry_names(before)[i as int] == x@);
                    }
                    let p = entry_pos(before, x@);
                    assert(0 <= p < before.len() && before[p].0 == x@);
                    assert(p == i as int) by {
                        if p != i as int {
                            assert(out@[p].0@ == out@[i as int].0@);
                        }
                    }
                }
                out.set(i, (x, l));
                proof {
                    assert(task_locals_view(out@) =~= map_insert(before, x@, lv));
                    assert(keys_unique(out@)) by {
                        assert forall|a: int, b: int| 0 <= a < b < out@.len() implies out@[a].0@
                            != out@[b].0@ by {
                            assert(out@[a].0@ == before[a].0);
                            assert(out@[b].0@ == before[b].0);
                        }
                    }
                }
            },
            None => {
                proof {
                    assert(!entry_names(before).contains(x@)) by {
                        if entry_names(before).contains(x@) {
                            let q = choose|q: int| 0 <= q < entry_names(before).len() && entry_names(before)[q] == x@;
                            assert(out@[q].0@ == x@);
                        }
                    }
                }
                out.push((x, l));
                proof {
                    assert(task_locals_view(out@) =~= map_insert(before, x@, lv));
                }
            },
        }
        k = k + 1;
    }
    Ok(out)
}

// ---- dispatcher lists ----

/// The attributes of one element of `dispatchers`, and the expression after them
pub open spec fn dispatcher_parts(e: Seq<TokV>) -> (Seq<AttrV>, Seq<TokV>) {
    let (a, k) = attrs_at(e, 0);
    (a, e.subrange(k, e.len() as int))
}

/// Some element of the list holds no expression
pub open spec fn some_bare(c: Seq<TokV>, segs: Seq<(int, int)>) -> bool {
    exists|k: int|
        0 <= k < segs.len() && #[trigger] dispatcher_parts(c.subrange(segs[k].0, segs[k].1)).1.len()
            == 0
}

/// The interrupt that one element of `dispatchers` names, with its attributes
pub open spec fn dispatcher_of(e: Seq<TokV>) -> Result<(Seq<char>, Seq<AttrV>), ErrV> {
    let (a, x) = dispatcher_parts(e);
    match whole_path(x) {
        None => Err((ErrorKind::InterruptMustBeIdent, Seq::empty())),
        Some(p) => if p.leading_colon || p.segments.len() != 1 {
            Err((ErrorKind::InterruptMustBeIdentifier, Seq::empty()))
        } else {
            Ok((p.segments[0], a))
        },
    }
}

/// The interrupts of the elements `segs[k..]`, after `acc`
pub open spec fn dispatchers_from(
    c: Seq<TokV>,
    segs: Seq<(int, int)>,
    k: int,
    acc: Seq<(Seq<char>, Seq<AttrV>)>,
) -> Result<Seq<(Seq<char>, Seq<AttrV>)>, ErrV>
    decreases segs.len() - k,
{
    if k < 0 || k >= segs.len() {
        Ok(acc)
    } else {
        match dispatcher_of(c.subrange(segs[k].0, segs[k].1)) {
            Err(e) => Err(e),
            Ok((x, a)) => if entry_names(acc).contains(x) {
                Err((ErrorKind::InterruptListedMoreThanOnce, x))
            } else {
                dispatchers_from(c, segs, k + 1, acc.push((x, a)))
            },
        }
    }
}

/// A `dispatchers` array: expressions first, then each names a distinct interrupt
pub open spec fn dispatchers_list(c: Seq<TokV>) -> Result<Seq<(Seq<char>, Seq<AttrV>)>, ErrV> {
    if some_bare(c, segments(c)) {
        Err((ErrorKind::ValueShouldBeArray, "dispatchers"@))
    } else {
        dispatchers_from(c, segments(c), 0, seq![])
    }
}

/// Reads the parts of one element of `dispatchers`
fn read_dispatcher_parts(e: &Vec<Tok>) -> (r: (Vec<Attribute>, Vec<Tok>))
    ensures
        dispatcher_parts(tv(e@)) == (attrs_view(r.0@), tv(r.1@)),
{
    let (attrs, k) = read_attrs(e, 0);
    let rest = copy_range(e, k, e.len());
    (attrs, rest)
}

/// Reads a `dispatchers` array
pub fn read_dispatchers(c: &Vec<Tok>) -> (r: Result<NameMap<ExternInterrupt>, Error>)
    ensures
        match r {
            Ok(v) => dispatchers_list(tv(c@)) == Ok::<Seq<(Seq<char>, Seq<AttrV>)>, ErrV>(
                interrupts_view(v@),
            ),
            Err(e) => dispatchers_list(tv(c@)) == Err::<Seq<(Seq<char>, Seq<AttrV>)>, ErrV>(e@),
        },
{
    let ghost s = tv(c@);
    let segs = comma_segments(c);
    let ghost gs = segments(s);
    proof {
        crate::parse::cursor::lemma_segments_bounds(s, 0);
    }
    let mut k: usize = 0;
    while k < segs.len()
        invariant
            s == tv(c@),
            gs == segments(s),
            crate::parse::cursor::ranges_view(segs@) == gs,
            forall|q: int| 0 <= q < gs.len() ==> 0 <= #[trigger] gs[q].0 <= gs[q].1 <= s.len(),
            k <= segs@.len(),
            forall|q: int|
                0 <= q < k ==> #[trigger] dispatcher_parts(s.subrange(gs[q].0, gs[q].1)).1.len()
                    != 0,
        decreases segs@.len() - k,
    {
        assert(gs[k as int] == (segs@[k as int].0 as int, segs@[k as int].1 as int));
        let e = copy_range(c, segs[k].0, segs[k].1);
        let (_, rest) = read_dispatcher_parts(&e);
        if rest.len() == 0 {
            assert(dispatcher_parts(s.subrange(gs[k as int].0, gs[k as int].1)).1.len() == 0);
            assert(some_bare(s, gs));
            return Err(error_str(ErrorKind::ValueShouldBeArray, "dispatchers"));
        }
        k = k + 1;
    }
    assert(!some_bare(s, gs));
    let mut out: NameMap<ExternInterrupt> = Vec::new();
    let mut k: usize = 0;
    assert(interrupts_view(out@) =~= seq![]);
    while k < segs.len()
        invariant
            s == tv(c@),
            gs == segments(s),
            crate::parse::cursor::ranges_view(segs@) == gs,
            k <= segs@.len(),
            !some_bare(s, gs),
            forall|q: int| 0 <= q < gs.len() ==> 0 <= #[trigger] gs[q].0 <= gs[q].1 <= s.len(),
            dispatchers_from(s, gs, 0, seq![]) == dispatchers_from(
                s,
                gs,
                k as int,
                interrupts_view(out@),
            ),
        decreases segs@.len() - k,
    {
        assert(gs[k as int] == (segs@[k as int].0 as int, segs@[k as int].1 as int));
        let e = copy_range(c, segs[k].0, segs[k].1);
        let (attrs, rest) = read_dispatcher_parts(&e);
        let x = match read_whole_path(&rest) {
            None => return Err(error_here(ErrorKind::InterruptMustBeIdent)),
            Some(p) => {
                if p.leading_colon || p.segments.len() != 1 {
                    return Err(error_here(ErrorKind::InterruptMustBeIdentifier));
                }
                p.segments[0].clone()
            },
        };
        if has_entry(&out, &x, Ghost(entry_names(interrupts_view(out@)))) {
            return Err(error_at(ErrorKind::InterruptListedMoreThanOnce, &x));
        }
        let ghost before = out@;
        let ghost av = attrs_view(attrs@);
        out.push((x, ExternInterrupt { attrs }));
        proof {
            assert(interrupts_view(out@) =~= interrupts_view(before).push((x@, av)));
        }
        k = k + 1;
    }
    Ok(out)
}

// ---- argument lists ----

/// Which attribute's arguments are read
#[derive(Clone, Copy, Debug, PartialEq, Eq, Structural)]
pub enum ArgsKind {
    /// `#[app(..)]`
    App,
    /// `#[init(..)]`
    Init,
    /// `#[idle(..)]`
    Idle,
    /// `#[task(..)]`
    Task,
    /// `#[monotonic(..)]`
    Monotonic,
}

/// Does the attribute of kind `k` take an argument named `x`? (`binds` on
/// a task only where `parse_binds` is set)
pub open spec fn accepts(k: ArgsKind, parse_binds: bool, x: Seq<char>) -> bool {
    match k {
        ArgsKind::App => x == "device"@ || x == "peripherals"@ || x == "dispatchers"@,
        ArgsKind::Init => x == "late"@ || x == "resources"@,
        ArgsKind::Idle => x == "resources"@ || x == "shared"@ || x == "local"@,
        ArgsKind::Task => (x == "binds"@ && parse_binds) || x == "capacity"@ || x == "priority"@
            || x == "resources"@ || x == "shared"@ || x == "local"@,
        ArgsKind::Monotonic => x == "binds"@ || x == "priority"@ || x == "default"@,
    }
}

/// Does the attribute of kind `k` take an argument named `x`?
fn accepts_arg(k: ArgsKind, parse_binds: bool, x: &str) -> (r: bool)
    ensures
        r == accepts(k, parse_binds, x@),
{
    match k {
        ArgsKind::App => str_eq(x, "device") || str_eq(x, "peripherals") || str_eq(
            x,
            "dispatchers",
        ),
        ArgsKind::Init => str_eq(x, "late") || str_eq(x, "resources"),
        ArgsKind::Idle => str_eq(x, "resources") || str_eq(x, "shared") || str_eq(x, "local"),
        ArgsKind::Task => (str_eq(x, "binds") && parse_binds) || str_eq(x, "capacity") || str_eq(
            x,
            "priority",
        ) || str_eq(x, "resources") || str_eq(x, "shared") || str_eq(x, "local"),
        ArgsKind::Monotonic => str_eq(x, "binds") || str_eq(x, "priority") || str_eq(x, "default"),
    }
}

/// The value of the arguments read so far
pub struct ArgsV {
    /// `binds`
    pub binds: Option<Seq<char>>,
    /// `capacity`
    pub capacity: Option<u8>,
    /// `priority`
    pub priority: Option<u8>,
    /// `resources`, or `shared`
    pub resources: Option<Seq<(Seq<char>, Access)>>,
    /// `local`
    pub local: Option<Seq<(Seq<char>, TaskLocalV)>>,
    /// `late`
    pub late: Option<Seq<Seq<char>>>,
    /// `spawn`
    pub spawn: Option<Seq<Seq<char>>>,
    /// `schedule`
    pub schedule: Option<Seq<Seq<char>>>,
    /// `default`
    pub default: Option<bool>,
    /// `device`
    pub device: Option<PathV>,
    /// `peripherals`
    pub peripherals: Option<bool>,
    /// `dispatchers`
    pub dispatchers: Option<Seq<(Seq<char>, Seq<AttrV>)>>,
}

/// The arguments read so far
#[derive(Debug)]
pub struct Args {
    /// `binds`
    pub binds: Option<String>,
    /// `capacity`
    pub capacity: Option<u8>,
    /// `priority`
    pub priority: Option<u8>,
    /// `resources`, or `shared`
    pub resources: Option<Resources>,
    /// `local`
    pub local: Option<NameMap<TaskLocal>>,
    /// `late`
    pub late: Option<NameSet>,
    /// `spawn`
    pub spawn: Option<NameSet>,
    /// `schedule`
    pub schedule: Option<NameSet>,
    /// `default`
    pub default: Option<bool>,
    /// `device`
    pub device: Option<Path>,
    /// `peripherals`
    pub peripherals: Option<bool>,
    /// `dispatchers`
    pub dispatchers: Option<NameMap<ExternInterrupt>>,
}

/// The value of an optional string
pub open spec fn opt_str_view(o: Option<String>) -> Option<Seq<char>> {
    match o {
        Some(x) => Some(x@),
        None => None,
    }
}

/// The value of an optional list of names
pub open spec fn opt_names_view(o: Option<NameSet>) -> Option<Seq<Seq<char>>> {
    match o {
        Some(x) => Some(names_view(x@)),
        None => None,
    }
}

impl View for Args {
    type V = ArgsV;

    open spec fn view(&self) -> ArgsV {
        ArgsV {
            binds: opt_str_view(self.binds),
            capacity: self.capacity,
            priority: self.priority,
            resources: match self.resources {
                Some(r) => Some(resources_view(r@)),
                None => None,
            },
            local: match self.local {
                Some(l) => Some(task_locals_view(l@)),
                None => None,
            },
            late: opt_names_view(self.late),
            spawn: opt_names_view(self.spawn),
            schedule: opt_names_view(self.schedule),
            default: self.default,
            device: opt_path_view(self.device),
            peripherals: self.peripherals,
            dispatchers: match self.dispatchers {
                Some(d) => Some(interrupts_view(d@)),
                None => None,
            },
        }
    }
}

/// No argument read yet
pub open spec fn no_args() -> ArgsV {
    ArgsV {
        binds: None,
        capacity: None,
        priority: None,
        resources: None,
        local: None,
        late: None,
        spawn: None,
        schedule: None,
        default: None,
        device: None,
        peripherals: None,
        dispatchers: None,
    }
}

fn none_read() -> (r: Args)
    ensures
        r@ == no_args(),
{
    Args {
        binds: None,
        capacity: None,
        priority: None,
        resources: None,
        local: None,
        late: None,
        spawn: None,
        schedule: None,
        default: None,
        device: None,
        peripherals: None,
        dispatchers: None,
    }
}

/// The value of the argument `x`, which starts at `i`, added to `a`; and
/// where it ends
pub open spec fn arg_value(s: Seq<TokV>, i: int, x: Seq<char>, a: ArgsV) -> Result<
    (ArgsV, int),
    ErrV,
> {
    let dup = Err((ErrorKind::ArgumentAppearsMoreThanOnce, x));
    if x == "binds"@ {
        if a.binds is Some {
            dup
        } else if a.capacity is Some {
            Err((ErrorKind::HardwareTaskCapacity, x))
        } else {
            match name_at(s, i) {
                None => Err((ErrorKind::ExpectedIdent, Seq::empty())),
                Some(b) => Ok((ArgsV { binds: Some(b), ..a }, i + 1)),
            }
        }
    } else if x == "capacity"@ {
        if a.capacity is Some {
            dup
        } else if a.binds is Some {
            Err((ErrorKind::HardwareTaskCapacity, x))
        } else {
            match int_at(s, i) {
                Err(e) => Err(e),
                Ok((v, j)) => Ok((ArgsV { capacity: Some(v), ..a }, j)),
            }
        }
    } else if x == "priority"@ {
        if a.priority is Some {
            dup
        } else {
            match int_at(s, i) {
                Err(e) => Err(e),
                Ok((v, j)) => Ok((ArgsV { priority: Some(v), ..a }, j)),
            }
        }
    } else if x == "resources"@ || x == "shared"@ {
        if a.resources is Some {
            dup
        } else {
            match group_at(s, i, Delim::Bracket) {
                None => Err((ErrorKind::ExpectedBrackets, Seq::empty())),
                Some(c) => match resources_list(c) {
                    Err(e) => Err(e),
                    Ok(r) => Ok((ArgsV { resources: Some(r), ..a }, i + 1)),
                },
            }
        }
    } else if x == "late"@ || x == "spawn"@ || x == "schedule"@ {
        let seen = if x == "late"@ {
            a.late
        } else if x == "spawn"@ {
            a.spawn
        } else {
            a.schedule
        };
        if seen is Some {
            dup
        } else {
            match group_at(s, i, Delim::Bracket) {
                None => Err((ErrorKind::ExpectedBrackets, Seq::empty())),
                Some(c) => match names_list(c) {
                    Err(e) => Err(e),
                    Ok(v) => Ok(
                        (
                            if x == "late"@ {
                                ArgsV { late: Some(v), ..a }
                            } else if x == "spawn"@ {
                                ArgsV { spawn: Some(v), ..a }
                            } else {
                                ArgsV { schedule: Some(v), ..a }
                            },
                            i + 1,
                        ),
                    ),
                },
            }
        }
    } else if x == "default"@ {
        if a.default is Some {
            dup
        } else {
            match bool_at(s, i) {
                None => Err((ErrorKind::ExpectedBoolLiteral, Seq::empty())),
                Some(b) => Ok((ArgsV { default: Some(b), ..a }, i + 1)),
            }
        }
    } else if x == "device"@ {
        if a.device is Some {
            dup
        } else {
            match path_at(s, i) {
                None => Err((ErrorKind::ValueShouldBePath, x)),
                Some((p, j)) => Ok((ArgsV { device: Some(p), ..a }, j)),
            }
        }
    } else if x == "peripherals"@ {
        if a.peripherals is Some {
            dup
        } else {
            match bool_at(s, i) {
                None => Err((ErrorKind::ValueShouldBeBool, x)),
                Some(b) => Ok((ArgsV { peripherals: Some(b), ..a }, i + 1)),
            }
        }
    } else if x == "local"@ {
        if a.local is Some {
            dup
        } else {
            match group_at(s, i, Delim::Bracket) {
                None => Err((ErrorKind::ExpectedBrackets, Seq::empty())),
                Some(c) => match locals_list(c) {
                    Err(e) => Err(e),
                    Ok(l) => Ok((ArgsV { local: Some(l), ..a }, i + 1)),
                },
            }
        }
    } else {
        if a.dispatchers is Some {
            dup
        } else {
            match group_at(s, i, Delim::Bracket) {
                None => Err((ErrorKind::ValueShouldBeArray, x)),
                Some(c) => match dispatchers_list(c) {
                    Err(e) => Err(e),
                    Ok(d) => Ok((ArgsV { dispatchers: Some(d), ..a }, i + 1)),
                },
            }
        }
    }
}

/// A value ends after it starts
pub proof fn lemma_arg_value(s: Seq<TokV>, i: int, x: Seq<char>, a: ArgsV)
    requires
        0 <= i,
    ensures
        arg_value(s, i, x, a) matches Ok((_, j)) ==> i < j <= s.len(),
{
    crate::parse::cursor::lemma_path_at(s, i);
}

/// The arguments from `i` on, after those read so far (`a`)
pub open spec fn args_from(s: Seq<TokV>, i: int, k: ArgsKind, parse_binds: bool, a: ArgsV) -> Result<
    ArgsV,
    ErrV,
>
    decreases s.len() - i,
{
    if i < 0 || i >= s.len() {
        Ok(a)
    } else {
        match name_at(s, i) {
            None => Err((ErrorKind::ExpectedIdent, Seq::empty())),
            Some(x) => if !punct_at(s, i + 1, '=') {
                Err((ErrorKind::ExpectedEq, Seq::empty()))
            } else if !accepts(k, parse_binds, x) {
                Err((ErrorKind::UnexpectedArgument, x))
            } else {
                match arg_value(s, i + 2, x, a) {
                    Err(e) => Err(e),
                    Ok((b, j)) => {
                        proof {
                            lemma_arg_value(s, i + 2, x, a);
                        }
                        if j >= s.len() {
                            Ok(b)
                        } else if !punct_at(s, j, ',') {
                            Err((ErrorKind::ExpectedComma, Seq::empty()))
                        } else {
                            args_from(s, j + 1, k, parse_binds, b)
                        }
                    },
                }
            },
        }
    }
}

/// Reads the value of the argument `x` at `i`
fn read_arg_value(ts: &Vec<Tok>, i: usize, x: &String, a: Args) -> (r: Result<(Args, usize), Error>)
    ensures
        match r {
            Ok((b, j)) => arg_value(tv(ts@), i as int, x@, a@) == Ok::<(ArgsV, int), ErrV>(
                (b@, j as int),
            ),
            Err(e) => arg_value(tv(ts@), i as int, x@, a@) == Err::<(ArgsV, int), ErrV>(e@),
        },
{
    let ghost s = tv(ts@);
    let ghost av = a@;
    let mut a = a;
    let n = ts.len();
    if str_eq(x.as_str(), "binds") {
        if a.binds.is_some() {
            return Err(error_at(ErrorKind::ArgumentAppearsMoreThanOnce, x));
        }
        if a.capacity.is_some() {
            return Err(error_at(ErrorKind::HardwareTaskCapacity, x));
        }
        match read_name(ts, i) {
            None => Err(error_here(ErrorKind::ExpectedIdent)),
            Some(b) => {
                a.binds = Some(b);
                Ok((a, i + 1))
            },
        }
    } else if str_eq(x.as_str(), "capacity") {
        if a.capacity.is_some() {
            return Err(error_at(ErrorKind::ArgumentAppearsMoreThanOnce, x));
        }
        if a.binds.is_some() {
            return Err(error_at(ErrorKind::HardwareTaskCapacity, x));
        }
        match read_int(ts, i) {
            Err(e) => Err(e),
            Ok((v, j)) => {
                a.capacity = Some(v);
                Ok((a, j))
            },
        }
    } else if str_eq(x.as_str(), "priority") {
        if a.priority.is_some() {
            return Err(error_at(ErrorKind::ArgumentAppearsMoreThanOnce, x));
        }
        match read_int(ts, i) {
            Err(e) => Err(e),
            Ok((v, j)) => {
                a.priority = Some(v);
                Ok((a, j))
            },
        }
    } else if str_eq(x.as_str(), "resources") || str_eq(x.as_str(), "shared") {
        if a.resources.is_some() {
            return Err(error_at(ErrorKind::ArgumentAppearsMoreThanOnce, x));
        }
        match read_group(ts, i, Delim::Bracket) {
            None => Err(error_here(ErrorKind::ExpectedBrackets)),
            Some(c) => match parse_shared_resources(c) {
                Err(e) => Err(e),
                Ok(r) => {
                    a.resources = Some(r);
                    Ok((a, i + 1))
                },
            },
        }
    } else if str_eq(x.as_str(), "late") || str_eq(x.as_str(), "spawn") || str_eq(
        x.as_str(),
        "schedule",
    ) {
        let is_late = str_eq(x.as_str(), "late");
        let is_spawn = str_eq(x.as_str(), "spawn");
        let seen = if is_late {
            a.late.is_some()
        } else if is_spawn {
            a.spawn.is_some()
        } else {
            a.schedule.is_some()
        };
        if seen {
            return Err(error_at(ErrorKind::ArgumentAppearsMoreThanOnce, x));
        }
        match read_group(ts, i, Delim::Bracket) {
            None => Err(error_here(ErrorKind::ExpectedBrackets)),
            Some(c) => match parse_idents(c) {
                Err(e) => Err(e),
                Ok(v) => {
                    if is_late {
                        a.late = Some(v);
                    } else if is_spawn {
                        a.spawn = Some(v);
                    } else {
                        a.schedule = Some(v);
                    }
                    Ok((a, i + 1))
                },
            },
        }
    } else if str_eq(x.as_str(), "default") {
        if a.default.is_some() {
            return Err(error_at(ErrorKind::ArgumentAppearsMoreThanOnce, x));
        }
        if is_word_at(ts, i, "true") {
            a.default = Some(true);
            Ok((a, i + 1))
        } else if is_word_at(ts, i, "false") {
            a.default = Some(false);
            Ok((a, i + 1))
        } else {
            Err(error_here(ErrorKind::ExpectedBoolLiteral))
        }
    } else if str_eq(x.as_str(), "device") {
        if a.device.is_some() {
            return Err(error_at(ErrorKind::ArgumentAppearsMoreThanOnce, x));
        }
        match read_path(ts, i) {
            None => Err(error_at(ErrorKind::ValueShouldBePath, x)),
            Some((p, j)) => {
                a.device = Some(p);
                Ok((a, j))
            },
        }
    } else if str_eq(x.as_str(), "peripherals") {
        if a.peripherals.is_some() {
            return Err(error_at(ErrorKind::ArgumentAppearsMoreThanOnce, x));
        }
        if is_word_at(ts, i, "true") {
            a.peripherals = Some(true);
            Ok((a, i + 1))
        } else if is_word_at(ts, i, "false") {
            a.peripherals = Some(false);
            Ok((a, i + 1))
        } else {
            Err(error_at(ErrorKind::ValueShouldBeBool, x))
        }
    } else if str_eq(x.as_str(), "local") {
        if a.local.is_some() {
            return Err(error_at(ErrorKind::ArgumentAppearsMoreThanOnce, x));
        }
        match read_group(ts, i, Delim::Bracket) {
            None => Err(error_here(ErrorKind::ExpectedBrackets)),
            Some(c) => match parse_local_resources(c) {
                Err(e) => Err(e),
                Ok(l) => {
                    a.local = Some(l);
                    Ok((a, i + 1))
                },
            },
        }
    } else {
        if a.dispatchers.is_some() {
            return Err(error_at(ErrorKind::ArgumentAppearsMoreThanOnce, x));
        }
        match read_group(ts, i, Delim::Bracket) {
            None => Err(error_at(ErrorKind::ValueShouldBeArray, x)),
            Some(c) => match read_dispatchers(c) {
                Err(e) => Err(e),
                Ok(d) => {
                    a.dispatchers = Some(d);
                    Ok((a, i + 1))
                },
            },
        }
    }
}

/// Reads a list of arguments
pub fn read_args(ts: &Vec<Tok>, k: ArgsKind, parse_binds: bool) -> (r: Result<Args, Error>)
    ensures
        res_view(r) == args_from(tv(ts@), 0, k, parse_binds, no_args()),
{
    let ghost s = tv(ts@);
    let n = ts.len();
    let mut a = none_read();
    let mut i: usize = 0;
    while i < n
        invariant
            s == tv(ts@),
            n == ts@.len(),
            i <= n,
            args_from(s, 0, k, parse_binds, no_args()) == args_from(s, i as int, k, parse_binds, a@),
        decreases n - i,
    {
        let x = match read_name(ts, i) {
            None => return Err(error_here(ErrorKind::ExpectedIdent)),
            Some(x) => x,
        };
        if !is_punct_at(ts, i + 1, '=') {
            return Err(error_here(ErrorKind::ExpectedEq));
        }
        if !accepts_arg(k, parse_binds, x.as_str()) {
            return Err(error_at(ErrorKind::UnexpectedArgument, &x));
        }
        let ghost before = a@;
        let (b, j) = match read_arg_value(ts, i + 2, &x, a) {
            Err(e) => return Err(e),
            Ok(v) => v,
        };
        proof {
            lemma_arg_value(s, i + 2, x@, before);
        }
        a = b;
        if j >= n {
            return Ok(a);
        }
        if !is_punct_at(ts, j, ',') {
            return Err(error_here(ErrorKind::ExpectedComma));
        }
        i = j + 1;
    }
    Ok(a)
}

// ---- the attributes ----

/// The arguments inside the parentheses that `s` must be: `( .. )`, and
/// nothing after them
pub open spec fn paren_args(s: Seq<TokV>, k: ArgsKind, parse_binds: bool) -> Result<ArgsV, ErrV> {
    match group_at(s, 0, Delim::Parenthesis) {
        None => Err((ErrorKind::ExpectedParens, Seq::empty())),
        Some(c) => match args_from(c, 0, k, parse_binds, no_args()) {
            Err(e) => Err(e),
            Ok(a) => if s.len() > 1 {
                Err((ErrorKind::UnexpectedToken, Seq::empty()))
            } else {
                with_local_accesses(a)
            },
        },
    }
}

/// `res` with the locals `l[k..]` that are declared elsewhere added, each
/// an exclusive access; a name already there is refused
pub open spec fn add_externals(
    res: Seq<(Seq<char>, Access)>,
    l: Seq<(Seq<char>, TaskLocalV)>,
    k: int,
) -> Result<Seq<(Seq<char>, Access)>, ErrV>
    decreases l.len() - k,
{
    if k < 0 || k >= l.len() {
        Ok(res)
    } else if l[k].1 is External {
        if entry_names(res).contains(l[k].0) {
            Err((ErrorKind::ResourceAppearsMoreThanOnce, l[k].0))
        } else {
            add_externals(res.push((l[k].0, Access::Exclusive)), l, k + 1)
        }
    } else {
        add_externals(res, l, k + 1)
    }
}

/// The arguments with the resources that the `local` list names (declared
/// elsewhere) added to those the context accesses, after the others
pub open spec fn with_local_accesses(a: ArgsV) -> Result<ArgsV, ErrV> {
    match a.local {
        None => Ok(a),
        Some(l) => match add_externals(or_else(a.resources, seq![]), l, 0) {
            Err(e) => Err(e),
            Ok(r) => Ok(ArgsV { resources: Some(r), ..a }),
        },
    }
}

/// Adds the resources that the `local` list names to those the context accesses
fn add_local_accesses(a: Args) -> (r: Result<Args, Error>)
    ensures
        res_view(r) == with_local_accesses(a@),
{
    let ghost av = a@;
    let mut args = a;
    let l = match args.local {
        None => return Ok(args),
        Some(l) => l,
    };
    let mut res = match args.resources {
        Some(r) => r,
        None => Vec::new(),
    };
    let ghost lv = task_locals_view(l@);
    assert(resources_view(res@) =~= or_else(av.resources, seq![]));
    let mut k: usize = 0;
    while k < l.len()
        invariant
            lv == task_locals_view(l@),
            av == a@,
            av.local == Some(lv),
            k <= l@.len(),
            add_externals(or_else(av.resources, seq![]), lv, 0) == add_externals(
                resources_view(res@),
                lv,
                k as int,
            ),
        decreases l@.len() - k,
    {
        assert(lv[k as int] == (l@[k as int].0@, l@[k as int].1@));
        match &l[k].1 {
            TaskLocal::External => {
                let x = l[k].0.clone();
                assert(lv[k as int].1 is External);
                if has_entry(&res, &x, Ghost(entry_names(resources_view(res@)))) {
                    assert(add_externals(resources_view(res@), lv, k as int) == Err::<
                        Seq<(Seq<char>, Access)>,
                        ErrV,
                    >((ErrorKind::ResourceAppearsMoreThanOnce, x@)));
                    return Err(error_at(ErrorKind::ResourceAppearsMoreThanOnce, &x));
                }
                let ghost before = res@;
                res.push((x, Access::Exclusive));
                assert(resources_view(res@) =~= resources_view(before).push((x@, Access::Exclusive)));
            },
            TaskLocal::Declared(_) => {
                assert(!(lv[k as int].1 is External));
            },
        }
        k = k + 1;
    }
    args.resources = Some(res);
    args.local = Some(l);
    Ok(args)
}

/// Reads the arguments inside the parentheses that `ts` must be
fn read_paren_args(ts: &Vec<Tok>, k: ArgsKind, parse_binds: bool) -> (r: Result<Args, Error>)
    ensures
        res_view(r) == paren_args(tv(ts@), k, parse_binds),
{
    match read_group(ts, 0, Delim::Parenthesis) {
        None => Err(error_here(ErrorKind::ExpectedParens)),
        Some(c) => match read_args(c, k, parse_binds) {
            Err(e) => Err(e),
            Ok(a) => if ts.len() > 1 {
                Err(error_here(ErrorKind::UnexpectedToken))
            } else {
                add_local_accesses(a)
            },
        },
    }
}

/// `o`'s value, or `d` where there is none
pub open spec fn or_else<T>(o: Option<T>, d: T) -> T {
    match o {
        Some(v) => v,
        None => d,
    }
}

/// The metadata of a task: hardware where it binds an interrupt
#[derive(Debug)]
pub enum TaskArgs {
    /// `#[task(binds = ..)]`
    Hardware(HardwareTaskArgs),
    /// `#[task]`
    Software(SoftwareTaskArgs),
}

/// The value of a task's metadata
pub enum TaskArgsV {
    /// hardware task
    Hardware(HardwareTaskArgsV),
    /// software task
    Software(SoftwareTaskArgsV),
}

impl View for TaskArgs {
    type V = TaskArgsV;

    open spec fn view(&self) -> TaskArgsV {
        match self {
            TaskArgs::Hardware(a) => TaskArgsV::Hardware(a@),
            TaskArgs::Software(a) => TaskArgsV::Software(a@),
        }
    }
}

/// A task's metadata from its arguments: priority 1, capacity 1 and no
/// resources, spawns or schedules unless given
pub open spec fn task_of(a: ArgsV) -> TaskArgsV {
    match a.binds {
        Some(b) => TaskArgsV::Hardware(
            HardwareTaskArgsV {
                core: 0,
                binds: b,
                priority: or_else(a.priority, 1),
                resources: or_else(a.resources, seq![]),
                local_resources: or_else(a.local, seq![]),
                spawn: or_else(a.spawn, seq![]),
                schedule: or_else(a.schedule, seq![]),
            },
        ),
        None => TaskArgsV::Software(
            SoftwareTaskArgsV {
                core: 0,
                capacity: or_else(a.capacity, 1),
                priority: or_else(a.priority, 1),
                resources: or_else(a.resources, seq![]),
                local_resources: or_else(a.local, seq![]),
                spawn: or_else(a.spawn, seq![]),
                schedule: or_else(a.schedule, seq![]),
            },
        ),
    }
}

/// The metadata of `#[task]` whose tokens after the path are `s`
pub open spec fn task_args_spec(s: Seq<TokV>, parse_binds: bool) -> Result<TaskArgsV, ErrV> {
    if s.len() == 0 {
        Ok(task_of(no_args()))
    } else {
        match paren_args(s, ArgsKind::Task, parse_binds) {
            Err(e) => Err(e),
            Ok(a) => Ok(task_of(a)),
        }
    }
}

fn take_or_empty<T>(o: Option<Vec<T>>) -> (r: Vec<T>)
    ensures
        o matches Some(v) ==> r == v,
        o is None ==> r@.len() == 0,
{
    match o {
        Some(v) => v,
        None => Vec::new(),
    }
}

fn task_from(a: Args) -> (r: TaskArgs)
    ensures
        r@ == task_of(a@),
{
    let ghost av = a@;
    let resources = take_or_empty(a.resources);
    let local_resources = take_or_empty(a.local);
    let spawn = take_or_empty(a.spawn);
    let schedule = take_or_empty(a.schedule);
    let priority = match a.priority {
        Some(p) => p,
        None => 1,
    };
    proof {
        assert(resources_view(resources@) =~= or_else(av.resources, seq![]));
        assert(task_locals_view(local_resources@) =~= or_else(av.local, seq![]));
        assert(names_view(spawn@) =~= or_else(av.spawn, seq![]));
        assert(names_view(schedule@) =~= or_else(av.schedule, seq![]));
    }
    match a.binds {
        Some(b) => TaskArgs::Hardware(
            HardwareTaskArgs { core: 0, binds: b, priority, resources, local_resources, spawn, schedule },
        ),
        None => TaskArgs::Software(
            SoftwareTaskArgs {
                core: 0,
                capacity: match a.capacity {
                    Some(c) => c,
                    None => 1,
                },
                priority,
                resources,
                local_resources,
                spawn,
                schedule,
            },
        ),
    }
}

/// The priority of a task's metadata
pub open spec fn task_priority(t: TaskArgsV) -> u8 {
    match t {
        TaskArgsV::Hardware(h) => h.priority,
        TaskArgsV::Software(w) => w.priority,
    }
}

/// Does the parenthesized argument list `s` hold the identifier `key`?
pub open spec fn names_arg(s: Seq<TokV>, key: Seq<char>) -> bool {
    s.len() > 0 && s[0] is Group && exists|j: int|
        0 <= j < s[0]->Group_1.len() && s[0]->Group_1[j] == TokV::Ident(key)
}

/// Reading arguments gives a priority of at least 1, and leaves the
/// priority as it was where no `priority` is among the tokens read
proof fn lemma_args_priority(s: Seq<TokV>, i: int, k: ArgsKind, parse_binds: bool, a: ArgsV)
    requires
        0 <= i,
        a.priority is None || a.priority->Some_0 >= 1,
    ensures
        args_from(s, i, k, parse_binds, a) matches Ok(b) ==> (b.priority is None
            || b.priority->Some_0 >= 1) && ((forall|j: int|
            i <= j < s.len() ==> s[j] != TokV::Ident("priority"@)) ==> b.priority == a.priority),
    decreases s.len() - i,
{
    if i < s.len() {
        if let Some(x) = name_at(s, i) {
            if punct_at(s, i + 1, '=') && accepts(k, parse_binds, x) {
                lemma_arg_value(s, i + 2, x, a);
                if let Ok((b, j)) = arg_value(s, i + 2, x, a) {
                    if x == "priority"@ {
                        assert(s[i] == TokV::Ident("priority"@));
                    } else {
                        assert(b.priority == a.priority);
                    }
                    if j < s.len() && punct_at(s, j, ',') {
                        lemma_args_priority(s, j + 1, k, parse_binds, b);
                    }
                }
            }
        }
    }
}

/// Law: every task gets a priority of at least 1 (0 is `idle`'s), and a
/// task whose arguments give no `priority` gets priority 1, whether it
/// binds an interrupt or not
pub proof fn law_task_priority(s: Seq<TokV>, parse_binds: bool)
    ensures
        task_args_spec(s, parse_binds) matches Ok(t) ==> task_priority(t) >= 1,
        task_args_spec(s, parse_binds) matches Ok(t) ==> (!names_arg(s, "priority"@)
            ==> task_priority(t) == 1),
{
    if s.len() > 0 {
        if let Some(c) = group_at(s, 0, Delim::Parenthesis) {
            lemma_args_priority(c, 0, ArgsKind::Task, parse_binds, no_args());
        }
    }
}

/// Parses the arguments of `#[task]`: `tokens` are those after the
/// attribute's path (empty, or one parenthesized list)
pub fn task_args(tokens: &Tokens, settings: &Settings) -> (r: Result<TaskArgs, Error>)
    ensures
        res_view(r) == task_args_spec(tv(tokens@), settings.parse_binds),
{
    if tokens.len() == 0 {
        Ok(task_from(none_read()))
    } else {
        match read_paren_args(tokens, ArgsKind::Task, settings.parse_binds) {
            Err(e) => Err(e),
            Ok(a) => Ok(task_from(a)),
        }
    }
}

/// `init`'s metadata from its arguments
pub open spec fn init_of(a: ArgsV) -> InitArgsV {
    InitArgsV {
        core: 0,
        late: or_else(a.late, seq![]),
        resources: or_else(a.resources, seq![]),
        local_resources: or_else(a.local, seq![]),
        spawn: or_else(a.spawn, seq![]),
        schedule: or_else(a.schedule, seq![]),
    }
}

/// The metadata of `#[init]` whose tokens after the path are `s`
pub open spec fn init_args_spec(s: Seq<TokV>) -> Result<InitArgsV, ErrV> {
    if s.len() == 0 {
        Ok(init_of(no_args()))
    } else {
        match paren_args(s, ArgsKind::Init, false) {
            Err(e) => Err(e),
            Ok(a) => Ok(init_of(a)),
        }
    }
}

fn init_from(a: Args) -> (r: InitArgs)
    ensures
        r@ == init_of(a@),
{
    let ghost av = a@;
    let late = take_or_empty(a.late);
    let resources = take_or_empty(a.resources);
    let local_resources = take_or_empty(a.local);
    let spawn = take_or_empty(a.spawn);
    let schedule = take_or_empty(a.schedule);
    proof {
        assert(names_view(late@) =~= or_else(av.late, seq![]));
        assert(resources_view(resources@) =~= or_else(av.resources, seq![]));
        assert(task_locals_view(local_resources@) =~= or_else(av.local, seq![]));
        assert(names_view(spawn@) =~= or_else(av.spawn, seq![]));
        assert(names_view(schedule@) =~= or_else(av.schedule, seq![]));
    }
    InitArgs { core: 0, late, resources, local_resources, spawn, schedule }
}

/// Parses the arguments of `#[init]`: `tokens` are those after the
/// attribute's path
pub fn init_idle_args(tokens: &Tokens) -> (r: Result<InitArgs, Error>)
    ensures
        res_view(r) == init_args_spec(tv(tokens@)),
{
    if tokens.len() == 0 {
        Ok(init_from(none_read()))
    } else {
        match read_paren_args(tokens, ArgsKind::Init, false) {
            Err(e) => Err(e),
            Ok(a) => Ok(init_from(a)),
        }
    }
}

/// `idle`'s metadata from its arguments
pub open spec fn idle_of(a: ArgsV) -> IdleArgsV {
    IdleArgsV {
        core: 0,
        resources: or_else(a.resources, seq![]),
        local_resources: or_else(a.local, seq![]),
        spawn: or_else(a.spawn, seq![]),
        schedule: or_else(a.schedule, seq![]),
    }
}

/// The metadata of `#[idle]` whose tokens after the path are `s`
pub open spec fn idle_args_spec(s: Seq<TokV>) -> Result<IdleArgsV, ErrV> {
    if s.len() == 0 {
        Ok(idle_of(no_args()))
    } else {
        match paren_args(s, ArgsKind::Idle, false) {
            Err(e) => Err(e),
            Ok(a) => Ok(idle_of(a)),
        }
    }
}

fn idle_from(a: Args) -> (r: IdleArgs)
    ensures
        r@ == idle_of(a@),
{
    let ghost av = a@;
    let resources = take_or_empty(a.resources);
    let local_resources = take_or_empty(a.local);
    let spawn = take_or_empty(a.spawn);
    let schedule = take_or_empty(a.schedule);
    proof {
        assert(resources_view(resources@) =~= or_else(av.resources, seq![]));
        assert(task_locals_view(local_resources@) =~= or_else(av.local, seq![]));
        assert(names_view(spawn@) =~= or_else(av.spawn, seq![]));
        assert(names_view(schedule@) =~= or_else(av.schedule, seq![]));
    }
    IdleArgs { core: 0, resources, local_resources, spawn, schedule }
}

/// Parses the arguments of `#[idle]`: `tokens` are those after the
/// attribute's path
pub fn idle_args(tokens: &Tokens) -> (r: Result<IdleArgs, Error>)
    ensures
        res_view(r) == idle_args_spec(tv(tokens@)),
{
    if tokens.len() == 0 {
        Ok(idle_from(none_read()))
    } else {
        match read_paren_args(tokens, ArgsKind::Idle, false) {
            Err(e) => Err(e),
            Ok(a) => Ok(idle_from(a)),
        }
    }
}

/// The arguments of `#[monotonic(..)]` whose tokens after the path are `s`:
/// `binds` is required; priority 1 and not the default unless given
pub open spec fn monotonic_args_spec(s: Seq<TokV>) -> Result<MonotonicArgsV, ErrV> {
    match paren_args(s, ArgsKind::Monotonic, false) {
        Err(e) => Err(e),
        Ok(a) => match a.binds {
            None => Err((ErrorKind::BindsMissing, Seq::empty())),
            Some(b) => Ok(
                MonotonicArgsV {
                    binds: b,
                    priority: or_else(a.priority, 1),
                    default: or_else(a.default, false),
                },
            ),
        },
    }
}

/// Parses the arguments of `#[monotonic(..)]`: `tokens` are those after the
/// attribute's path
pub fn monotonic_args(tokens: &Tokens) -> (r: Result<MonotonicArgs, Error>)
    ensures
        res_view(r) == monotonic_args_spec(tv(tokens@)),
{
    let a = match read_paren_args(tokens, ArgsKind::Monotonic, false) {
        Err(e) => return Err(e),
        Ok(a) => a,
    };
    match a.binds {
        None => Err(error_here(ErrorKind::BindsMissing)),
        Some(b) => Ok(
            MonotonicArgs {
                binds: b,
                priority: match a.priority {
                    Some(p) => p,
                    None => 1,
                },
                default: match a.default {
                    Some(d) => d,
                    None => false,
                },
            },
        ),
    }
}

/// The arguments of `#[app(..)]`, whose tokens inside the parentheses are
/// `s`: one core; peripherals taken unless `peripherals = false`
pub open spec fn app_args_spec(s: Seq<TokV>) -> Result<AppArgsV, ErrV> {
    match args_from(s, 0, ArgsKind::App, false, no_args()) {
        Err(e) => Err(e),
        Ok(a) => Ok(
            AppArgsV {
                cores: 1,
                device: a.device,
                peripherals: or_else(a.peripherals, true),
                extern_interrupts: or_else(a.dispatchers, seq![]),
            },
        ),
    }
}

/// Parses the arguments of `#[app(..)]`, given as tokens
pub fn app_args(tokens: &Tokens) -> (r: Result<AppArgs, Error>)
    ensures
        res_view(r) == app_args_spec(tv(tokens@)),
{
    let a = match read_args(tokens, ArgsKind::App, false) {
        Err(e) => return Err(e),
        Ok(a) => a,
    };
    let ghost av = a@;
    let extern_interrupts = take_or_empty(a.dispatchers);
    proof {
        assert(interrupts_view(extern_interrupts@) =~= or_else(av.dispatchers, seq![]));
    }
    Ok(
        AppArgs {
            cores: 1,
            device: a.device,
            peripherals: match a.peripherals {
                Some(p) => p,
                None => true,
            },
            extern_interrupts,
        },
    )
}

impl AppArgs {
    /// Parses the arguments of `#[app(..)]`, given as the token stream
    /// inside the parentheses
    pub fn parse(tokens: proc_macro2::TokenStream) -> (r: Result<AppArgs, Error>)
        ensures
            res_view(r) == app_args_spec(stream_trees(tokens)),
    {
        let ts = tokens_of(&tokens);
        app_args(&ts)
    }
}

} // verus!
