//! Reading single tokens, paths, attributes and comma-separated lists

use vstd::prelude::*;

use crate::ast::{AttrV, Attribute, Path, PathV};
use crate::tokens::{
    copy_range, is_punct, lemma_tv_index, lemma_tv_len, str_eq, tv, Delim, Tok, TokV,
};

verus! {

broadcast use lemma_tv_len, lemma_tv_index;

/// The words that the parser does not take as identifiers
pub open spec fn keyword(s: Seq<char>) -> bool {
    ||| s == "_"@ ||| s == "abstract"@ ||| s == "as"@ ||| s == "become"@ ||| s == "box"@
    ||| s == "break"@ ||| s == "const"@ ||| s == "continue"@ ||| s == "crate"@ ||| s == "do"@
    ||| s == "else"@ ||| s == "enum"@ ||| s == "extern"@ ||| s == "false"@ ||| s == "final"@
    ||| s == "fn"@ ||| s == "for"@ ||| s == "if"@ ||| s == "impl"@ ||| s == "in"@
    ||| s == "let"@ ||| s == "loop"@ ||| s == "macro"@ ||| s == "match"@ ||| s == "mod"@
    ||| s == "move"@ ||| s == "mut"@ ||| s == "override"@ ||| s == "priv"@ ||| s == "pub"@
    ||| s == "ref"@ ||| s == "return"@ ||| s == "Self"@ ||| s == "self"@ ||| s == "static"@
    ||| s == "struct"@ ||| s == "super"@ ||| s == "trait"@ ||| s == "true"@ ||| s == "type"@
    ||| s == "typeof"@ ||| s == "unsafe"@ ||| s == "unsized"@ ||| s == "use"@
    ||| s == "virtual"@ ||| s == "where"@ ||| s == "while"@ ||| s == "yield"@
}

/// The keywords that may start or make up a path segment
pub open spec fn path_keyword(s: Seq<char>) -> bool {
    s == "self"@ || s == "super"@ || s == "Self"@ || s == "crate"@
}

/// Is `s` a keyword?
pub fn is_keyword(s: &str) -> (r: bool)
    ensures
        r == keyword(s@),
{
    str_eq(s, "_") || str_eq(s, "abstract") || str_eq(s, "as") || str_eq(s, "become")
        || str_eq(s, "box") || str_eq(s, "break") || str_eq(s, "const") || str_eq(s, "continue")
        || str_eq(s, "crate") || str_eq(s, "do") || str_eq(s, "else") || str_eq(s, "enum")
        || str_eq(s, "extern") || str_eq(s, "false") || str_eq(s, "final") || str_eq(s, "fn")
        || str_eq(s, "for") || str_eq(s, "if") || str_eq(s, "impl") || str_eq(s, "in")
        || str_eq(s, "let") || str_eq(s, "loop") || str_eq(s, "macro") || str_eq(s, "match")
        || str_eq(s, "mod") || str_eq(s, "move") || str_eq(s, "mut") || str_eq(s, "override")
        || str_eq(s, "priv") || str_eq(s, "pub") || str_eq(s, "ref") || str_eq(s, "return")
        || str_eq(s, "Self") || str_eq(s, "self") || str_eq(s, "static") || str_eq(s, "struct")
        || str_eq(s, "super") || str_eq(s, "trait") || str_eq(s, "true") || str_eq(s, "type")
        || str_eq(s, "typeof") || str_eq(s, "unsafe") || str_eq(s, "unsized") || str_eq(s, "use")
        || str_eq(s, "virtual") || str_eq(s, "where") || str_eq(s, "while") || str_eq(s, "yield")
}

/// Is `s` one of the keywords that may make up a path segment?
pub fn is_path_keyword(s: &str) -> (r: bool)
    ensures
        r == path_keyword(s@),
{
    str_eq(s, "self") || str_eq(s, "super") || str_eq(s, "Self") || str_eq(s, "crate")
}

/// The identifier at `i`, if the token there is an identifier that is not a keyword
pub open spec fn name_at(s: Seq<TokV>, i: int) -> Option<Seq<char>> {
    if 0 <= i < s.len() && s[i] is Ident && !keyword(s[i]->Ident_0) {
        Some(s[i]->Ident_0)
    } else {
        None
    }
}

/// The path segment at `i`: an identifier, or one of the keywords of paths
pub open spec fn segment_at(s: Seq<TokV>, i: int) -> Option<Seq<char>> {
    if 0 <= i < s.len() && s[i] is Ident && (!keyword(s[i]->Ident_0) || path_keyword(
        s[i]->Ident_0,
    )) {
        Some(s[i]->Ident_0)
    } else {
        None
    }
}

/// Is the token at `i` the punctuation `c`?
pub open spec fn punct_at(s: Seq<TokV>, i: int, c: char) -> bool {
    0 <= i < s.len() && is_punct(s[i], c)
}

/// Is the token at `i` the identifier `name`?
pub open spec fn word_at(s: Seq<TokV>, i: int, name: Seq<char>) -> bool {
    0 <= i < s.len() && s[i] == TokV::Ident(name)
}

/// Do the tokens at `i` and `i + 1` make up `::`?
pub open spec fn colon2_at(s: Seq<TokV>, i: int) -> bool {
    0 <= i && i + 1 < s.len() && s[i] == TokV::Punct(':', true) && is_punct(s[i + 1], ':')
}

/// The contents of the group at `i`, if the token there is a group with delimiter `d`
pub open spec fn group_at(s: Seq<TokV>, i: int, d: Delim) -> Option<Seq<TokV>> {
    if 0 <= i < s.len() && s[i] is Group && s[i]->Group_0 == d {
        Some(s[i]->Group_1)
    } else {
        None
    }
}

/// The rest of a path after its segments so far (`p`), from `j`: each `::`
/// must be followed by a segment
pub open spec fn path_rest(s: Seq<TokV>, j: int, p: PathV) -> Option<(PathV, int)>
    decreases s.len() - j,
{
    if j < 0 || !colon2_at(s, j) {
        Some((p, j))
    } else {
        match segment_at(s, j + 2) {
            None => None,
            Some(x) => path_rest(s, j + 3, PathV { segments: p.segments.push(x), ..p }),
        }
    }
}

/// The path that starts at `i` (`a::b`, `::a`), and where it ends
pub open spec fn path_at(s: Seq<TokV>, i: int) -> Option<(PathV, int)> {
    let lead = colon2_at(s, i);
    let j = if lead {
        i + 2
    } else {
        i
    };
    match segment_at(s, j) {
        None => None,
        Some(x) => path_rest(s, j + 1, PathV { leading_colon: lead, segments: seq![x] }),
    }
}

/// A path ends after it starts, within the tokens
pub proof fn lemma_path_at(s: Seq<TokV>, i: int)
    requires
        0 <= i,
    ensures
        path_at(s, i) matches Some((_, k)) ==> i < k <= s.len(),
{
    let lead = colon2_at(s, i);
    let j = if lead {
        i + 2
    } else {
        i
    };
    if let Some(x) = segment_at(s, j) {
        lemma_path_rest(s, j + 1, PathV { leading_colon: lead, segments: seq![x] });
    }
}

/// The rest of a path ends where it starts or later, within the tokens
pub proof fn lemma_path_rest(s: Seq<TokV>, j: int, p: PathV)
    requires
        0 <= j <= s.len(),
    ensures
        path_rest(s, j, p) matches Some((_, k)) ==> j <= k <= s.len(),
    decreases s.len() - j,
{
    if colon2_at(s, j) {
        if let Some(x) = segment_at(s, j + 2) {
            lemma_path_rest(s, j + 3, PathV { segments: p.segments.push(x), ..p });
        }
    }
}

/// Is `s` exactly a path?
pub open spec fn whole_path(s: Seq<TokV>) -> Option<PathV> {
    match path_at(s, 0) {
        Some((p, k)) if k == s.len() => Some(p),
        _ => None,
    }
}

/// Reads the identifier at `i`, if it is not a keyword
pub fn read_name(ts: &Vec<Tok>, i: usize) -> (r: Option<String>)
    ensures
        match r {
            Some(x) => name_at(tv(ts@), i as int) == Some(x@) && i < ts@.len(),
            None => name_at(tv(ts@), i as int) is None,
        },
{
    if i < ts.len() {
        match &ts[i] {
            Tok::Ident(x) => {
                if is_keyword(x.as_str()) {
                    None
                } else {
                    Some(x.clone())
                }
            },
            _ => None,
        }
    } else {
        None
    }
}

/// Reads the path segment at `i`
pub fn read_segment(ts: &Vec<Tok>, i: usize) -> (r: Option<String>)
    ensures
        match r {
            Some(x) => segment_at(tv(ts@), i as int) == Some(x@) && i < ts@.len(),
            None => segment_at(tv(ts@), i as int) is None,
        },
{
    if i < ts.len() {
        match &ts[i] {
            Tok::Ident(x) => {
                if !is_keyword(x.as_str()) || is_path_keyword(x.as_str()) {
                    Some(x.clone())
                } else {
                    None
                }
            },
            _ => None,
        }
    } else {
        None
    }
}

/// Is the token at `i` the punctuation `c`?
pub fn is_punct_at(ts: &Vec<Tok>, i: usize, c: char) -> (r: bool)
    ensures
        r == punct_at(tv(ts@), i as int, c),
        r ==> i < ts@.len(),
{
    if i < ts.len() {
        match &ts[i] {
            Tok::Punct(p, _) => *p == c,
            _ => false,
        }
    } else {
        false
    }
}

/// Is the token at `i` the identifier `name`?
pub fn is_word_at(ts: &Vec<Tok>, i: usize, name: &str) -> (r: bool)
    ensures
        r == word_at(tv(ts@), i as int, name@),
        r ==> i < ts@.len(),
{
    if i < ts.len() {
        match &ts[i] {
            Tok::Ident(x) => str_eq(x.as_str(), name),
            _ => false,
        }
    } else {
        false
    }
}

/// Do the tokens at `i` and `i + 1` make up `::`?
pub fn is_colon2_at(ts: &Vec<Tok>, i: usize) -> (r: bool)
    ensures
        r == colon2_at(tv(ts@), i as int),
        r ==> i + 1 < ts@.len(),
{
    if i < ts.len() && i + 1 < ts.len() {
        let first = match &ts[i] {
            Tok::Punct(p, j) => *p == ':' && *j,
            _ => false,
        };
        first && is_punct_at(ts, i + 1, ':')
    } else {
        false
    }
}

/// The group at `i`, if it has delimiter `d`
pub fn read_group(ts: &Vec<Tok>, i: usize, d: Delim) -> (r: Option<&Vec<Tok>>)
    ensures
        match r {
            Some(g) => group_at(tv(ts@), i as int, d) == Some(tv(g@)) && i < ts@.len(),
            None => group_at(tv(ts@), i as int, d) is None,
        },
{
    if i < ts.len() {
        match &ts[i] {
            Tok::Group(e, g) => {
                if *e == d {
                    Some(g)
                } else {
                    None
                }
            },
            _ => None,
        }
    } else {
        None
    }
}

/// Reads the path that starts at `i`
pub fn read_path(ts: &Vec<Tok>, i: usize) -> (r: Option<(Path, usize)>)
    ensures
        match r {
            Some((p, k)) => path_at(tv(ts@), i as int) == Some((p@, k as int)) && i < k
                <= ts@.len(),
            None => path_at(tv(ts@), i as int) is None,
        },
{
    let ghost s = tv(ts@);
    let n = ts.len();
    let lead = is_colon2_at(ts, i);
    let j = if lead {
        i + 2
    } else {
        i
    };
    let first = match read_segment(ts, j) {
        None => return None,
        Some(x) => x,
    };
    let mut segments: Vec<String> = Vec::new();
    segments.push(first);
    let mut k = j + 1;
    proof {
        let p = Path { leading_colon: lead, segments };
        assert(p@.segments =~= seq![first@]);
    }
    while is_colon2_at(ts, k)
        invariant
            s == tv(ts@),
            n == ts@.len(),
            i < k <= ts@.len(),
            path_at(s, i as int) == path_rest(
                s,
                k as int,
                Path { leading_colon: lead, segments }@,
            ),
        decreases ts@.len() - k,
    {
        let x = match read_segment(ts, k + 2) {
            None => return None,
            Some(x) => x,
        };
        let ghost before = segments;
        segments.push(x);
        proof {
            assert(names_of(segments@) =~= names_of(before@).push(x@));
        }
        k = k + 3;
    }
    Some((Path { leading_colon: lead, segments }, k))
}

/// The values of a sequence of strings
pub open spec fn names_of(s: Seq<String>) -> Seq<Seq<char>> {
    crate::ast::names_view(s)
}

// ---- comma-separated lists ----
//
// A list is split at the commas that stand outside groups and outside
// angle brackets (`HashMap<K, V>` is one element); the `>` of `->` closes
// nothing.

/// The angle-bracket depth after the token at `i`, from depth `d` before it
pub open spec fn angle_step(s: Seq<TokV>, i: int, d: int) -> int {
    if is_punct(s[i], '<') {
        d + 1
    } else if is_punct(s[i], '>') && d > 0 && !(i > 0 && s[i - 1] == TokV::Punct('-', true)) {
        d - 1
    } else {
        d
    }
}

/// The first punctuation `c` at depth 0 from `i`, scanning from depth `d`;
/// the length of `s` where there is none
pub open spec fn next_sep(s: Seq<TokV>, i: int, d: int, c: char) -> int
    decreases s.len() - i,
{
    if i < 0 || i >= s.len() {
        s.len() as int
    } else if is_punct(s[i], c) && d == 0 {
        i
    } else {
        next_sep(s, i + 1, angle_step(s, i, d), c)
    }
}

/// `next_sep` goes forward
pub proof fn lemma_next_sep(s: Seq<TokV>, i: int, d: int, c: char)
    requires
        0 <= i <= s.len(),
    ensures
        i <= next_sep(s, i, d, c) <= s.len(),
    decreases s.len() - i,
{
    if i < s.len() && !(is_punct(s[i], c) && d == 0) {
        lemma_next_sep(s, i + 1, angle_step(s, i, d), c);
    }
}

/// Finds the first punctuation `c` at depth 0 from `i`
pub fn find_sep(ts: &Vec<Tok>, i: usize, c: char) -> (r: usize)
    requires
        i <= ts@.len(),
    ensures
        r == next_sep(tv(ts@), i as int, 0, c),
        i <= r <= ts@.len(),
{
    let ghost s = tv(ts@);
    let mut j = i;
    let mut d: usize = 0;
    while j < ts.len() && !(is_punct_at(ts, j, c) && d == 0)
        invariant
            s == tv(ts@),
            i <= j <= ts@.len(),
            d <= j,
            next_sep(s, i as int, 0, c) == next_sep(s, j as int, d as int, c),
        decreases ts@.len() - j,
    {
        if is_punct_at(ts, j, '<') {
            d = d + 1;
        } else if is_punct_at(ts, j, '>') && d > 0 {
            let arrow = j > 0 && match &ts[j - 1] {
                Tok::Punct(p, joint) => *p == '-' && *joint,
                _ => false,
            };
            if !arrow {
                d = d - 1;
            }
        }
        j = j + 1;
    }
    proof {
        lemma_next_sep(s, i as int, 0, c);
    }
    j
}

/// The end of an item from `i`: the first `;`, or (unless `semi_only`) the
/// first brace group; the length of `s` where there is none
pub open spec fn item_end(s: Seq<TokV>, i: int, semi_only: bool) -> int
    decreases s.len() - i,
{
    if i < 0 || i >= s.len() {
        s.len() as int
    } else if is_punct(s[i], ';') || (!semi_only && s[i] is Group && s[i]->Group_0
        == Delim::Brace) {
        i
    } else {
        item_end(s, i + 1, semi_only)
    }
}

/// `item_end` goes forward, to a `;` or a brace group
pub proof fn lemma_item_end(s: Seq<TokV>, i: int, semi_only: bool)
    requires
        0 <= i <= s.len(),
    ensures
        i <= item_end(s, i, semi_only) <= s.len(),
        item_end(s, i, semi_only) < s.len() ==> ({
            let t = s[item_end(s, i, semi_only)];
            is_punct(t, ';') || (!semi_only && t is Group && t->Group_0 == Delim::Brace)
        }),
    decreases s.len() - i,
{
    if i < s.len() && !(is_punct(s[i], ';') || (!semi_only && s[i] is Group && s[i]->Group_0
        == Delim::Brace)) {
        lemma_item_end(s, i + 1, semi_only);
    }
}

fn ends_item(t: &Tok, semi_only: bool) -> (r: bool)
    ensures
        r == (is_punct(t@, ';') || (!semi_only && t@ is Group && t@->Group_0 == Delim::Brace)),
{
    match t {
        Tok::Punct(p, _) => *p == ';',
        Tok::Group(d, _) => !semi_only && *d == Delim::Brace,
        _ => false,
    }
}

/// Finds the end of an item from `i`
pub fn find_item_end(ts: &Vec<Tok>, i: usize, semi_only: bool) -> (r: usize)
    requires
        i <= ts@.len(),
    ensures
        r == item_end(tv(ts@), i as int, semi_only),
        i <= r <= ts@.len(),
        r < ts@.len() ==> ({
            let t = tv(ts@)[r as int];
            is_punct(t, ';') || (!semi_only && t is Group && t->Group_0 == Delim::Brace)
        }),
{
    let ghost s = tv(ts@);
    let mut j = i;
    while j < ts.len() && !ends_item(&ts[j], semi_only)
        invariant
            s == tv(ts@),
            i <= j <= ts@.len(),
            item_end(s, i as int, semi_only) == item_end(s, j as int, semi_only),
        decreases ts@.len() - j,
    {
        j = j + 1;
    }
    proof {
        lemma_item_end(s, i as int, semi_only);
    }
    j
}

/// The elements of the list that starts at `i`, as ranges `[start, end)`;
/// a comma at the very end opens no element
pub open spec fn segments_from(s: Seq<TokV>, i: int) -> Seq<(int, int)>
    decreases s.len() - i,
{
    if i < 0 || i >= s.len() {
        seq![]
    } else {
        let j = next_sep(s, i, 0, ',');
        proof {
            lemma_next_sep(s, i, 0, ',');
        }
        if j >= s.len() {
            seq![(i, s.len() as int)]
        } else {
            seq![(i, j)] + segments_from(s, j + 1)
        }
    }
}

/// The ranges lie within the list, in order
pub proof fn lemma_segments_bounds(s: Seq<TokV>, i: int)
    requires
        0 <= i,
    ensures
        forall|q: int|
            0 <= q < segments_from(s, i).len() ==> i <= #[trigger] segments_from(s, i)[q].0
                <= segments_from(s, i)[q].1 <= s.len(),
    decreases s.len() - i,
{
    if i < s.len() {
        let j = next_sep(s, i, 0, ',');
        lemma_next_sep(s, i, 0, ',');
        if j < s.len() {
            lemma_segments_bounds(s, j + 1);
            let rest = segments_from(s, j + 1);
            assert(segments_from(s, i) == seq![(i, j)] + rest);
            assert forall|q: int| 0 <= q < segments_from(s, i).len() implies i
                <= #[trigger] segments_from(s, i)[q].0 <= segments_from(s, i)[q].1 <= s.len() by {
                if q > 0 {
                    assert(segments_from(s, i)[q] == rest[q - 1]);
                }
            }
        }
    }
}

/// The elements of a list, as ranges
pub open spec fn segments(s: Seq<TokV>) -> Seq<(int, int)> {
    segments_from(s, 0)
}

/// The ranges as integers
pub open spec fn ranges_view(r: Seq<(usize, usize)>) -> Seq<(int, int)> {
    r.map_values(|x: (usize, usize)| (x.0 as int, x.1 as int))
}

/// Splits a list at its commas
pub fn comma_segments(ts: &Vec<Tok>) -> (r: Vec<(usize, usize)>)
    ensures
        ranges_view(r@) == segments(tv(ts@)),
{
    let ghost s = tv(ts@);
    let mut out: Vec<(usize, usize)> = Vec::new();
    let mut i: usize = 0;
    while i < ts.len()
        invariant
            s == tv(ts@),
            i <= ts@.len(),
            segments(s) == ranges_view(out@) + segments_from(s, i as int),
        decreases ts@.len() - i,
    {
        let j = find_sep(ts, i, ',');
        let ghost before = out@;
        if j >= ts.len() {
            out.push((i, ts.len()));
            proof {
                assert(ranges_view(out@) =~= ranges_view(before).push((i as int, s.len() as int)));
                assert(segments_from(s, ts@.len() as int) =~= seq![]);
                assert(segments(s) =~= ranges_view(out@) + segments_from(s, ts@.len() as int));
            }
            i = ts.len();
        } else {
            out.push((i, j));
            proof {
                assert(ranges_view(out@) =~= ranges_view(before).push((i as int, j as int)));
                assert(segments(s) =~= ranges_view(out@) + segments_from(s, j + 1));
            }
            i = j + 1;
        }
    }
    proof {
        assert(segments(s) =~= ranges_view(out@));
    }
    out
}

// ---- lists of declared locals ----
//
// A `local` list may hold expressions (`name: Type = expr`). Before the `=`
// a `<` opens angle brackets as in any type; in the expression after it, a
// `<` opens them only after `::` (`f::<A, B>()`), and elsewhere compares
// or shifts (`1 << 3`).

/// Is the `<` at `i` that of a turbofish, right after `::`?
pub open spec fn turbofish_at(s: Seq<TokV>, i: int) -> bool {
    i >= 2 && is_punct(s[i - 1], ':') && s[i - 2] == TokV::Punct(':', true)
}

/// Does the token at `i`, at depth `d`, start the expression of a
/// declaration: an `=` that stands alone, outside angle brackets?
pub open spec fn starts_expr(s: Seq<TokV>, i: int, d: int) -> bool {
    d == 0 && s[i] == TokV::Punct('=', false) && !(i > 0 && s[i - 1] matches TokV::Punct(_, true))
}

/// The angle-bracket depth after the token at `i`, from depth `d` before
/// it, in an expression (`ex`) or not
pub open spec fn expr_angle_step(s: Seq<TokV>, i: int, d: int, ex: bool) -> int {
    if ex && d == 0 {
        if is_punct(s[i], '<') && turbofish_at(s, i) {
            1
        } else {
            0
        }
    } else {
        angle_step(s, i, d)
    }
}

/// The first comma at depth 0 from `i` in a list of declared locals,
/// scanning from depth `d`, in an expression (`ex`) or not; the length of
/// `s` where there is none
pub open spec fn next_local_sep(s: Seq<TokV>, i: int, d: int, ex: bool) -> int
    decreases s.len() - i,
{
    if i < 0 || i >= s.len() {
        s.len() as int
    } else if is_punct(s[i], ',') && d == 0 {
        i
    } else {
        next_local_sep(s, i + 1, expr_angle_step(s, i, d, ex), ex || starts_expr(s, i, d))
    }
}

/// `next_local_sep` goes forward
pub proof fn lemma_next_local_sep(s: Seq<TokV>, i: int, d: int, ex: bool)
    requires
        0 <= i <= s.len(),
    ensures
        i <= next_local_sep(s, i, d, ex) <= s.len(),
    decreases s.len() - i,
{
    if i < s.len() && !(is_punct(s[i], ',') && d == 0) {
        lemma_next_local_sep(s, i + 1, expr_angle_step(s, i, d, ex), ex || starts_expr(s, i, d));
    }
}

/// Is the `<` at `j` that of a turbofish?
fn is_turbofish_at(ts: &Vec<Tok>, j: usize) -> (r: bool)
    requires
        j < ts@.len(),
    ensures
        r == turbofish_at(tv(ts@), j as int),
{
    if j < 2 {
        return false;
    }
    let a = match &ts[j - 1] {
        Tok::Punct(c, _) => *c == ':',
        _ => false,
    };
    let b = match &ts[j - 2] {
        Tok::Punct(c, joint) => *c == ':' && *joint,
        _ => false,
    };
    a && b
}

/// Does the token at `j`, at depth `d`, start the expression of a
/// declaration?
fn is_expr_start(ts: &Vec<Tok>, j: usize, d: usize) -> (r: bool)
    requires
        j < ts@.len(),
    ensures
        r == starts_expr(tv(ts@), j as int, d as int),
{
    let eq = match &ts[j] {
        Tok::Punct(c, joint) => *c == '=' && !*joint,
        _ => false,
    };
    let after_joint = j > 0 && match &ts[j - 1] {
        Tok::Punct(_, joint) => *joint,
        _ => false,
    };
    d == 0 && eq && !after_joint
}

/// Finds the first comma at depth 0 from `i` in a list of declared locals
pub fn find_local_sep(ts: &Vec<Tok>, i: usize) -> (r: usize)
    requires
        i <= ts@.len(),
    ensures
        r == next_local_sep(tv(ts@), i as int, 0, false),
        i <= r <= ts@.len(),
{
    let ghost s = tv(ts@);
    let mut j = i;
    let mut d: usize = 0;
    let mut ex = false;
    while j < ts.len() && !(is_punct_at(ts, j, ',') && d == 0)
        invariant
            s == tv(ts@),
            i <= j <= ts@.len(),
            d <= j,
            next_local_sep(s, i as int, 0, false) == next_local_sep(s, j as int, d as int, ex),
        decreases ts@.len() - j,
    {
        let starts = is_expr_start(ts, j, d);
        if ex && d == 0 {
            if is_punct_at(ts, j, '<') && is_turbofish_at(ts, j) {
                d = 1;
            }
        } else if is_punct_at(ts, j, '<') {
            d = d + 1;
        } else if is_punct_at(ts, j, '>') && d > 0 {
            let arrow = j > 0 && match &ts[j - 1] {
                Tok::Punct(p, joint) => *p == '-' && *joint,
                _ => false,
            };
            if !arrow {
                d = d - 1;
            }
        }
        ex = ex || starts;
        j = j + 1;
    }
    proof {
        lemma_next_local_sep(s, i as int, 0, false);
    }
    j
}

/// The elements of a list of declared locals that starts at `i`, as ranges
/// `[start, end)`; a comma at the very end opens no element
pub open spec fn local_segments_from(s: Seq<TokV>, i: int) -> Seq<(int, int)>
    decreases s.len() - i,
{
    if i < 0 || i >= s.len() {
        seq![]
    } else {
        let j = next_local_sep(s, i, 0, false);
        proof {
            lemma_next_local_sep(s, i, 0, false);
        }
        if j >= s.len() {
            seq![(i, s.len() as int)]
        } else {
            seq![(i, j)] + local_segments_from(s, j + 1)
        }
    }
}

/// The ranges lie within the list, in order
pub proof fn lemma_local_segments_bounds(s: Seq<TokV>, i: int)
    requires
        0 <= i,
    ensures
        forall|q: int|
            0 <= q < local_segments_from(s, i).len() ==> i <= #[trigger] local_segments_from(s, i)[q].0
                <= local_segments_from(s, i)[q].1 <= s.len(),
    decreases s.len() - i,
{
    if i < s.len() {
        let j = next_local_sep(s, i, 0, false);
        lemma_next_local_sep(s, i, 0, false);
        if j < s.len() {
            lemma_local_segments_bounds(s, j + 1);
            let rest = local_segments_from(s, j + 1);
            assert(local_segments_from(s, i) == seq![(i, j)] + rest);
            assert forall|q: int| 0 <= q < local_segments_from(s, i).len() implies i
                <= #[trigger] local_segments_from(s, i)[q].0 <= local_segments_from(s, i)[q].1
                <= s.len() by {
                if q > 0 {
                    assert(local_segments_from(s, i)[q] == rest[q - 1]);
                }
            }
        }
    }
}

/// The elements of a list of declared locals, as ranges
pub open spec fn local_segments(s: Seq<TokV>) -> Seq<(int, int)> {
    local_segments_from(s, 0)
}

/// Splits a list of declared locals at its commas
pub fn local_comma_segments(ts: &Vec<Tok>) -> (r: Vec<(usize, usize)>)
    ensures
        ranges_view(r@) == local_segments(tv(ts@)),
{
    let ghost s = tv(ts@);
    let mut out: Vec<(usize, usize)> = Vec::new();
    let mut i: usize = 0;
    while i < ts.len()
        invariant
            s == tv(ts@),
            i <= ts@.len(),
            local_segments(s) == ranges_view(out@) + local_segments_from(s, i as int),
        decreases ts@.len() - i,
    {
        let j = find_local_sep(ts, i);
        let ghost before = out@;
        if j >= ts.len() {
            out.push((i, ts.len()));
            proof {
                assert(ranges_view(out@) =~= ranges_view(before).push((i as int, s.len() as int)));
                assert(local_segments_from(s, ts@.len() as int) =~= seq![]);
                assert(local_segments(s) =~= ranges_view(out@) + local_segments_from(s, ts@.len() as int));
            }
            i = ts.len();
        } else {
            out.push((i, j));
            proof {
                assert(ranges_view(out@) =~= ranges_view(before).push((i as int, j as int)));
                assert(local_segments(s) =~= ranges_view(out@) + local_segments_from(s, j + 1));
            }
            i = j + 1;
        }
    }
    proof {
        assert(local_segments(s) =~= ranges_view(out@));
    }
    out
}

// ---- attributes ----

/// The outer attribute `#[path tokens]` at `i`, and where it ends
pub open spec fn attr_at(s: Seq<TokV>, i: int) -> Option<(AttrV, int)> {
    if punct_at(s, i, '#') {
        match group_at(s, i + 1, Delim::Bracket) {
            Some(c) => match path_at(c, 0) {
                Some((p, k)) => Some(
                    (AttrV { outer: true, path: p, tokens: c.subrange(k, c.len() as int) }, i + 2),
                ),
                None => None,
            },
            None => None,
        }
    } else {
        None
    }
}

/// The outer attributes that start at `i`, and where they end
pub open spec fn attrs_at(s: Seq<TokV>, i: int) -> (Seq<AttrV>, int)
    decreases s.len() - i,
{
    match attr_at(s, i) {
        Some((a, j)) => {
            let (r, k) = attrs_at(s, j);
            (seq![a] + r, k)
        },
        None => (seq![], i),
    }
}

/// Reads the outer attribute at `i`
pub fn read_attr(ts: &Vec<Tok>, i: usize) -> (r: Option<(Attribute, usize)>)
    ensures
        match r {
            Some((a, j)) => attr_at(tv(ts@), i as int) == Some((a@, j as int)) && j == i + 2 && j
                <= ts@.len(),
            None => attr_at(tv(ts@), i as int) is None,
        },
{
    let n = ts.len();
    if !is_punct_at(ts, i, '#') {
        return None;
    }
    let c = match read_group(ts, i + 1, Delim::Bracket) {
        Some(c) => c,
        None => return None,
    };
    match read_path(c, 0) {
        Some((p, k)) => {
            let tokens = copy_range(c, k, c.len());
            Some((Attribute { outer: true, path: p, tokens }, i + 2))
        },
        None => None,
    }
}

/// Reads the outer attributes that start at `i`
pub fn read_attrs(ts: &Vec<Tok>, i: usize) -> (r: (Vec<Attribute>, usize))
    requires
        i <= ts@.len(),
    ensures
        attrs_at(tv(ts@), i as int) == (crate::ast::attrs_view(r.0@), r.1 as int),
        i <= r.1 <= ts@.len(),
{
    let ghost s = tv(ts@);
    let mut out: Vec<Attribute> = Vec::new();
    let mut j = i;
    loop
        invariant
            s == tv(ts@),
            i <= j <= ts@.len(),
            attrs_at(s, i as int) == {
                let (r, k) = attrs_at(s, j as int);
                (crate::ast::attrs_view(out@) + r, k)
            },
        decreases ts@.len() - j,
    {
        match read_attr(ts, j) {
            Some((a, k)) => {
                let ghost before = out@;
                out.push(a);
                proof {
                    assert(crate::ast::attrs_view(out@) =~= crate::ast::attrs_view(before).push(a@));
                    let (r, m) = attrs_at(s, k as int);
                    assert(crate::ast::attrs_view(before) + (seq![a@] + r) =~= crate::ast::attrs_view(out@) + r);
                }
                j = k;
            },
            None => {
                proof {
                    assert(crate::ast::attrs_view(out@) + seq![] =~= crate::ast::attrs_view(out@));
                }
                return (out, j);
            },
        }
    }
}

} // verus!
