//! The items of the `#[app]` module, as far as the application reads them
//!
//! An item is its outer attributes, its visibility and the rest up to its
//! end: a function up to its body (or its `;`), a `struct` up to its field
//! block (or its `;`), an `extern` block up to its brace group, a `type`,
//! `use`, `static` or `const` item up to its `;`, any other item up to its
//! first brace group or `;`.

use vstd::prelude::*;

use crate::ast::{attrs_view, AttrV, Attribute};
use crate::error::{error_here, ErrV, Error, ErrorKind};
use crate::parse::cursor::{
    angle_step, attrs_at, colon2_at, comma_segments, find_item_end, find_sep, group_at, is_colon2_at,
    is_punct_at, is_word_at, item_end, lemma_item_end, lemma_next_sep, lemma_segments_bounds,
    next_sep, punct_at, ranges_view, read_attrs, read_group, segments, word_at,
};
use crate::tokens::{is_punct, copy_range, copy_toks, lemma_tv_index, lemma_tv_len, tv, Delim, Tok, TokV, Tokens};

verus! {

broadcast use lemma_tv_len, lemma_tv_index;

/// A function item, or a function declaration in an `extern` block
#[derive(Debug)]
pub struct FnItem {
    /// Outer attributes
    pub attrs: Vec<Attribute>,
    /// No `pub` or `crate` visibility
    pub vis_inherited: bool,
    /// No `const`, `async`, `unsafe` or `extern` before `fn`
    pub plain: bool,
    /// The function's name
    pub name: String,
    /// Generic parameters follow the name
    pub generic: bool,
    /// The parameters, one token sequence each
    pub params: Vec<Tokens>,
    /// The return type, after `->`
    pub ret: Option<Tokens>,
    /// There is a `where` clause
    pub where_clause: bool,
    /// The body's tokens, where there is a body
    pub body: Option<Tokens>,
}

/// A named field of a `struct`
#[derive(Debug)]
pub struct Field {
    /// Outer attributes
    pub attrs: Vec<Attribute>,
    /// No `pub` or `crate` visibility
    pub vis_inherited: bool,
    /// The field's name
    pub name: String,
    /// The field's type
    pub ty: Tokens,
}

/// A `struct` item
#[derive(Debug)]
pub struct StructItem {
    /// Outer attributes
    pub attrs: Vec<Attribute>,
    /// No `pub` or `crate` visibility
    pub vis_inherited: bool,
    /// The struct's name
    pub name: String,
    /// The named fields; `None` for a tuple or unit struct
    pub fields: Option<Vec<Field>>,
}

/// A `type` item
#[derive(Debug)]
pub struct TypeItem {
    /// Outer attributes
    pub attrs: Vec<Attribute>,
    /// No `pub` or `crate` visibility
    pub vis_inherited: bool,
    /// The alias's name
    pub name: String,
    /// The aliased type, after `=`
    pub ty: Tokens,
}

/// An item of the module
#[derive(Debug)]
pub enum Item {
    /// `fn`
    Fn(FnItem),
    /// `struct`
    Struct(StructItem),
    /// `extern "abi" { .. }`: the ABI literal, if any, and the items
    ForeignMod(Option<String>, Vec<Item>),
    /// `type`
    Type(TypeItem),
    /// Any other item
    Other,
}

// ---- values ----

/// The value of a function item
pub struct FnItemV {
    /// Outer attributes
    pub attrs: Seq<AttrV>,
    /// No `pub` or `crate` visibility
    pub vis_inherited: bool,
    /// No qualifier before `fn`
    pub plain: bool,
    /// Name
    pub name: Seq<char>,
    /// Generic parameters follow the name
    pub generic: bool,
    /// Parameters
    pub params: Seq<Seq<TokV>>,
    /// Return type
    pub ret: Option<Seq<TokV>>,
    /// `where` clause
    pub where_clause: bool,
    /// Body
    pub body: Option<Seq<TokV>>,
}

/// The value of a field
pub struct FieldV {
    /// Outer attributes
    pub attrs: Seq<AttrV>,
    /// No `pub` or `crate` visibility
    pub vis_inherited: bool,
    /// Name
    pub name: Seq<char>,
    /// Type
    pub ty: Seq<TokV>,
}

/// The value of a `struct` item
pub struct StructItemV {
    /// Outer attributes
    pub attrs: Seq<AttrV>,
    /// No `pub` or `crate` visibility
    pub vis_inherited: bool,
    /// Name
    pub name: Seq<char>,
    /// Named fields
    pub fields: Option<Seq<FieldV>>,
}

/// The value of a `type` item
pub struct TypeItemV {
    /// Outer attributes
    pub attrs: Seq<AttrV>,
    /// No `pub` or `crate` visibility
    pub vis_inherited: bool,
    /// Name
    pub name: Seq<char>,
    /// Aliased type
    pub ty: Seq<TokV>,
}

/// The value of an item
pub enum ItemV {
    /// `fn`
    Fn(FnItemV),
    /// `struct`
    Struct(StructItemV),
    /// `extern` block
    ForeignMod(Option<Seq<char>>, Seq<ItemV>),
    /// `type`
    Type(TypeItemV),
    /// other
    Other,
}

/// The values of a sequence of token sequences
pub open spec fn toks_seq_view(v: Seq<Tokens>) -> Seq<Seq<TokV>> {
    v.map_values(|t: Tokens| tv(t@))
}

/// The value of an optional token sequence
pub open spec fn opt_toks_view(o: Option<Tokens>) -> Option<Seq<TokV>> {
    match o {
        Some(t) => Some(tv(t@)),
        None => None,
    }
}

impl View for FnItem {
    type V = FnItemV;

    open spec fn view(&self) -> FnItemV {
        FnItemV {
            attrs: attrs_view(self.attrs@),
            vis_inherited: self.vis_inherited,
            plain: self.plain,
            name: self.name@,
            generic: self.generic,
            params: toks_seq_view(self.params@),
            ret: opt_toks_view(self.ret),
            where_clause: self.where_clause,
            body: opt_toks_view(self.body),
        }
    }
}

impl View for Field {
    type V = FieldV;

    open spec fn view(&self) -> FieldV {
        FieldV {
            attrs: attrs_view(self.attrs@),
            vis_inherited: self.vis_inherited,
            name: self.name@,
            ty: tv(self.ty@),
        }
    }
}

/// The values of a sequence of fields
pub open spec fn fields_view(v: Seq<Field>) -> Seq<FieldV> {
    v.map_values(|f: Field| f@)
}

impl View for StructItem {
    type V = StructItemV;

    open spec fn view(&self) -> StructItemV {
        StructItemV {
            attrs: attrs_view(self.attrs@),
            vis_inherited: self.vis_inherited,
            name: self.name@,
            fields: match self.fields {
                Some(f) => Some(fields_view(f@)),
                None => None,
            },
        }
    }
}

impl View for TypeItem {
    type V = TypeItemV;

    open spec fn view(&self) -> TypeItemV {
        TypeItemV {
            attrs: attrs_view(self.attrs@),
            vis_inherited: self.vis_inherited,
            name: self.name@,
            ty: tv(self.ty@),
        }
    }
}

/// The value of an item that is not an `extern` block
pub open spec fn plain_item_view(it: Item) -> ItemV {
    match it {
        Item::Fn(f) => ItemV::Fn(f@),
        Item::Struct(s) => ItemV::Struct(s@),
        Item::Type(t) => ItemV::Type(t@),
        _ => ItemV::Other,
    }
}

/// The values of a sequence of items that are not `extern` blocks
pub open spec fn plain_items_view(v: Seq<Item>) -> Seq<ItemV> {
    v.map_values(|it: Item| plain_item_view(it))
}

impl View for Item {
    type V = ItemV;

    open spec fn view(&self) -> ItemV {
        match self {
            Item::ForeignMod(abi, items) => ItemV::ForeignMod(
                match abi {
                    Some(a) => Some(a@),
                    None => None,
                },
                plain_items_view(items@),
            ),
            _ => plain_item_view(*self),
        }
    }
}

/// The values of a sequence of items
pub open spec fn items_view(v: Seq<Item>) -> Seq<ItemV> {
    v.map_values(|it: Item| it@)
}

// ---- pieces ----

/// The tokens of each element of a comma-separated list
pub open spec fn split_list(c: Seq<TokV>) -> Seq<Seq<TokV>> {
    segments(c).map_values(|r: (int, int)| c.subrange(r.0, r.1))
}

/// The visibility at `i`: whether there is none, and where it ends
pub open spec fn vis_at(s: Seq<TokV>, i: int) -> (bool, int) {
    if word_at(s, i, "pub"@) {
        (
            false,
            if group_at(s, i + 1, Delim::Parenthesis) is Some {
                i + 2
            } else {
                i + 1
            },
        )
    } else if word_at(s, i, "crate"@) && !colon2_at(s, i + 1) {
        (false, i + 1)
    } else {
        (true, i)
    }
}

/// Where the qualifiers `const`, `async`, `unsafe`, `extern "abi"` that
/// start at `i` end
pub open spec fn quals_end(s: Seq<TokV>, i: int) -> int
    decreases s.len() - i,
{
    if i < 0 || i >= s.len() {
        i
    } else if word_at(s, i, "const"@) || word_at(s, i, "async"@) || word_at(s, i, "unsafe"@) {
        quals_end(s, i + 1)
    } else if word_at(s, i, "extern"@) {
        if i + 1 < s.len() && s[i + 1] is Literal {
            quals_end(s, i + 2)
        } else {
            quals_end(s, i + 1)
        }
    } else {
        i
    }
}

/// The end of a function's signature from `i`, at angle-bracket depth `d`:
/// the first `;` or brace group outside angle brackets (a const argument
/// `Foo<{ N }>` is part of a type); the length of `s` where there is none
pub open spec fn sig_end(s: Seq<TokV>, i: int, d: int) -> int
    decreases s.len() - i,
{
    if i < 0 || i >= s.len() {
        s.len() as int
    } else if d == 0 && (is_punct(s[i], ';') || (s[i] is Group && s[i]->Group_0 == Delim::Brace)) {
        i
    } else {
        sig_end(s, i + 1, angle_step(s, i, d))
    }
}

/// `sig_end` goes forward, to a `;` or a brace group
pub proof fn lemma_sig_end(s: Seq<TokV>, i: int, d: int)
    requires
        0 <= i <= s.len(),
    ensures
        i <= sig_end(s, i, d) <= s.len(),
        sig_end(s, i, d) < s.len() ==> ({
            let t = s[sig_end(s, i, d)];
            is_punct(t, ';') || (t is Group && t->Group_0 == Delim::Brace)
        }),
    decreases s.len() - i,
{
    if i < s.len() && !(d == 0 && (is_punct(s[i], ';') || (s[i] is Group && s[i]->Group_0
        == Delim::Brace))) {
        lemma_sig_end(s, i + 1, angle_step(s, i, d));
    }
}

/// The first parenthesized group in `[i, e)` outside angle brackets, from
/// depth `d` (the parameters, not a `Fn(..)` bound); `e` where there is none
pub open spec fn sig_paren(s: Seq<TokV>, i: int, e: int, d: int) -> int
    decreases e - i,
{
    if i < 0 || i >= e || i >= s.len() {
        e
    } else if d == 0 && group_at(s, i, Delim::Parenthesis) is Some {
        i
    } else {
        sig_paren(s, i + 1, e, angle_step(s, i, d))
    }
}

/// `sig_paren` stays in its range, at a parenthesized group
pub proof fn lemma_sig_paren(s: Seq<TokV>, i: int, e: int, d: int)
    requires
        0 <= i <= e <= s.len(),
    ensures
        i <= sig_paren(s, i, e, d) <= e,
        sig_paren(s, i, e, d) < e ==> group_at(s, sig_paren(s, i, e, d), Delim::Parenthesis) is Some,
    decreases e - i,
{
    if i < e && !(d == 0 && group_at(s, i, Delim::Parenthesis) is Some) {
        lemma_sig_paren(s, i + 1, e, angle_step(s, i, d));
    }
}

/// The first `where` in `[i, e)`; `e` where there is none
pub open spec fn first_where(s: Seq<TokV>, i: int, e: int) -> int
    decreases e - i,
{
    if i < 0 || i >= e || i >= s.len() {
        e
    } else if word_at(s, i, "where"@) {
        i
    } else {
        first_where(s, i + 1, e)
    }
}

/// The text of the identifier at `i`, keywords included
pub open spec fn ident_text_at(s: Seq<TokV>, i: int) -> Option<Seq<char>> {
    if 0 <= i < s.len() && s[i] is Ident {
        Some(s[i]->Ident_0)
    } else {
        None
    }
}

/// The error for what is not an item
pub open spec fn not_item() -> ErrV {
    (ErrorKind::ExpectedItem, Seq::empty())
}

// ---- items ----

/// The named fields of the elements `segs[k..]` of a field block, after `acc`
pub open spec fn field_of(e: Seq<TokV>) -> Option<FieldV> {
    let (attrs, k) = attrs_at(e, 0);
    let (vis, m) = vis_at(e, k);
    match ident_text_at(e, m) {
        Some(name) => if punct_at(e, m + 1, ':') {
            Some(
                FieldV {
                    attrs,
                    vis_inherited: vis,
                    name,
                    ty: e.subrange(m + 2, e.len() as int),
                },
            )
        } else {
            None
        },
        None => None,
    }
}

/// The fields of the elements `segs[k..]` of a field block, after `acc`
pub open spec fn fields_from(c: Seq<TokV>, segs: Seq<(int, int)>, k: int, acc: Seq<FieldV>) -> Option<
    Seq<FieldV>,
>
    decreases segs.len() - k,
{
    if k < 0 || k >= segs.len() {
        Some(acc)
    } else {
        match field_of(c.subrange(segs[k].0, segs[k].1)) {
            None => None,
            Some(f) => fields_from(c, segs, k + 1, acc.push(f)),
        }
    }
}

/// A function whose `fn` stands at `f`, and where it ends
pub open spec fn fn_at(s: Seq<TokV>, attrs: Seq<AttrV>, vis: bool, plain: bool, f: int) -> Result<
    (FnItemV, int),
    ErrV,
> {
    match ident_text_at(s, f + 1) {
        None => Err(not_item()),
        Some(name) => {
            let e = sig_end(s, f + 2, 0);
            let pg = sig_paren(s, f + 2, e, 0);
            if e >= s.len() || pg >= e {
                Err(not_item())
            } else {
                let arrow = punct_at(s, pg + 1, '-') && punct_at(s, pg + 2, '>');
                Ok(
                    (
                        FnItemV {
                            attrs,
                            vis_inherited: vis,
                            plain,
                            name,
                            generic: punct_at(s, f + 2, '<'),
                            params: split_list(s[pg]->Group_1),
                            ret: if arrow {
                                Some(s.subrange(pg + 3, first_where(s, pg + 3, e)))
                            } else {
                                None
                            },
                            where_clause: first_where(s, pg + 1, e) < e,
                            body: group_at(s, e, Delim::Brace),
                        },
                        e + 1,
                    ),
                )
            }
        },
    }
}

/// A `struct` whose keyword stands at `k`, and where it ends
pub open spec fn struct_at(s: Seq<TokV>, attrs: Seq<AttrV>, vis: bool, k: int) -> Result<
    (StructItemV, int),
    ErrV,
> {
    match ident_text_at(s, k + 1) {
        None => Err(not_item()),
        Some(name) => {
            let e = item_end(s, k + 2, false);
            if e >= s.len() {
                Err(not_item())
            } else {
                match group_at(s, e, Delim::Brace) {
                    None => Ok(
                        (StructItemV { attrs, vis_inherited: vis, name, fields: None }, e + 1),
                    ),
                    Some(c) => match fields_from(c, segments(c), 0, seq![]) {
                        None => Err(not_item()),
                        Some(fs) => Ok(
                            (
                                StructItemV { attrs, vis_inherited: vis, name, fields: Some(fs) },
                                e + 1,
                            ),
                        ),
                    },
                }
            }
        },
    }
}

/// A `type` item whose keyword stands at `k`, and where it ends
pub open spec fn type_at(s: Seq<TokV>, attrs: Seq<AttrV>, vis: bool, k: int) -> Result<
    (TypeItemV, int),
    ErrV,
> {
    match ident_text_at(s, k + 1) {
        None => Err(not_item()),
        Some(name) => {
            let e = item_end(s, k + 2, true);
            if e >= s.len() {
                Err(not_item())
            } else {
                let q = next_sep(s, k + 2, 0, '=');
                Ok(
                    (
                        TypeItemV {
                            attrs,
                            vis_inherited: vis,
                            name,
                            ty: if q < e {
                                s.subrange(q + 1, e)
                            } else {
                                seq![]
                            },
                        },
                        e + 1,
                    ),
                )
            }
        },
    }
}

/// Does the item at `k` end at its `;` only (`use`, `static`, `const`, `extern crate`)?
pub open spec fn semi_item(s: Seq<TokV>, k: int) -> bool {
    word_at(s, k, "use"@) || word_at(s, k, "static"@) || word_at(s, k, "const"@) || (word_at(
        s,
        k,
        "extern"@,
    ) && word_at(s, k + 1, "crate"@))
}

/// Where the head of the item at `i` (attributes, visibility) ends
pub open spec fn head_at(s: Seq<TokV>, i: int) -> (Seq<AttrV>, bool, int) {
    let (attrs, j) = attrs_at(s, i);
    let (vis, k) = vis_at(s, j);
    (attrs, vis, k)
}

/// The item at `i` that is not an `extern` block, and where it ends
pub open spec fn plain_item_at(s: Seq<TokV>, i: int) -> Result<(ItemV, int), ErrV> {
    if punct_at(s, i, '#') && punct_at(s, i + 1, '!') {
        Err(not_item())
    } else {
        let (attrs, vis, k) = head_at(s, i);
        let f = quals_end(s, k);
        if word_at(s, f, "fn"@) {
            match fn_at(s, attrs, vis, f == k, f) {
                Err(e) => Err(e),
                Ok((it, j)) => Ok((ItemV::Fn(it), j)),
            }
        } else if word_at(s, k, "struct"@) {
            match struct_at(s, attrs, vis, k) {
                Err(e) => Err(e),
                Ok((it, j)) => Ok((ItemV::Struct(it), j)),
            }
        } else if word_at(s, k, "type"@) {
            match type_at(s, attrs, vis, k) {
                Err(e) => Err(e),
                Ok((it, j)) => Ok((ItemV::Type(it), j)),
            }
        } else {
            let e = item_end(s, k, semi_item(s, k));
            if e >= s.len() {
                Err(not_item())
            } else {
                Ok((ItemV::Other, e + 1))
            }
        }
    }
}

/// The items from `i` on that are not `extern` blocks, after `acc`
pub open spec fn plain_items_from(s: Seq<TokV>, i: int, acc: Seq<ItemV>) -> Result<Seq<ItemV>, ErrV>
    decreases s.len() - i,
{
    if i < 0 || i >= s.len() {
        Ok(acc)
    } else {
        match plain_item_at(s, i) {
            Err(e) => Err(e),
            Ok((it, j)) => {
                proof {
                    lemma_plain_item_at(s, i);
                }
                plain_items_from(s, j, acc.push(it))
            },
        }
    }
}

/// Where an `extern` block at `k` has its brace group, and its ABI
pub open spec fn extern_block_at(s: Seq<TokV>, k: int) -> Option<(Option<Seq<char>>, int)> {
    if !word_at(s, k, "extern"@) {
        None
    } else if 0 <= k + 1 < s.len() && s[k + 1] is Literal {
        if group_at(s, k + 2, Delim::Brace) is Some {
            Some((Some(s[k + 1]->Literal_0), k + 2))
        } else {
            None
        }
    } else if group_at(s, k + 1, Delim::Brace) is Some {
        Some((None, k + 1))
    } else {
        None
    }
}

/// The item at `i`, and where it ends
pub open spec fn item_at(s: Seq<TokV>, i: int) -> Result<(ItemV, int), ErrV> {
    let (attrs, vis, k) = head_at(s, i);
    if !(punct_at(s, i, '#') && punct_at(s, i + 1, '!')) && !word_at(s, quals_end(s, k), "fn"@) {
        match extern_block_at(s, k) {
            Some((abi, g)) => match plain_items_from(s[g]->Group_1, 0, seq![]) {
                Err(e) => Err(e),
                Ok(items) => Ok((ItemV::ForeignMod(abi, items), g + 1)),
            },
            None => plain_item_at(s, i),
        }
    } else {
        plain_item_at(s, i)
    }
}

/// The items from `i` on, after `acc`
pub open spec fn items_from(s: Seq<TokV>, i: int, acc: Seq<ItemV>) -> Result<Seq<ItemV>, ErrV>
    decreases s.len() - i,
{
    if i < 0 || i >= s.len() {
        Ok(acc)
    } else {
        match item_at(s, i) {
            Err(e) => Err(e),
            Ok((it, j)) => {
                proof {
                    lemma_item_at(s, i);
                }
                items_from(s, j, acc.push(it))
            },
        }
    }
}

/// The items of a module's body
pub open spec fn items_of(s: Seq<TokV>) -> Result<Seq<ItemV>, ErrV> {
    items_from(s, 0, seq![])
}

/// The tokens of the items from `i` on, each item's own, after `acc`
/// (as far as the items can be read)
pub open spec fn item_texts_from(s: Seq<TokV>, i: int, acc: Seq<Seq<TokV>>) -> Seq<Seq<TokV>>
    decreases s.len() - i,
{
    if i < 0 || i >= s.len() {
        acc
    } else {
        match item_at(s, i) {
            Err(_) => acc,
            Ok((_, j)) => {
                proof {
                    lemma_item_at(s, i);
                }
                item_texts_from(s, j, acc.push(s.subrange(i, j)))
            },
        }
    }
}

/// The tokens of the items of a module's body, each item's own
pub open spec fn item_texts(s: Seq<TokV>) -> Seq<Seq<TokV>> {
    item_texts_from(s, 0, seq![])
}

/// Is the item whose tokens are `t` a `use` item?
pub open spec fn is_use_item(t: Seq<TokV>) -> bool {
    word_at(t, head_at(t, 0).2, "use"@)
}

// ---- progress ----

/// Attributes end where they start or later
pub proof fn lemma_attrs_at(s: Seq<TokV>, i: int)
    requires
        0 <= i <= s.len(),
    ensures
        i <= attrs_at(s, i).1 <= s.len(),
    decreases s.len() - i,
{
    if let Some((a, j)) = crate::parse::cursor::attr_at(s, i) {
        lemma_attrs_at(s, j);
    }
}

/// Qualifiers end where they start or later
pub proof fn lemma_quals_end(s: Seq<TokV>, i: int)
    requires
        0 <= i <= s.len(),
    ensures
        i <= quals_end(s, i) <= s.len(),
    decreases s.len() - i,
{
    if i < s.len() {
        if word_at(s, i, "const"@) || word_at(s, i, "async"@) || word_at(s, i, "unsafe"@) {
            lemma_quals_end(s, i + 1);
        } else if word_at(s, i, "extern"@) {
            if i + 1 < s.len() && s[i + 1] is Literal {
                lemma_quals_end(s, i + 2);
            } else {
                lemma_quals_end(s, i + 1);
            }
        }
    }
}

/// `first_where` stays within `[i, e]`
pub proof fn lemma_first_where(s: Seq<TokV>, i: int, e: int)
    requires
        0 <= i <= e,
    ensures
        i <= first_where(s, i, e) <= e,
    decreases e - i,
{
    if i < e && i < s.len() && !word_at(s, i, "where"@) {
        lemma_first_where(s, i + 1, e);
    }
}

/// The head of an item ends where it starts or later
pub proof fn lemma_head_at(s: Seq<TokV>, i: int)
    requires
        0 <= i <= s.len(),
    ensures
        i <= head_at(s, i).2 <= s.len(),
{
    lemma_attrs_at(s, i);
}

/// An item that is not an `extern` block ends after it starts
pub proof fn lemma_plain_item_at(s: Seq<TokV>, i: int)
    requires
        0 <= i < s.len(),
    ensures
        plain_item_at(s, i) matches Ok((_, j)) ==> i < j <= s.len(),
{
    lemma_head_at(s, i);
    let (attrs, vis, k) = head_at(s, i);
    lemma_quals_end(s, k);
    let f = quals_end(s, k);
    if word_at(s, f, "fn"@) {
        if f + 2 <= s.len() {
            lemma_sig_end(s, f + 2, 0);
        }
    } else if word_at(s, k, "struct"@) || word_at(s, k, "type"@) {
        if k + 2 <= s.len() {
            lemma_item_end(s, k + 2, false);
            lemma_item_end(s, k + 2, true);
        }
    } else {
        lemma_item_end(s, k, semi_item(s, k));
    }
}

/// An item ends after it starts
pub proof fn lemma_item_at(s: Seq<TokV>, i: int)
    requires
        0 <= i < s.len(),
    ensures
        item_at(s, i) matches Ok((_, j)) ==> i < j <= s.len(),
{
    lemma_head_at(s, i);
    lemma_plain_item_at(s, i);
}

// ---- reading ----

/// Splits a comma-separated list into its elements' tokens
pub fn read_list(c: &Vec<Tok>) -> (r: Vec<Tokens>)
    ensures
        toks_seq_view(r@) == split_list(tv(c@)),
{
    let ghost s = tv(c@);
    let segs = comma_segments(c);
    let ghost gs = segments(s);
    proof {
        lemma_segments_bounds(s, 0);
    }
    let mut out: Vec<Tokens> = Vec::new();
    let mut k: usize = 0;
    while k < segs.len()
        invariant
            s == tv(c@),
            gs == segments(s),
            ranges_view(segs@) == gs,
            forall|q: int| 0 <= q < gs.len() ==> 0 <= #[trigger] gs[q].0 <= gs[q].1 <= s.len(),
            k <= segs@.len(),
            out@.len() == k,
            forall|q: int| 0 <= q < k ==> tv(#[trigger] out@[q]@) == s.subrange(gs[q].0, gs[q].1),
        decreases segs@.len() - k,
    {
        assert(gs[k as int] == (segs@[k as int].0 as int, segs@[k as int].1 as int));
        let e = copy_range(c, segs[k].0, segs[k].1);
        out.push(e);
        k = k + 1;
    }
    assert(toks_seq_view(out@) =~= split_list(s));
    out
}

/// Reads the visibility at `i`
fn read_vis(ts: &Vec<Tok>, i: usize) -> (r: (bool, usize))
    requires
        i <= ts@.len(),
    ensures
        vis_at(tv(ts@), i as int) == (r.0, r.1 as int),
        i <= r.1 <= ts@.len(),
{
    let n = ts.len();
    if is_word_at(ts, i, "pub") {
        if read_group(ts, i + 1, Delim::Parenthesis).is_some() {
            (false, i + 2)
        } else {
            (false, i + 1)
        }
    } else if is_word_at(ts, i, "crate") && !is_colon2_at(ts, i + 1) {
        (false, i + 1)
    } else {
        (true, i)
    }
}

/// Finds where the qualifiers before `fn` end
fn find_quals_end(ts: &Vec<Tok>, i: usize) -> (r: usize)
    requires
        i <= ts@.len(),
    ensures
        r == quals_end(tv(ts@), i as int),
        i <= r <= ts@.len(),
{
    let ghost s = tv(ts@);
    let n = ts.len();
    let mut j = i;
    while j < n
        invariant
            s == tv(ts@),
            n == ts@.len(),
            i <= j <= n,
            quals_end(s, i as int) == quals_end(s, j as int),
        decreases n - j,
    {
        if is_word_at(ts, j, "const") || is_word_at(ts, j, "async") || is_word_at(ts, j, "unsafe") {
            j = j + 1;
        } else if is_word_at(ts, j, "extern") {
            let lit = j + 1 < n && match &ts[j + 1] {
                Tok::Literal(_) => true,
                _ => false,
            };
            if lit {
                j = j + 2;
            } else {
                j = j + 1;
            }
        } else {
            return j;
        }
    }
    j
}

/// Does the `>` at `j` close an angle bracket (it is not the end of `->`)?
fn closes_angle(ts: &Vec<Tok>, j: usize) -> (r: bool)
    requires
        j < ts@.len(),
    ensures
        r == (is_punct(tv(ts@)[j as int], '>') && !(j > 0 && tv(ts@)[j - 1] == TokV::Punct('-', true))),
{
    if !is_punct_at(ts, j, '>') {
        return false;
    }
    let arrow = j > 0 && match &ts[j - 1] {
        Tok::Punct(p, joint) => *p == '-' && *joint,
        _ => false,
    };
    !arrow
}

/// Finds the end of a function's signature from `i`
fn find_sig_end(ts: &Vec<Tok>, i: usize) -> (r: usize)
    requires
        i <= ts@.len(),
    ensures
        r == sig_end(tv(ts@), i as int, 0),
        i <= r <= ts@.len(),
        r < ts@.len() ==> ({
            let t = tv(ts@)[r as int];
            is_punct(t, ';') || (t is Group && t->Group_0 == Delim::Brace)
        }),
{
    let ghost s = tv(ts@);
    proof {
        lemma_sig_end(s, i as int, 0);
    }
    let mut j = i;
    let mut d: usize = 0;
    while j < ts.len()
        invariant
            s == tv(ts@),
            i <= j <= ts@.len(),
            d <= j,
            sig_end(s, i as int, 0) == sig_end(s, j as int, d as int),
        decreases ts@.len() - j,
    {
        let ends = match &ts[j] {
            Tok::Punct(p, _) => *p == ';',
            Tok::Group(g, _) => *g == Delim::Brace,
            _ => false,
        };
        if d == 0 && ends {
            return j;
        }
        if is_punct_at(ts, j, '<') {
            d = d + 1;
        } else if d > 0 && closes_angle(ts, j) {
            d = d - 1;
        }
        j = j + 1;
    }
    j
}

/// Finds the first parenthesized group in `[i, e)` outside angle brackets
fn find_sig_paren(ts: &Vec<Tok>, i: usize, e: usize) -> (r: usize)
    requires
        i <= e <= ts@.len(),
    ensures
        r == sig_paren(tv(ts@), i as int, e as int, 0),
        i <= r <= e,
        r < e ==> group_at(tv(ts@), r as int, Delim::Parenthesis) is Some,
{
    let ghost s = tv(ts@);
    proof {
        lemma_sig_paren(s, i as int, e as int, 0);
    }
    let mut j = i;
    let mut d: usize = 0;
    while j < e
        invariant
            s == tv(ts@),
            i <= j <= e <= ts@.len(),
            d <= j,
            sig_paren(s, i as int, e as int, 0) == sig_paren(s, j as int, e as int, d as int),
        decreases e - j,
    {
        if d == 0 && read_group(ts, j, Delim::Parenthesis).is_some() {
            return j;
        }
        if is_punct_at(ts, j, '<') {
            d = d + 1;
        } else if d > 0 && closes_angle(ts, j) {
            d = d - 1;
        }
        j = j + 1;
    }
    j
}

/// Finds the first `where` in `[i, e)`
fn find_first_where(ts: &Vec<Tok>, i: usize, e: usize) -> (r: usize)
    requires
        i <= e <= ts@.len(),
    ensures
        r == first_where(tv(ts@), i as int, e as int),
        i <= r <= e,
{
    let ghost s = tv(ts@);
    let mut j = i;
    while j < e && !is_word_at(ts, j, "where")
        invariant
            s == tv(ts@),
            i <= j <= e <= ts@.len(),
            first_where(s, i as int, e as int) == first_where(s, j as int, e as int),
        decreases e - j,
    {
        j = j + 1;
    }
    j
}

/// Reads the text of the identifier at `i`
fn read_ident_text(ts: &Vec<Tok>, i: usize) -> (r: Option<String>)
    ensures
        match r {
            Some(x) => ident_text_at(tv(ts@), i as int) == Some(x@) && i < ts@.len(),
            None => ident_text_at(tv(ts@), i as int) is None,
        },
{
    if i < ts.len() {
        match &ts[i] {
            Tok::Ident(x) => Some(x.clone()),
            _ => None,
        }
    } else {
        None
    }
}

/// Reads the function whose `fn` stands at `f`
fn read_fn(ts: &Vec<Tok>, attrs: Vec<Attribute>, vis: bool, plain: bool, f: usize) -> (r: Result<
    (FnItem, usize),
    Error,
>)
    requires
        f < ts@.len(),
    ensures
        match r {
            Ok((it, j)) => fn_at(tv(ts@), attrs_view(attrs@), vis, plain, f as int) == Ok::<
                (FnItemV, int),
                ErrV,
            >((it@, j as int)) && j <= ts@.len(),
            Err(e) => fn_at(tv(ts@), attrs_view(attrs@), vis, plain, f as int) == Err::<
                (FnItemV, int),
                ErrV,
            >(e@),
        },
{
    let ghost s = tv(ts@);
    let n = ts.len();
    let name = match read_ident_text(ts, f + 1) {
        None => return Err(error_here(ErrorKind::ExpectedItem)),
        Some(x) => x,
    };
    if f + 2 > n {
        return Err(error_here(ErrorKind::ExpectedItem));
    }
    let e = find_sig_end(ts, f + 2);
    let pg = find_sig_paren(ts, f + 2, e);
    if e >= n || pg >= e {
        return Err(error_here(ErrorKind::ExpectedItem));
    }
    let params = match &ts[pg] {
        Tok::Group(_, c) => read_list(c),
        _ => return Err(error_here(ErrorKind::ExpectedItem)),
    };
    let arrow = is_punct_at(ts, pg + 1, '-') && is_punct_at(ts, pg + 2, '>');
    let ret = if arrow {
        proof {
            assert(e != pg + 1 && e != pg + 2);
        }
        let w = find_first_where(ts, pg + 3, e);
        Some(copy_range(ts, pg + 3, w))
    } else {
        None
    };
    let w = find_first_where(ts, pg + 1, e);
    let body = match read_group(ts, e, Delim::Brace) {
        Some(c) => Some(copy_toks(c)),
        None => None,
    };
    let it = FnItem {
        attrs,
        vis_inherited: vis,
        plain,
        name,
        generic: is_punct_at(ts, f + 2, '<'),
        params,
        ret,
        where_clause: w < e,
        body,
    };
    Ok((it, e + 1))
}

/// Reads one named field
fn read_field(e: &Vec<Tok>) -> (r: Option<Field>)
    ensures
        match r {
            Some(f) => field_of(tv(e@)) == Some(f@),
            None => field_of(tv(e@)) is None,
        },
{
    let n = e.len();
    let (attrs, k) = read_attrs(e, 0);
    let (vis, m) = read_vis(e, k);
    match read_ident_text(e, m) {
        Some(name) => {
            if is_punct_at(e, m + 1, ':') {
                let ty = copy_range(e, m + 2, e.len());
                Some(Field { attrs, vis_inherited: vis, name, ty })
            } else {
                None
            }
        },
        None => None,
    }
}

/// Reads the named fields of a field block
fn read_fields(c: &Vec<Tok>) -> (r: Option<Vec<Field>>)
    ensures
        match r {
            Some(fs) => fields_from(tv(c@), segments(tv(c@)), 0, seq![]) == Some(fields_view(fs@)),
            None => fields_from(tv(c@), segments(tv(c@)), 0, seq![]) is None,
        },
{
    let ghost s = tv(c@);
    let segs = comma_segments(c);
    let ghost gs = segments(s);
    proof {
        lemma_segments_bounds(s, 0);
    }
    let mut out: Vec<Field> = Vec::new();
    let mut k: usize = 0;
    assert(fields_view(out@) =~= seq![]);
    while k < segs.len()
        invariant
            s == tv(c@),
            gs == segments(s),
            ranges_view(segs@) == gs,
            forall|q: int| 0 <= q < gs.len() ==> 0 <= #[trigger] gs[q].0 <= gs[q].1 <= s.len(),
            k <= segs@.len(),
            fields_from(s, gs, 0, seq![]) == fields_from(s, gs, k as int, fields_view(out@)),
        decreases segs@.len() - k,
    {
        assert(gs[k as int] == (segs@[k as int].0 as int, segs@[k as int].1 as int));
        let e = copy_range(c, segs[k].0, segs[k].1);
        let f = match read_field(&e) {
            Some(f) => f,
            None => return None,
        };
        let ghost before = out@;
        out.push(f);
        proof {
            assert(fields_view(out@) =~= fields_view(before).push(f@));
        }
        k = k + 1;
    }
    Some(out)
}

/// Reads the `struct` whose keyword stands at `k`
fn read_struct(ts: &Vec<Tok>, attrs: Vec<Attribute>, vis: bool, k: usize) -> (r: Result<
    (StructItem, usize),
    Error,
>)
    requires
        k < ts@.len(),
    ensures
        match r {
            Ok((it, j)) => struct_at(tv(ts@), attrs_view(attrs@), vis, k as int) == Ok::<
                (StructItemV, int),
                ErrV,
            >((it@, j as int)) && j <= ts@.len(),
            Err(e) => struct_at(tv(ts@), attrs_view(attrs@), vis, k as int) == Err::<
                (StructItemV, int),
                ErrV,
            >(e@),
        },
{
    let n = ts.len();
    let name = match read_ident_text(ts, k + 1) {
        None => return Err(error_here(ErrorKind::ExpectedItem)),
        Some(x) => x,
    };
    let e = find_item_end(ts, k + 2, false);
    if e >= n {
        return Err(error_here(ErrorKind::ExpectedItem));
    }
    match read_group(ts, e, Delim::Brace) {
        None => Ok((StructItem { attrs, vis_inherited: vis, name, fields: None }, e + 1)),
        Some(c) => match read_fields(c) {
            None => Err(error_here(ErrorKind::ExpectedItem)),
            Some(fs) => Ok((StructItem { attrs, vis_inherited: vis, name, fields: Some(fs) }, e + 1)),
        },
    }
}

/// Reads the `type` item whose keyword stands at `k`
fn read_type(ts: &Vec<Tok>, attrs: Vec<Attribute>, vis: bool, k: usize) -> (r: Result<
    (TypeItem, usize),
    Error,
>)
    requires
        k < ts@.len(),
    ensures
        match r {
            Ok((it, j)) => type_at(tv(ts@), attrs_view(attrs@), vis, k as int) == Ok::<
                (TypeItemV, int),
                ErrV,
            >((it@, j as int)) && j <= ts@.len(),
            Err(e) => type_at(tv(ts@), attrs_view(attrs@), vis, k as int) == Err::<
                (TypeItemV, int),
                ErrV,
            >(e@),
        },
{
    let n = ts.len();
    let name = match read_ident_text(ts, k + 1) {
        None => return Err(error_here(ErrorKind::ExpectedItem)),
        Some(x) => x,
    };
    let e = find_item_end(ts, k + 2, true);
    if e >= n {
        return Err(error_here(ErrorKind::ExpectedItem));
    }
    let q = find_sep(ts, k + 2, '=');
    let ty = if q < e {
        copy_range(ts, q + 1, e)
    } else {
        Vec::new()
    };
    proof {
        if q >= e {
            assert(tv(ty@) =~= seq![]);
        }
    }
    Ok((TypeItem { attrs, vis_inherited: vis, name, ty }, e + 1))
}

/// Reads the item at `i` that is not an `extern` block
fn read_plain_item(ts: &Vec<Tok>, i: usize) -> (r: Result<(Item, usize), Error>)
    requires
        i < ts@.len(),
    ensures
        match r {
            Ok((it, j)) => plain_item_at(tv(ts@), i as int) == Ok::<(ItemV, int), ErrV>(
                (plain_item_view(it), j as int),
            ) && j <= ts@.len(),
            Err(e) => plain_item_at(tv(ts@), i as int) == Err::<(ItemV, int), ErrV>(e@),
        },
        r matches Ok((it, _)) ==> !(it is ForeignMod),
{
    let ghost s = tv(ts@);
    let n = ts.len();
    if is_punct_at(ts, i, '#') && is_punct_at(ts, i + 1, '!') {
        return Err(error_here(ErrorKind::ExpectedItem));
    }
    let (attrs, j) = read_attrs(ts, i);
    let (vis, k) = read_vis(ts, j);
    let f = find_quals_end(ts, k);
    if is_word_at(ts, f, "fn") {
        match read_fn(ts, attrs, vis, f == k, f) {
            Err(e) => Err(e),
            Ok((it, j)) => Ok((Item::Fn(it), j)),
        }
    } else if is_word_at(ts, k, "struct") {
        match read_struct(ts, attrs, vis, k) {
            Err(e) => Err(e),
            Ok((it, j)) => Ok((Item::Struct(it), j)),
        }
    } else if is_word_at(ts, k, "type") {
        match read_type(ts, attrs, vis, k) {
            Err(e) => Err(e),
            Ok((it, j)) => Ok((Item::Type(it), j)),
        }
    } else {
        let semi = is_word_at(ts, k, "use") || is_word_at(ts, k, "static") || is_word_at(
            ts,
            k,
            "const",
        ) || (is_word_at(ts, k, "extern") && is_word_at(ts, k + 1, "crate"));
        let e = find_item_end(ts, k, semi);
        if e >= ts.len() {
            Err(error_here(ErrorKind::ExpectedItem))
        } else {
            Ok((Item::Other, e + 1))
        }
    }
}

/// Reads the items of an `extern` block
fn read_plain_items(ts: &Vec<Tok>) -> (r: Result<Vec<Item>, Error>)
    ensures
        match r {
            Ok(v) => plain_items_from(tv(ts@), 0, seq![]) == Ok::<Seq<ItemV>, ErrV>(
                plain_items_view(v@),
            ),
            Err(e) => plain_items_from(tv(ts@), 0, seq![]) == Err::<Seq<ItemV>, ErrV>(e@),
        },
{
    let ghost s = tv(ts@);
    let n = ts.len();
    let mut out: Vec<Item> = Vec::new();
    let mut i: usize = 0;
    assert(plain_items_view(out@) =~= seq![]);
    while i < n
        invariant
            s == tv(ts@),
            n == ts@.len(),
            i <= n,
            plain_items_from(s, 0, seq![]) == plain_items_from(
                s,
                i as int,
                plain_items_view(out@),
            ),
        decreases n - i,
    {
        proof {
            lemma_plain_item_at(s, i as int);
        }
        let (it, j) = match read_plain_item(ts, i) {
            Err(e) => return Err(e),
            Ok(v) => v,
        };
        let ghost before = out@;
        let ghost iv = plain_item_view(it);
        out.push(it);
        proof {
            assert(plain_items_view(out@) =~= plain_items_view(before).push(iv));
        }
        i = j;
    }
    Ok(out)
}

/// Reads the item at `i`
fn read_item(ts: &Vec<Tok>, i: usize) -> (r: Result<(Item, usize), Error>)
    requires
        i < ts@.len(),
    ensures
        match r {
            Ok((it, j)) => item_at(tv(ts@), i as int) == Ok::<(ItemV, int), ErrV>(
                (it@, j as int),
            ) && j <= ts@.len(),
            Err(e) => item_at(tv(ts@), i as int) == Err::<(ItemV, int), ErrV>(e@),
        },
{
    let ghost s = tv(ts@);
    let n = ts.len();
    let inner = is_punct_at(ts, i, '#') && is_punct_at(ts, i + 1, '!');
    let (_, j) = read_attrs(ts, i);
    let (_, k) = read_vis(ts, j);
    let f = find_quals_end(ts, k);
    if !inner && !is_word_at(ts, f, "fn") && is_word_at(ts, k, "extern") {
        let lit = if k + 1 < n {
            match &ts[k + 1] {
                Tok::Literal(a) => Some(a.clone()),
                _ => None,
            }
        } else {
            None
        };
        let g = if lit.is_some() {
            k + 2
        } else {
            k + 1
        };
        match read_group(ts, g, Delim::Brace) {
            Some(c) => {
                return match read_plain_items(c) {
                    Err(e) => Err(e),
                    Ok(items) => Ok((Item::ForeignMod(lit, items), g + 1)),
                };
            },
            None => {},
        }
    }
    match read_plain_item(ts, i) {
        Err(e) => Err(e),
        Ok((it, j)) => {
            proof {
                assert(it@ == plain_item_view(it));
            }
            Ok((it, j))
        },
    }
}

/// Is the item whose tokens are `t` a `use` item?
pub fn read_is_use(t: &Vec<Tok>) -> (r: bool)
    ensures
        r == is_use_item(tv(t@)),
{
    let (_, j) = read_attrs(t, 0);
    let (_, k) = read_vis(t, j);
    is_word_at(t, k, "use")
}

/// Reads the items of a module's body, and the tokens of each
pub fn read_items(ts: &Vec<Tok>) -> (r: Result<(Vec<Item>, Vec<Tokens>), Error>)
    ensures
        match r {
            Ok((v, t)) => items_of(tv(ts@)) == Ok::<Seq<ItemV>, ErrV>(items_view(v@))
                && toks_seq_view(t@) == item_texts(tv(ts@)) && t@.len() == v@.len(),
            Err(e) => items_of(tv(ts@)) == Err::<Seq<ItemV>, ErrV>(e@),
        },
{
    let ghost s = tv(ts@);
    let n = ts.len();
    let mut out: Vec<Item> = Vec::new();
    let mut texts: Vec<Tokens> = Vec::new();
    let mut i: usize = 0;
    assert(items_view(out@) =~= seq![]);
    assert(toks_seq_view(texts@) =~= seq![]);
    while i < n
        invariant
            s == tv(ts@),
            n == ts@.len(),
            i <= n,
            items_of(s) == items_from(s, i as int, items_view(out@)),
            item_texts(s) == item_texts_from(s, i as int, toks_seq_view(texts@)),
            texts@.len() == out@.len(),
        decreases n - i,
    {
        proof {
            lemma_item_at(s, i as int);
        }
        let (it, j) = match read_item(ts, i) {
            Err(e) => return Err(e),
            Ok(v) => v,
        };
        let ghost before = out@;
        let ghost iv = it@;
        out.push(it);
        proof {
            assert(items_view(out@) =~= items_view(before).push(iv));
        }
        let t = copy_range(ts, i, j);
        let ghost tb = texts@;
        texts.push(t);
        proof {
            assert(toks_seq_view(texts@) =~= toks_seq_view(tb).push(s.subrange(i as int, j as int)));
        }
        i = j;
    }
    Ok((out, texts))
}

} // verus!
