//! An actor: a field of the `#[actors]` struct, with the priority, the
//! initial value and the subscriptions that its attributes give
//!
//! - `#[priority = N]`, at most once (1 where there is none);
//! - `#[init(expr)]`, at most once;
//! - `#[subscribe(Type)]` or `#[subscribe(Type, capacity = N)]`, any number
//!   of times (capacity 1 where none is written);
//! - `#[doc]` attributes are passed over; `#[cfg]` is refused, and so is any
//!   other attribute.

use vstd::prelude::*;

use crate::ast::{subscriptions_view, Actor, ActorV, AttrV, Subscription, SubscriptionV};
use crate::error::{error_at, error_here, res_view, ErrV, Error, ErrorKind};
use crate::parse::app::{init_expr, read_init_expr};
use crate::parse::args::{int_at, literal_text_at, read_int};
use crate::parse::cursor::{
    find_sep, group_at, is_punct_at, name_at, next_sep, punct_at, read_group, read_name,
};
use crate::parse::func::{attr_eq, attr_named, attr_pos, find_attr};
use crate::parse::item::Field;
use crate::stream::{int_literal, int_text_ok, is_int_text, read_int_literal};
use crate::tokens::{copy_range, copy_toks, lemma_tv_index, lemma_tv_len, str_eq, tv, Delim, Tok, TokV, Tokens};

verus! {

broadcast use lemma_tv_len, lemma_tv_index;

// ---- attributes ----

/// What `#[priority = N]` gives, from the tokens after the path
pub open spec fn eq_priority(t: Seq<TokV>) -> Result<u8, ErrV> {
    if !punct_at(t, 0, '=') {
        Err((ErrorKind::ExpectedEq, Seq::empty()))
    } else {
        match int_at(t, 1) {
            Err(e) => Err(e),
            Ok((v, j)) => if j < t.len() {
                Err((ErrorKind::UnexpectedToken, Seq::empty()))
            } else {
                Ok(v)
            },
        }
    }
}

/// What the inside of `#[subscribe(..)]` gives: the message type, and the
/// capacity (1 where none is written; any `u8`, suffixed or not)
pub open spec fn subscription_in(c: Seq<TokV>) -> Result<SubscriptionV, ErrV> {
    let k = next_sep(c, 0, 0, ',');
    if k == 0 {
        Err((ErrorKind::ExpectedType, Seq::empty()))
    } else if k >= c.len() {
        Ok(SubscriptionV { ty: c, capacity: 1 })
    } else {
        match name_at(c, k + 1) {
            None => Err((ErrorKind::ExpectedIdent, Seq::empty())),
            Some(x) => if x != "capacity"@ {
                Err((ErrorKind::ExpectedCapacity, x))
            } else if !punct_at(c, k + 2, '=') {
                Err((ErrorKind::ExpectedEq, Seq::empty()))
            } else {
                match literal_text_at(c, k + 3) {
                    None => Err((ErrorKind::ExpectedIntLiteral, Seq::empty())),
                    Some((text, j)) => if !int_text_ok(text) {
                        Err((ErrorKind::ExpectedIntLiteral, Seq::empty()))
                    } else {
                        match int_literal(text) {
                        None => Err((ErrorKind::ExpectedIntLiteral, Seq::empty())),
                        Some((_, None)) => Err((ErrorKind::NotAU8, text)),
                        Some((_, Some(v))) => if j < c.len() {
                            Err((ErrorKind::UnexpectedToken, Seq::empty()))
                        } else {
                            Ok(SubscriptionV { ty: c.subrange(0, k), capacity: v })
                        },
                        }
                    },
                }
            },
        }
    }
}

/// What `#[subscribe(..)]` gives, from the tokens after the path
pub open spec fn subscribe_of(t: Seq<TokV>) -> Result<SubscriptionV, ErrV> {
    match group_at(t, 0, Delim::Parenthesis) {
        None => Err((ErrorKind::ExpectedParens, Seq::empty())),
        Some(c) => match subscription_in(c) {
            Err(e) => Err(e),
            Ok(s) => if t.len() > 1 {
                Err((ErrorKind::UnexpectedToken, Seq::empty()))
            } else {
                Ok(s)
            },
        },
    }
}

/// What the attributes read so far give: the priority, the initial value
/// and the subscriptions
pub type ActorSoFar = (Option<u8>, Option<Seq<TokV>>, Seq<SubscriptionV>);

/// One attribute of an actor
pub open spec fn actor_attr_step(acc: ActorSoFar, a: AttrV) -> Result<ActorSoFar, ErrV> {
    if attr_named(a, "doc"@) {
        Ok(acc)
    } else if a.path.leading_colon || a.path.segments.len() != 1 {
        Err((ErrorKind::ActorAttribute, Seq::empty()))
    } else {
        let x = a.path.segments[0];
        if x == "priority"@ {
            if acc.0 is Some {
                Err((ErrorKind::PriorityAtMostOnce, x))
            } else {
                match eq_priority(a.tokens) {
                    Err(e) => Err(e),
                    Ok(p) => Ok((Some(p), acc.1, acc.2)),
                }
            }
        } else if x == "init"@ {
            if acc.1 is Some {
                Err((ErrorKind::ActorInitAtMostOnce, x))
            } else {
                match init_expr(a.tokens) {
                    Err(e) => Err(e),
                    Ok(v) => Ok((acc.0, Some(v), acc.2)),
                }
            }
        } else if x == "subscribe"@ {
            match subscribe_of(a.tokens) {
                Err(e) => Err(e),
                Ok(s) => Ok((acc.0, acc.1, acc.2.push(s))),
            }
        } else {
            Err((ErrorKind::ActorAttribute, x))
        }
    }
}

/// The attributes `attrs[k..]` of an actor, after `acc`
pub open spec fn actor_attrs_from(acc: ActorSoFar, attrs: Seq<AttrV>, k: int) -> Result<
    ActorSoFar,
    ErrV,
>
    decreases attrs.len() - k,
{
    if k < 0 || k >= attrs.len() {
        Ok(acc)
    } else {
        match actor_attr_step(acc, attrs[k]) {
            Err(e) => Err(e),
            Ok(acc2) => actor_attrs_from(acc2, attrs, k + 1),
        }
    }
}

/// The actor that the field `fd` of the `#[actors]` struct declares
pub open spec fn actor_of(fd: crate::parse::item::FieldV) -> Result<ActorV, ErrV> {
    if !fd.vis_inherited {
        Err((ErrorKind::FieldVisibility, fd.name))
    } else if attr_pos(fd.attrs, "cfg"@) is Some {
        Err((ErrorKind::CfgOnActor, fd.name))
    } else {
        match actor_attrs_from((None, None, seq![]), fd.attrs, 0) {
            Err(e) => Err(e),
            Ok((p, i, s)) => Ok(
                ActorV {
                    ty: fd.ty,
                    priority: match p {
                        Some(v) => v,
                        None => 1,
                    },
                    init: i,
                    subscriptions: s,
                },
            ),
        }
    }
}

// ---- reading ----

/// Reads `#[priority = N]` from the tokens after the path
fn read_eq_priority(t: &Tokens) -> (r: Result<u8, Error>)
    ensures
        res_view(r) == eq_priority(tv(t@)),
{
    if !is_punct_at(t, 0, '=') {
        return Err(error_here(ErrorKind::ExpectedEq));
    }
    match read_int(t, 1) {
        Err(e) => Err(e),
        Ok((v, j)) => if j < t.len() {
            Err(error_here(ErrorKind::UnexpectedToken))
        } else {
            Ok(v)
        },
    }
}

/// Reads the inside of `#[subscribe(..)]`
fn read_subscription(c: &Vec<Tok>) -> (r: Result<Subscription, Error>)
    ensures
        res_view(r) == subscription_in(tv(c@)),
{
    proof {
        reveal_strlit("capacity");
    }
    let k = find_sep(c, 0, ',');
    if k == 0 {
        return Err(error_here(ErrorKind::ExpectedType));
    }
    if k >= c.len() {
        return Ok(Subscription { ty: copy_toks(c), capacity: 1 });
    }
    let x = match read_name(c, k + 1) {
        None => return Err(error_here(ErrorKind::ExpectedIdent)),
        Some(x) => x,
    };
    if !str_eq(x.as_str(), "capacity") {
        return Err(error_at(ErrorKind::ExpectedCapacity, &x));
    }
    if !is_punct_at(c, k + 2, '=') {
        return Err(error_here(ErrorKind::ExpectedEq));
    }
    let i = k + 3;
    let n = c.len();
    if i >= n {
        return Err(error_here(ErrorKind::ExpectedIntLiteral));
    }
    let (text, j) = match &c[i] {
        Tok::Literal(t) => (t.clone(), i + 1),
        Tok::Punct(p, _) => {
            if *p != '-' || i + 1 >= n {
                return Err(error_here(ErrorKind::ExpectedIntLiteral));
            }
            match &c[i + 1] {
                Tok::Literal(t) => {
                    proof {
                        reveal_strlit("-");
                    }
                    let mut text = String::from_str("-");
                    text.append(t.as_str());
                    assert("-"@ =~= seq!['-']);
                    (text, i + 2)
                },
                _ => return Err(error_here(ErrorKind::ExpectedIntLiteral)),
            }
        },
        _ => return Err(error_here(ErrorKind::ExpectedIntLiteral)),
    };
    assert(literal_text_at(tv(c@), (k + 3) as int) == Some((text@, j as int)));
    if !is_int_text(text.as_str()) {
        return Err(error_here(ErrorKind::ExpectedIntLiteral));
    }
    match read_int_literal(text.as_str()) {
        None => Err(error_here(ErrorKind::ExpectedIntLiteral)),
        Some((_, None)) => Err(error_at(ErrorKind::NotAU8, &text)),
        Some((_, Some(v))) => if j < n {
            Err(error_here(ErrorKind::UnexpectedToken))
        } else {
            Ok(Subscription { ty: copy_range(c, 0, k), capacity: v })
        },
    }
}

/// Reads `#[subscribe(..)]` from the tokens after the path
fn read_subscribe(t: &Tokens) -> (r: Result<Subscription, Error>)
    ensures
        res_view(r) == subscribe_of(tv(t@)),
{
    match read_group(t, 0, Delim::Parenthesis) {
        None => Err(error_here(ErrorKind::ExpectedParens)),
        Some(c) => match read_subscription(c) {
            Err(e) => Err(e),
            Ok(s) => if t.len() > 1 {
                Err(error_here(ErrorKind::UnexpectedToken))
            } else {
                Ok(s)
            },
        },
    }
}

/// What the attributes read so far give, as values
pub open spec fn so_far_view(acc: (Option<u8>, Option<Tokens>, Vec<Subscription>)) -> ActorSoFar {
    (
        acc.0,
        match acc.1 {
            Some(x) => Some(tv(x@)),
            None => None,
        },
        subscriptions_view(acc.2@),
    )
}

/// Reads one attribute of an actor
fn read_actor_attr(
    acc: (Option<u8>, Option<Tokens>, Vec<Subscription>),
    a: &crate::ast::Attribute,
) -> (r: Result<(Option<u8>, Option<Tokens>, Vec<Subscription>), Error>)
    ensures
        match r {
            Ok(acc2) => actor_attr_step(so_far_view(acc), a@) == Ok::<ActorSoFar, ErrV>(
                so_far_view(acc2),
            ),
            Err(e) => actor_attr_step(so_far_view(acc), a@) == Err::<ActorSoFar, ErrV>(e@),
        },
{
    proof {
        reveal_strlit("priority");
        reveal_strlit("init");
        reveal_strlit("subscribe");
    }
    if attr_eq(a, "doc") {
        return Ok(acc);
    }
    if a.path.leading_colon || a.path.segments.len() != 1 {
        return Err(error_here(ErrorKind::ActorAttribute));
    }
    let x = &a.path.segments[0];
    let (priority, init, mut subs) = acc;
    if str_eq(x.as_str(), "priority") {
        if priority.is_some() {
            return Err(error_at(ErrorKind::PriorityAtMostOnce, x));
        }
        match read_eq_priority(&a.tokens) {
            Err(e) => Err(e),
            Ok(p) => Ok((Some(p), init, subs)),
        }
    } else if str_eq(x.as_str(), "init") {
        if init.is_some() {
            return Err(error_at(ErrorKind::ActorInitAtMostOnce, x));
        }
        match read_init_expr(&a.tokens) {
            Err(e) => Err(e),
            Ok(v) => Ok((priority, Some(v), subs)),
        }
    } else if str_eq(x.as_str(), "subscribe") {
        match read_subscribe(&a.tokens) {
            Err(e) => Err(e),
            Ok(s) => {
                let ghost before = subs@;
                subs.push(s);
                assert(subscriptions_view(subs@) =~= subscriptions_view(before).push(s@));
                Ok((priority, init, subs))
            },
        }
    } else {
        Err(error_at(ErrorKind::ActorAttribute, x))
    }
}

impl Actor {
    /// Reads the actor that a field of the `#[actors]` struct declares
    pub fn parse(item: &Field) -> (r: Result<Actor, Error>)
        ensures
            res_view(r) == actor_of(item@),
    {
        if !item.vis_inherited {
            return Err(error_at(ErrorKind::FieldVisibility, &item.name));
        }
        if find_attr(&item.attrs, "cfg").is_some() {
            return Err(error_at(ErrorKind::CfgOnActor, &item.name));
        }
        let ghost attrs = item@.attrs;
        let mut acc: (Option<u8>, Option<Tokens>, Vec<Subscription>) = (None, None, Vec::new());
        assert(so_far_view(acc) =~= (None::<u8>, None::<Seq<TokV>>, Seq::<SubscriptionV>::empty()));
        let mut k: usize = 0;
        while k < item.attrs.len()
            invariant
                attrs == item@.attrs,
                attrs.len() == item.attrs@.len(),
                item.vis_inherited,
                attr_pos(attrs, "cfg"@) is None,
                k <= item.attrs@.len(),
                actor_attrs_from((None, None, seq![]), attrs, 0) == actor_attrs_from(
                    so_far_view(acc),
                    attrs,
                    k as int,
                ),
            decreases item.attrs@.len() - k,
        {
            assert(attrs[k as int] == item.attrs@[k as int]@);
            let ghost before = so_far_view(acc);
            match read_actor_attr(acc, &item.attrs[k]) {
                Err(e) => {
                    assert(actor_attrs_from(before, attrs, k as int) == Err::<ActorSoFar, ErrV>(e@));
                    return Err(e);
                },
                Ok(a) => {
                    acc = a;
                    assert(actor_attrs_from(before, attrs, k as int) == actor_attrs_from(
                        so_far_view(acc),
                        attrs,
                        k + 1,
                    ));
                },
            }
            k = k + 1;
        }
        let (p, init, subscriptions) = acc;
        let priority = match p {
            Some(v) => v,
            None => 1,
        };
        Ok(Actor { ty: copy_toks(&item.ty), priority, init, subscriptions })
    }
}

} // verus!
