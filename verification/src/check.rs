//! Checks on a parsed application: declared resources, the initialization
//! of late resources, declared tasks

use vstd::prelude::*;

use crate::accessors::{accesses, ctx_accesses, inits_accesses, task_references, ResourceAccess};
use crate::analyze::declared;
use crate::analyze::lemma_get_push;
use crate::ast::{
    contains_key, find_key, get, has_key, has_name, keys_unique, lemma_get_at, App, Init,
};
use crate::error::{error_at, error_here, Error, ErrorKind};

verus! {

/// The outcome of the checks
pub enum Verdict {
    /// Every check passes
    Pass,
    /// A check fails with this error, pointing to this name
    Fail(ErrorKind, Seq<char>),
    /// A check fails with this error, pointing to one of these names
    FailAtOneOf(ErrorKind, Set<Seq<char>>),
}

/// The first accessed resource that is not declared
pub open spec fn first_undeclared(app: App, accs: Seq<ResourceAccess>) -> Option<Seq<char>>
    decreases accs.len(),
{
    if accs.len() == 0 {
        None
    } else if !declared(app, accs[0].2@) {
        Some(accs[0].2@)
    } else {
        first_undeclared(app, accs.drop_first())
    }
}

/// The first of the names that is a late resource
pub open spec fn first_late(app: App, res: Seq<(String, crate::ast::Access)>) -> Option<
    Seq<char>,
>
    decreases res.len(),
{
    if res.len() == 0 {
        None
    } else if has_key(app.late_resources@, res[0].0@) {
        Some(res[0].0@)
    } else {
        first_late(app, res.drop_first())
    }
}

/// The first late resource that some `init` accesses
pub open spec fn first_late_in_init(app: App, inits: Seq<(u8, Init)>) -> Option<Seq<char>>
    decreases inits.len(),
{
    if inits.len() == 0 {
        None
    } else {
        match first_late(app, inits[0].1.args.resources@) {
            Some(n) => Some(n),
            None => first_late_in_init(app, inits.drop_first()),
        }
    }
}

/// The name of the first `init` that returns late resources
pub open spec fn first_returning(inits: Seq<(u8, Init)>) -> Option<Seq<char>>
    decreases inits.len(),
{
    if inits.len() == 0 {
        None
    } else if inits[0].1.returns_late_resources {
        Some(inits[0].1.name@)
    } else {
        first_returning(inits.drop_first())
    }
}

/// While splitting late resources between cores: the late resources not yet
/// initialized, the core that initializes each initialized one, and the core
/// that initializes "the rest"
pub type LateState = (Set<Seq<char>>, Map<Seq<char>, u8>, Option<u8>);

/// The names of the late resources
pub open spec fn late_names(app: App) -> Set<Seq<char>> {
    Set::new(|k: Seq<char>| has_key(app.late_resources@, k))
}

/// Core `core` initializes the late resources `names`
pub open spec fn late_list(app: App, st: LateState, core: u8, names: Seq<String>) -> Result<
    LateState,
    (ErrorKind, Seq<char>),
>
    decreases names.len(),
{
    if names.len() == 0 {
        Ok(st)
    } else {
        match late_list(app, st, core, names.drop_last()) {
            Err(e) => Err(e),
            Ok(s) => {
                let r = names.last()@;
                if !has_key(app.late_resources@, r) {
                    Err((ErrorKind::NotALateResource, r))
                } else if s.1.contains_key(r) {
                    Err((ErrorKind::InitializedByCore(s.1[r]), r))
                } else {
                    Ok((s.0.remove(r), s.1.insert(r, core), s.2))
                }
            },
        }
    }
}

/// The `init` of core `core` takes its share of the late resources
pub open spec fn late_step(app: App, st: LateState, core: u8, init: Init) -> Result<
    LateState,
    (ErrorKind, Seq<char>),
> {
    if !init.returns_late_resources {
        Ok(st)
    } else if !(exists|k: Seq<char>| st.0.contains(k)) {
        Err((ErrorKind::NoMoreLateResources, init.name@))
    } else if init.args.late@.len() > 0 {
        late_list(app, st, core, init.args.late@)
    } else {
        match st.2 {
            Some(r) => Err((ErrorKind::UnclearSplit(r, core), init.name@)),
            None => Ok((st.0, st.1, Some(core))),
        }
    }
}

/// The `init`s, core by core, take their shares of the late resources
pub open spec fn late_fold(app: App, inits: Seq<(u8, Init)>) -> Result<
    LateState,
    (ErrorKind, Seq<char>),
>
    decreases inits.len(),
{
    if inits.len() == 0 {
        Ok((late_names(app), Map::empty(), None))
    } else {
        match late_fold(app, inits.drop_last()) {
            Err(e) => Err(e),
            Ok(st) => late_step(app, st, inits.last().0, inits.last().1),
        }
    }
}

/// The checks on the initialization of late resources
pub open spec fn late_verdict(app: App) -> Verdict {
    if app.late_resources@.len() == 0 {
        match first_returning(app.inits@) {
            Some(n) => Verdict::Fail(ErrorKind::MustNotReturnLateResources, n),
            None => Verdict::Pass,
        }
    } else if app.args.cores == 1 {
        if app.inits@.len() > 0 && app.inits@[0].0 == 0 {
            if !app.inits@[0].1.returns_late_resources {
                Verdict::Fail(ErrorKind::MustReturnLateResources, app.inits@[0].1.name@)
            } else {
                Verdict::Pass
            }
        } else {
            Verdict::Fail(ErrorKind::InitRequired, Seq::empty())
        }
    } else {
        match late_fold(app, app.inits@) {
            Err((k, n)) => Verdict::Fail(k, n),
            Ok(st) => if (exists|k: Seq<char>| st.0.contains(k)) && st.2 is None {
                Verdict::FailAtOneOf(ErrorKind::NotBeingInitialized, st.0)
            } else {
                Verdict::Pass
            },
        }
    }
}

/// The name belongs to a hardware or a software task
pub open spec fn is_task(app: App, n: Seq<char>) -> bool {
    has_key(app.hardware_tasks@, n) || has_key(app.software_tasks@, n)
}

/// The first referenced task that is not declared
pub open spec fn first_unknown_task(app: App, refs: Seq<String>) -> Option<Seq<char>>
    decreases refs.len(),
{
    if refs.len() == 0 {
        None
    } else if !is_task(app, refs[0]@) {
        Some(refs[0]@)
    } else {
        first_unknown_task(app, refs.drop_first())
    }
}

/// All checks, in order; the first that fails decides
pub open spec fn check_spec(app: App) -> Verdict {
    match first_undeclared(app, accesses(app)) {
        Some(n) => Verdict::Fail(ErrorKind::ResourceNotDeclared, n),
        None => match first_late_in_init(app, app.inits@) {
            Some(n) => Verdict::Fail(ErrorKind::LateResourceAssignedToInit, n),
            None => match late_verdict(app) {
                Verdict::Pass => match first_unknown_task(app, task_references(app)) {
                    Some(n) => Verdict::Fail(ErrorKind::TaskNotDeclared, n),
                    None => Verdict::Pass,
                },
                v => v,
            },
        },
    }
}

/// The result agrees with the verdict
pub open spec fn agrees(v: Verdict, r: Result<(), Error>) -> bool {
    match v {
        Verdict::Pass => r is Ok,
        Verdict::Fail(k, n) => r matches Err(e) && e.kind == k && e.at@ == n,
        Verdict::FailAtOneOf(k, s) => r matches Err(e) && e.kind == k && s.contains(e.at@),
    }
}

// ------------------------------------------------------------------------
// Implementation
// ------------------------------------------------------------------------

/// Is the name that of a declared resource?
fn is_declared(a: &App, n: &String) -> (r: bool)
    ensures
        r == declared(*a, n@),
{
    contains_key(&a.late_resources, n) || contains_key(&a.resources, n)
}

/// The position of the first access to an undeclared resource
fn find_undeclared(a: &App, accs: &Vec<ResourceAccess>) -> (r: Option<usize>)
    ensures
        r is None <==> first_undeclared(*a, accs@) is None,
        r matches Some(i) ==> i < accs@.len() && first_undeclared(*a, accs@) == Some(
            accs@[i as int].2@,
        ),
{
    let mut i: usize = 0;
    assert(accs@.skip(0) =~= accs@);
    while i < accs.len()
        invariant
            i <= accs@.len(),
            first_undeclared(*a, accs@) == first_undeclared(*a, accs@.skip(i as int)),
        decreases accs@.len() - i,
    {
        assert(accs@.skip(i as int)[0] == accs@[i as int]);
        if !is_declared(a, &accs[i].2) {
            return Some(i);
        }
        assert(accs@.skip(i as int).drop_first() =~= accs@.skip(i as int + 1));
        i = i + 1;
    }
    None
}

/// The first late resource that an `init` accesses: positions of the `init`
/// and of the resource in its list
fn find_late_in_init(a: &App) -> (r: Option<(usize, usize)>)
    ensures
        r is None <==> first_late_in_init(*a, a.inits@) is None,
        r matches Some((i, j)) ==> i < a.inits@.len() && j
            < a.inits@[i as int].1.args.resources@.len() && first_late_in_init(*a, a.inits@) == Some(
            a.inits@[i as int].1.args.resources@[j as int].0@,
        ),
{
    let inits = &a.inits;
    let mut i: usize = 0;
    assert(inits@.skip(0) =~= inits@);
    while i < inits.len()
        invariant
            inits == &a.inits,
            i <= inits@.len(),
            first_late_in_init(*a, inits@) == first_late_in_init(*a, inits@.skip(i as int)),
        decreases inits@.len() - i,
    {
        let res = &inits[i].1.args.resources;
        assert(inits@.skip(i as int)[0] == inits@[i as int]);
        let mut j: usize = 0;
        assert(res@.skip(0) =~= res@);
        while j < res.len()
            invariant
                inits == &a.inits,
                i < inits@.len(),
                res == &inits@[i as int].1.args.resources,
                j <= res@.len(),
                first_late_in_init(*a, inits@) == first_late_in_init(*a, inits@.skip(i as int)),
                inits@.skip(i as int)[0] == inits@[i as int],
                first_late(*a, res@) == first_late(*a, res@.skip(j as int)),
            decreases res@.len() - j,
        {
            assert(res@.skip(j as int)[0] == res@[j as int]);
            if contains_key(&a.late_resources, &res[j].0) {
                assert(first_late(*a, res@) == Some(res@[j as int].0@));
                assert(first_late_in_init(*a, inits@.skip(i as int)) == Some(res@[j as int].0@));
                return Some((i, j));
            }
            assert(res@.skip(j as int).drop_first() =~= res@.skip(j as int + 1));
            j = j + 1;
        }
        assert(inits@.skip(i as int).drop_first() =~= inits@.skip(i as int + 1));
        i = i + 1;
    }
    None
}

/// The first `init` that returns late resources
fn find_returning(inits: &Vec<(u8, Init)>) -> (r: Option<usize>)
    ensures
        r is None <==> first_returning(inits@) is None,
        r matches Some(i) ==> i < inits@.len() && first_returning(inits@) == Some(
            inits@[i as int].1.name@,
        ),
{
    let mut i: usize = 0;
    assert(inits@.skip(0) =~= inits@);
    while i < inits.len()
        invariant
            i <= inits@.len(),
            first_returning(inits@) == first_returning(inits@.skip(i as int)),
        decreases inits@.len() - i,
    {
        assert(inits@.skip(i as int)[0] == inits@[i as int]);
        if inits[i].1.returns_late_resources {
            return Some(i);
        }
        assert(inits@.skip(i as int).drop_first() =~= inits@.skip(i as int + 1));
        i = i + 1;
    }
    None
}

/// The first referenced task that is not declared
fn find_unknown_task(a: &App, refs: &Vec<String>) -> (r: Option<usize>)
    ensures
        r is None <==> first_unknown_task(*a, refs@) is None,
        r matches Some(i) ==> i < refs@.len() && first_unknown_task(*a, refs@) == Some(
            refs@[i as int]@,
        ),
{
    let mut i: usize = 0;
    assert(refs@.skip(0) =~= refs@);
    while i < refs.len()
        invariant
            i <= refs@.len(),
            first_unknown_task(*a, refs@) == first_unknown_task(*a, refs@.skip(i as int)),
        decreases refs@.len() - i,
    {
        assert(refs@.skip(i as int)[0] == refs@[i as int]);
        if !contains_key(&a.hardware_tasks, &refs[i]) && !contains_key(&a.software_tasks, &refs[i]) {
            return Some(i);
        }
        assert(refs@.skip(i as int).drop_first() =~= refs@.skip(i as int + 1));
        i = i + 1;
    }
    None
}

/// An error in a prefix of the `init`s is the error of all of them
proof fn lemma_late_fold_err(app: App, inits: Seq<(u8, Init)>, j: int)
    requires
        0 <= j <= inits.len(),
        late_fold(app, inits.take(j)) is Err,
    ensures
        late_fold(app, inits) == late_fold(app, inits.take(j)),
    decreases inits.len(),
{
    if j < inits.len() {
        assert(inits.drop_last().take(j) =~= inits.take(j));
        lemma_late_fold_err(app, inits.drop_last(), j);
    } else {
        assert(inits.take(j) =~= inits);
    }
}

/// An error in a prefix of a list of late resources is the error of all of them
proof fn lemma_late_list_err(app: App, st: LateState, core: u8, names: Seq<String>, j: int)
    requires
        0 <= j <= names.len(),
        late_list(app, st, core, names.take(j)) is Err,
    ensures
        late_list(app, st, core, names) == late_list(app, st, core, names.take(j)),
    decreases names.len(),
{
    if j < names.len() {
        assert(names.drop_last().take(j) =~= names.take(j));
        lemma_late_list_err(app, st, core, names.drop_last(), j);
    } else {
        assert(names.take(j) =~= names);
    }
}

/// The executable state mirrors the state of the specification
spec fn mirrors(st: LateState, remaining: Seq<String>, initialized: Seq<(String, u8)>, rest: Option<u8>) -> bool {
    &&& forall|n: Seq<char>| st.0.contains(n) <==> has_name(remaining, n)
    &&& forall|n: Seq<char>| st.1.contains_key(n) <==> has_key(initialized, n)
    &&& forall|n: Seq<char>| st.1.contains_key(n) ==> st.1[n] == get(initialized, n)
    &&& keys_unique(initialized)
    &&& rest == st.2
}

/// Removes a name from a set of names
fn remove_name(v: &mut Vec<String>, k: &String)
    ensures
        forall|n: Seq<char>| has_name(final(v)@, n) <==> (has_name(old(v)@, n) && n != k@),
{
    let mut out: Vec<String> = Vec::new();
    let mut i: usize = 0;
    while i < v.len()
        invariant
            v@ == old(v)@,
            i <= v@.len(),
            forall|n: Seq<char>| has_name(out@, n) <==> (has_name(v@.take(i as int), n) && n != k@),
        decreases v@.len() - i,
    {
        let ghost pre = v@.take(i as int);
        let ghost post = v@.take(i as int + 1);
        assert(post =~= pre.push(v@[i as int]));
        let ghost before = out@;
        if !crate::tokens::str_eq(v[i].as_str(), k.as_str()) {
            out.push(v[i].clone());
        }
        proof {
            assert forall|n: Seq<char>| has_name(out@, n) <==> (has_name(post, n) && n != k@) by {
                assert(has_name(before, n) == (has_name(pre, n) && n != k@));
                if has_name(out@, n) {
                    let m = choose|m: int| 0 <= m < out@.len() && out@[m]@ == n;
                    if m < before.len() {
                        assert(before[m]@ == n);
                        assert(has_name(before, n));
                        let q = choose|q: int| 0 <= q < pre.len() && pre[q]@ == n;
                        assert(post[q]@ == n);
                    } else {
                        assert(post[i as int]@ == n);
                    }
                }
                if has_name(post, n) && n != k@ {
                    let m = choose|m: int| 0 <= m < post.len() && post[m]@ == n;
                    if m < i {
                        assert(pre[m]@ == n);
                        assert(has_name(pre, n));
                        let q = choose|q: int| 0 <= q < before.len() && before[q]@ == n;
                        assert(out@[q]@ == n);
                    } else {
                        assert(out@[out@.len() - 1]@ == n);
                    }
                }
            }
        }
        i = i + 1;
    }
    assert(v@.take(v@.len() as int) =~= v@);
    *v = out;
}

/// Splits the late resources between the cores' `init`s; on success, the
/// late resources no `init` names and the core that initializes "the rest"
fn late_split(a: &App) -> (r: Result<(Vec<String>, Option<u8>), Error>)
    ensures
        match late_fold(*a, a.inits@) {
            Err((k, n)) => r matches Err(e) && e.kind == k && e.at@ == n,
            Ok(st) => r matches Ok((rem, rest)) && (forall|n: Seq<char>|
                st.0.contains(n) <==> has_name(rem@, n)) && rest == st.2,
        },
{
    let mut remaining: Vec<String> = Vec::new();
    let late = &a.late_resources;
    let mut i: usize = 0;
    while i < late.len()
        invariant
            i <= late@.len(),
            forall|n: Seq<char>| has_name(remaining@, n) <==> has_key(late@.take(i as int), n),
        decreases late@.len() - i,
    {
        let ghost before = remaining@;
        remaining.push(late[i].0.clone());
        proof {
            let pre = late@.take(i as int);
            let post = late@.take(i as int + 1);
            assert forall|n: Seq<char>| has_name(remaining@, n) <==> has_key(post, n) by {
                assert(has_name(before, n) == has_key(pre, n));
                if has_name(remaining@, n) {
                    let m = choose|m: int| 0 <= m < remaining@.len() && remaining@[m]@ == n;
                    if m < before.len() {
                        assert(before[m]@ == n);
                        assert(has_name(before, n));
                        let q = choose|q: int| 0 <= q < pre.len() && pre[q].0@ == n;
                        assert(post[q].0@ == n);
                    } else {
                        assert(post[i as int].0@ == n);
                    }
                }
                if has_key(post, n) {
                    let m = choose|m: int| 0 <= m < post.len() && post[m].0@ == n;
                    if m < i {
                        assert(pre[m].0@ == n);
                        assert(has_key(pre, n));
                        let q = choose|q: int| 0 <= q < before.len() && before[q]@ == n;
                        assert(remaining@[q]@ == n);
                    } else {
                        assert(remaining@[remaining@.len() - 1]@ == n);
                    }
                }
            }
        }
        i = i + 1;
    }
    assert(late@.take(late@.len() as int) =~= late@);
    let mut initialized: Vec<(String, u8)> = Vec::new();
    let mut rest: Option<u8> = None;
    let ghost mut st: LateState = (late_names(*a), Map::empty(), None);
    let inits = &a.inits;
    assert(inits@.take(0) =~= Seq::<(u8, Init)>::empty());
    let mut i: usize = 0;
    while i < inits.len()
        invariant
            inits == &a.inits,
            i <= inits@.len(),
            late_fold(*a, inits@.take(i as int)) == Ok::<LateState, (ErrorKind, Seq<char>)>(st),
            mirrors(st, remaining@, initialized@, rest),
        decreases inits@.len() - i,
    {
        assert(inits@.take(i as int + 1).drop_last() =~= inits@.take(i as int));
        let core = inits[i].0;
        let init = &inits[i].1;
        if !init.returns_late_resources {
            i = i + 1;
            continue;
        }
        if remaining.len() == 0 {
            proof {
                assert forall|k: Seq<char>| !st.0.contains(k) by {
                    assert(!has_name(remaining@, k));
                }
                lemma_late_fold_err(*a, inits@, i as int + 1);
            }
            return Err(error_at(ErrorKind::NoMoreLateResources, &init.name));
        }
        assert(has_name(remaining@, remaining@[0]@));
        assert(st.0.contains(remaining@[0]@));
        if init.args.late.len() > 0 {
            let names = &init.args.late;
            let ghost st0 = st;
            assert(names@.take(0) =~= Seq::<String>::empty());
            let mut j: usize = 0;
            while j < names.len()
                invariant
                    names == &init.args.late,
                    inits == &a.inits,
                    i < inits@.len(),
                    init == &inits@[i as int].1,
                    core == inits@[i as int].0,
                    init.returns_late_resources,
                    exists|k: Seq<char>| st0.0.contains(k),
                    init.args.late@.len() > 0,
                    late_fold(*a, inits@.take(i as int)) == Ok::<LateState, (ErrorKind, Seq<char>)>(st0),
                    inits@.take(i as int + 1).drop_last() == inits@.take(i as int),
                    j <= names@.len(),
                    late_list(*a, st0, core, names@.take(j as int)) == Ok::<
                        LateState,
                        (ErrorKind, Seq<char>),
                    >(st),
                    mirrors(st, remaining@, initialized@, rest),
                decreases names@.len() - j,
            {
                assert(names@.take(j as int + 1).drop_last() =~= names@.take(j as int));
                let r = &names[j];
                if !contains_key(&a.late_resources, r) {
                    proof {
                        lemma_late_list_err(*a, st0, core, names@, j as int + 1);
                        lemma_late_fold_err(*a, inits@, i as int + 1);
                    }
                    return Err(error_at(ErrorKind::NotALateResource, r));
                }
                match find_key(&initialized, r) {
                    Some(k) => {
                        proof {
                            lemma_get_at(initialized@, k as int);
                            lemma_late_list_err(*a, st0, core, names@, j as int + 1);
                            lemma_late_fold_err(*a, inits@, i as int + 1);
                        }
                        return Err(error_at(ErrorKind::InitializedByCore(initialized[k].1), r));
                    },
                    None => {},
                }
                remove_name(&mut remaining, r);
                let ghost before = initialized@;
                initialized.push((r.clone(), core));
                proof {
                    let e = (names@[j as int], core);
                    assert forall|n: Seq<char>| #[trigger] has_key(initialized@, n) == (has_key(before, n) || n == r@) by {
                        lemma_get_push(before, e, n);
                    }
                    assert forall|n: Seq<char>| #[trigger] st.1.insert(r@, core).contains_key(n) implies st.1.insert(r@, core)[n] == get(initialized@, n) by {
                        lemma_get_push(before, e, n);
                    }
                    lemma_get_push(before, e, r@);
                    st = (st.0.remove(r@), st.1.insert(r@, core), st.2);
                }
                j = j + 1;
            }
            assert(names@.take(names@.len() as int) =~= names@);
        } else {
            match rest {
                Some(r) => {
                    proof {
                        lemma_late_fold_err(*a, inits@, i as int + 1);
                    }
                    return Err(error_at(ErrorKind::UnclearSplit(r, core), &init.name));
                },
                None => {
                    rest = Some(core);
                    proof {
                        st = (st.0, st.1, Some(core));
                    }
                },
            }
        }
        i = i + 1;
    }
    assert(inits@.take(inits@.len() as int) =~= inits@);
    Ok((remaining, rest))
}

/// The checks on the initialization of late resources
fn late_check(a: &App) -> (r: Result<(), Error>)
    ensures
        agrees(late_verdict(*a), r),
{
    if a.late_resources.len() == 0 {
        match find_returning(&a.inits) {
            Some(i) => Err(error_at(ErrorKind::MustNotReturnLateResources, &a.inits[i].1.name)),
            None => Ok(()),
        }
    } else if a.args.cores == 1 {
        if a.inits.len() > 0 && a.inits[0].0 == 0 {
            if !a.inits[0].1.returns_late_resources {
                Err(error_at(ErrorKind::MustReturnLateResources, &a.inits[0].1.name))
            } else {
                Ok(())
            }
        } else {
            Err(error_here(ErrorKind::InitRequired))
        }
    } else {
        match late_split(a) {
            Err(e) => Err(e),
            Ok((remaining, rest)) => {
                if remaining.len() > 0 && rest.is_none() {
                    assert(has_name(remaining@, remaining@[0]@));
                    Err(error_at(ErrorKind::NotBeingInitialized, &remaining[0]))
                } else {
                    proof {
                        if remaining@.len() == 0 {
                            assert forall|k: Seq<char>| !has_name(remaining@, k) by {}
                        }
                    }
                    Ok(())
                }
            },
        }
    }
}

/// Checks an application: every accessed resource is declared, no `init`
/// accesses a late resource, the late resources are initialized exactly
/// once (by the single `init`, or split between the cores' `init`s), and
/// every spawned or scheduled task is declared
pub fn app(a: &App) -> (r: Result<(), Error>)
    ensures
        agrees(check_spec(*a), r),
{
    let accs = a.resource_accesses();
    match find_undeclared(a, &accs) {
        Some(i) => {
            return Err(error_at(ErrorKind::ResourceNotDeclared, &accs[i].2));
        },
        None => {},
    }
    match find_late_in_init(a) {
        Some((i, j)) => {
            return Err(
                error_at(ErrorKind::LateResourceAssignedToInit, &a.inits[i].1.args.resources[j].0),
            );
        },
        None => {},
    }
    match late_check(a) {
        Err(e) => {
            return Err(e);
        },
        Ok(()) => {},
    }
    let refs = a.task_references();
    match find_unknown_task(a, &refs) {
        Some(i) => Err(error_at(ErrorKind::TaskNotDeclared, &refs[i])),
        None => Ok(()),
    }
}

// ------------------------------------------------------------------------
// What passing the checks gives
// ------------------------------------------------------------------------

proof fn lemma_none_undeclared(app: App, accs: Seq<ResourceAccess>)
    requires
        first_undeclared(app, accs) is None,
    ensures
        forall|i: int| 0 <= i < accs.len() ==> declared(app, #[trigger] accs[i].2@),
    decreases accs.len(),
{
    if accs.len() > 0 {
        lemma_none_undeclared(app, accs.drop_first());
        assert forall|i: int| 0 <= i < accs.len() implies declared(app, #[trigger] accs[i].2@) by {
            if i > 0 {
                assert(accs[i] == accs.drop_first()[i - 1]);
            }
        }
    }
}

proof fn lemma_none_late(app: App, res: Seq<(String, crate::ast::Access)>)
    requires
        first_late(app, res) is None,
    ensures
        forall|j: int| 0 <= j < res.len() ==> !has_key(app.late_resources@, #[trigger] res[j].0@),
    decreases res.len(),
{
    if res.len() > 0 {
        lemma_none_late(app, res.drop_first());
        assert forall|j: int| 0 <= j < res.len() implies !has_key(
            app.late_resources@,
            #[trigger] res[j].0@,
        ) by {
            if j > 0 {
                assert(res[j] == res.drop_first()[j - 1]);
            }
        }
    }
}

proof fn lemma_none_late_in_init(app: App, inits: Seq<(u8, Init)>)
    requires
        first_late_in_init(app, inits) is None,
    ensures
        forall|i: int, j: int|
            0 <= i < inits.len() && 0 <= j < inits[i].1.args.resources@.len() ==> !has_key(
                app.late_resources@,
                #[trigger] inits[i].1.args.resources@[j].0@,
            ),
    decreases inits.len(),
{
    if inits.len() > 0 {
        lemma_none_late(app, inits[0].1.args.resources@);
        lemma_none_late_in_init(app, inits.drop_first());
        assert forall|i: int, j: int|
            0 <= i < inits.len() && 0 <= j < inits[i].1.args.resources@.len() implies !has_key(
            app.late_resources@,
            #[trigger] inits[i].1.args.resources@[j].0@,
        ) by {
            if i > 0 {
                assert(inits[i] == inits.drop_first()[i - 1]);
                assert(!has_key(
                    app.late_resources@,
                    inits.drop_first()[i - 1].1.args.resources@[j].0@,
                ));
            } else {
                assert(!has_key(app.late_resources@, inits[0].1.args.resources@[j].0@));
            }
        }
    }
}

proof fn lemma_init_access(s: Seq<(u8, Init)>, i: int, j: int)
    requires
        0 <= i < s.len(),
        0 <= j < s[i].1.args.resources@.len(),
    ensures
        exists|k: int|
            0 <= k < inits_accesses(s).len() && #[trigger] inits_accesses(s)[k].2
                == s[i].1.args.resources@[j].0,
    decreases s.len(),
{
    let pre = inits_accesses(s.drop_last());
    let last = ctx_accesses(s.last().0, None, s.last().1.args.resources@);
    assert(inits_accesses(s) == pre + last);
    if i == s.len() - 1 {
        let k = pre.len() + j;
        assert(s.last() == s[i]);
        assert(last.len() == s[i].1.args.resources@.len());
        assert(last[j].2 == s[i].1.args.resources@[j].0);
        assert(inits_accesses(s)[k] == last[j]);
        assert(inits_accesses(s)[k].2 == s[i].1.args.resources@[j].0);
    } else {
        assert(s[i] == s.drop_last()[i]);
        lemma_init_access(s.drop_last(), i, j);
        let k = choose|k: int|
            0 <= k < pre.len() && #[trigger] pre[k].2 == s[i].1.args.resources@[j].0;
        assert(inits_accesses(s)[k] == pre[k]);
        assert(inits_accesses(s)[k].2 == s[i].1.args.resources@[j].0);
    }
}

/// Passing the checks means that every resource accessed is declared, and
/// that every resource that an `init` function accesses is an early one
pub proof fn law_check_pass(app: App)
    requires
        check_spec(app) == Verdict::Pass,
    ensures
        forall|i: int|
            0 <= i < accesses(app).len() ==> declared(app, #[trigger] accesses(app)[i].2@),
        forall|i: int, j: int|
            0 <= i < app.inits@.len() && 0 <= j < app.inits@[i].1.args.resources@.len() ==> has_key(
                app.resources@,
                #[trigger] app.inits@[i].1.args.resources@[j].0@,
            ),
{
    lemma_none_undeclared(app, accesses(app));
    lemma_none_late_in_init(app, app.inits@);
    assert forall|i: int, j: int|
        0 <= i < app.inits@.len() && 0 <= j < app.inits@[i].1.args.resources@.len() implies has_key(
        app.resources@,
        #[trigger] app.inits@[i].1.args.resources@[j].0@,
    ) by {
        lemma_init_access(app.inits@, i, j);
        let k = choose|k: int|
            0 <= k < inits_accesses(app.inits@).len() && #[trigger] inits_accesses(app.inits@)[k].2
                == app.inits@[i].1.args.resources@[j].0;
        assert(accesses(app)[k] == inits_accesses(app.inits@)[k]);
        assert(declared(app, accesses(app)[k].2@));
    }
}

} // verus!
