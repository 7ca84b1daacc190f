//! RTIC application analysis

use vstd::prelude::*;

use crate::accessors::{accesses, ResourceAccess};
use crate::ast::{
    find_key, get, has_key, has_name, key_pos, keys_unique, lemma_get_at, Access, Actor, App,
    Init, LateResource, NameMap, Resource, SoftwareTask, Subscription,
};
use crate::names::{location_entries, location_map, named_entries, ownership_entries, ownership_map};
use crate::order::{sorted_insert, str_lt, strictly_sorted};
use crate::tokens::{copy_toks, toks_eq, tv, TokV, Tokens};

verus! {

broadcast use vstd::laws_cmp::group_laws_cmp;

/// Priority ceiling
pub type Ceiling = Option<u8>;

/// Task priority
pub type Priority = u8;

/// Resource ownership
#[derive(Clone, Copy, Debug, PartialEq, Eq, Structural)]
pub enum Ownership {
    /// Owned by a single task
    Owned {
        /// Priority of the task that owns this resource
        priority: u8,
    },
    /// "Co-owned" by more than one task; all of them have the same priority
    CoOwned {
        /// Priority of the tasks that co-own this resource
        priority: u8,
    },
    /// Contended by more than one task; the tasks have different priorities
    Contended {
        /// Priority ceiling
        ceiling: u8,
    },
}

impl Ownership {
    /// Whether this resource needs to a lock at this priority level
    pub fn needs_lock(&self, priority: u8) -> (r: bool)
        requires
            *self matches Ownership::Contended { ceiling } ==> priority <= ceiling,
        ensures
            r == (*self matches Ownership::Contended { ceiling } && priority < ceiling),
    {
        match self {
            Ownership::Owned { .. } => false,
            Ownership::CoOwned { .. } => false,
            Ownership::Contended { ceiling } => priority < *ceiling,
        }
    }

    /// Whether this resource is exclusively owned
    pub fn is_owned(&self) -> (r: bool)
        ensures
            r == (self is Owned),
    {
        match self {
            Ownership::Owned { .. } => true,
            _ => false,
        }
    }
}

/// Resource location
#[derive(Clone, Copy, Debug, PartialEq, Eq, Structural)]
pub enum Location {
    /// resource that is owned
    Owned,
}

/// What a channel dispatches to
#[derive(Debug)]
pub enum Spawnee {
    /// A software task
    Task {
        /// The task's name
        name: String,
    },
    /// One subscription of an actor
    Actor {
        /// The actor's name
        name: String,
        /// The position of the subscription among the actor's
        subscription_index: usize,
    },
}

/// The value of a [`Spawnee`]
pub enum SpawneeV {
    /// A software task, by name
    Task(Seq<char>),
    /// An actor, by name, and the position of its subscription
    Actor(Seq<char>, int),
}

impl View for Spawnee {
    type V = SpawneeV;

    open spec fn view(&self) -> SpawneeV {
        match self {
            Spawnee::Task { name } => SpawneeV::Task(name@),
            Spawnee::Actor { name, subscription_index } => SpawneeV::Actor(
                name@,
                *subscription_index as int,
            ),
        }
    }
}

/// The value of a sequence of spawnees
pub open spec fn spawnees_view(s: Seq<Spawnee>) -> Seq<SpawneeV> {
    s.map_values(|x: Spawnee| x@)
}

/// A channel used to send messages
#[derive(Debug)]
pub struct Channel {
    /// The channel capacity
    pub capacity: u8,
    /// Tasks that can be spawned on this channel, in the order of their names
    pub tasks: Vec<String>,
    /// What the channel dispatches to: its tasks, in the order of their
    /// names, then the subscriptions of the actors at its priority, actor by
    /// actor in the order they are declared
    pub spawnees: Vec<Spawnee>,
}

/// The result of analyzing an RTIC application
#[derive(Debug)]
pub struct Analysis {
    /// SPSC message channels, by dispatch priority
    pub channels: std::collections::BTreeMap<Priority, Channel>,
    /// The late resources: at most one set, the one the first `init` initializes
    pub late_resources: Vec<Vec<String>>,
    /// Location of all *used* resources
    ///
    /// If a resource is not listed here it means that's a "dead" (never
    /// accessed) resource and the backend should not generate code for it
    pub locations: indexmap::IndexMap<String, Location>,
    /// Resource ownership
    pub ownerships: indexmap::IndexMap<String, Ownership>,
    /// These types must implement the `Send` trait
    pub send_types: Vec<Tokens>,
    /// These types must implement the `Sync` trait
    pub sync_types: Vec<Tokens>,
}

// ------------------------------------------------------------------------
// Specification
// ------------------------------------------------------------------------

/// The priority an ownership is held at: the owner's priority or the ceiling
pub open spec fn ceiling_of(o: Ownership) -> u8 {
    match o {
        Ownership::Owned { priority } => priority,
        Ownership::CoOwned { priority } => priority,
        Ownership::Contended { ceiling } => ceiling,
    }
}

/// The larger of two priorities
pub open spec fn max_u8(a: u8, b: u8) -> u8 {
    if a >= b {
        a
    } else {
        b
    }
}

/// The ownership of a resource after one more access at priority `p`
pub open spec fn own_next(o: Ownership, p: u8) -> Ownership {
    if p != ceiling_of(o) {
        Ownership::Contended { ceiling: max_u8(ceiling_of(o), p) }
    } else if o is Owned {
        Ownership::CoOwned { priority: p }
    } else {
        o
    }
}

/// Resource ownerships after the accesses `accs`, in the order in which the
/// resources were first accessed from a context with a priority
pub open spec fn ownerships_after(accs: Seq<ResourceAccess>) -> Seq<(String, Ownership)>
    decreases accs.len(),
{
    if accs.len() == 0 {
        seq![]
    } else {
        let prev = ownerships_after(accs.drop_last());
        let a = accs.last();
        match a.1 {
            None => prev,
            Some(p) => if has_key(prev, a.2@) {
                let i = key_pos(prev, a.2@);
                prev.update(i, (prev[i].0, own_next(prev[i].1, p)))
            } else {
                prev.push((a.2, Ownership::Owned { priority: p }))
            },
        }
    }
}

/// The resources that `accs` access, in the order of their first access
pub open spec fn locations_after(accs: Seq<ResourceAccess>) -> Seq<(String, Location)>
    decreases accs.len(),
{
    if accs.len() == 0 {
        seq![]
    } else {
        let prev = locations_after(accs.drop_last());
        if has_key(prev, accs.last().2@) {
            prev
        } else {
            prev.push((accs.last().2, Location::Owned))
        }
    }
}

/// The name belongs to a late or an early resource
pub open spec fn declared(app: App, k: Seq<char>) -> bool {
    has_key(app.late_resources@, k) || has_key(app.resources@, k)
}

/// The type of the resource named `k`: a late resource's if there is one,
/// else the early resource's
pub open spec fn resource_ty(app: App, k: Seq<char>) -> Seq<TokV> {
    if has_key(app.late_resources@, k) {
        tv(get(app.late_resources@, k).ty@)
    } else {
        tv(get(app.resources@, k).late.ty@)
    }
}

/// Adds a type to an ordered set of types
pub open spec fn type_insert(s: Seq<Seq<TokV>>, t: Seq<TokV>) -> Seq<Seq<TokV>> {
    if s.contains(t) {
        s
    } else {
        s.push(t)
    }
}

/// Adds types one after the other to an ordered set of types
pub open spec fn insert_all(s: Seq<Seq<TokV>>, ts: Seq<Seq<TokV>>) -> Seq<Seq<TokV>>
    decreases ts.len(),
{
    if ts.len() == 0 {
        s
    } else {
        type_insert(insert_all(s, ts.drop_last()), ts.last())
    }
}

/// The values of a vector of types
pub open spec fn type_views(v: Seq<Tokens>) -> Seq<Seq<TokV>> {
    v.map_values(|t: Tokens| tv(t@))
}

/// The `Sync` types after the accesses `accs`: an access from a priority
/// other than the resource's current ceiling turns the resource contended,
/// and when that access is shared the resource's type must be `Sync`
pub open spec fn sync_after(app: App, accs: Seq<ResourceAccess>) -> Seq<Seq<TokV>>
    decreases accs.len(),
{
    if accs.len() == 0 {
        seq![]
    } else {
        let prev = sync_after(app, accs.drop_last());
        let own = ownerships_after(accs.drop_last());
        let a = accs.last();
        match a.1 {
            Some(p) => if has_key(own, a.2@) && ceiling_of(get(own, a.2@)) != p && a.3
                == Access::Shared {
                type_insert(prev, resource_ty(app, a.2@))
            } else {
                prev
            },
            None => prev,
        }
    }
}


/// The resource is owned, and not by `idle` alone: its type must be `Send`
pub open spec fn sends_for(own: Seq<(String, Ownership)>, k: Seq<char>) -> bool {
    has_key(own, k) && get(own, k) != (Ownership::Owned { priority: 0 })
}

/// Types of the late resources that must be `Send`, in declaration order
pub open spec fn late_send(own: Seq<(String, Ownership)>, late: Seq<(String, LateResource)>) -> Seq<
    Seq<TokV>,
>
    decreases late.len(),
{
    if late.len() == 0 {
        seq![]
    } else {
        late_send(own, late.drop_last()) + if sends_for(own, late.last().0@) {
            seq![tv(late.last().1.ty@)]
        } else {
            seq![]
        }
    }
}

/// Types of the early resources of one `init` that must be `Send`
pub open spec fn init_ctx_send(
    own: Seq<(String, Ownership)>,
    early: Seq<(String, Resource)>,
    res: Seq<(String, Access)>,
) -> Seq<Seq<TokV>>
    decreases res.len(),
{
    if res.len() == 0 {
        seq![]
    } else {
        init_ctx_send(own, early, res.drop_last()) + if sends_for(own, res.last().0@) {
            seq![tv(get(early, res.last().0@).late.ty@)]
        } else {
            seq![]
        }
    }
}

/// Types of the resources shared with `init`s that must be `Send`
pub open spec fn init_send(
    own: Seq<(String, Ownership)>,
    early: Seq<(String, Resource)>,
    inits: Seq<(u8, Init)>,
) -> Seq<Seq<TokV>>
    decreases inits.len(),
{
    if inits.len() == 0 {
        seq![]
    } else {
        init_send(own, early, inits.drop_last()) + init_ctx_send(
            own,
            early,
            inits.last().1.args.resources@,
        )
    }
}

/// The types of the inputs of one software task
pub open spec fn input_types(inputs: Seq<(Tokens, Tokens)>) -> Seq<Seq<TokV>> {
    inputs.map_values(|i: (Tokens, Tokens)| tv(i.1@))
}

/// The types of the inputs of all software tasks
pub open spec fn input_send(sw: Seq<(String, SoftwareTask)>) -> Seq<Seq<TokV>>
    decreases sw.len(),
{
    if sw.len() == 0 {
        seq![]
    } else {
        input_send(sw.drop_last()) + input_types(sw.last().1.inputs@)
    }
}

/// The `Send` types: late resources not owned by `idle` alone, resources
/// shared with `init`, and the inputs of software tasks
pub open spec fn send_after(app: App, own: Seq<(String, Ownership)>) -> Seq<Seq<TokV>> {
    insert_all(
        seq![],
        late_send(own, app.late_resources@) + init_send(own, app.resources@, app.inits@)
            + input_send(app.software_tasks@),
    )
}

/// The sum of the capacities of the software tasks at priority `p`
pub open spec fn cap_sum(sw: Seq<(String, SoftwareTask)>, p: u8) -> int
    decreases sw.len(),
{
    if sw.len() == 0 {
        0
    } else {
        cap_sum(sw.drop_last(), p) + if sw.last().1.args.priority == p {
            sw.last().1.args.capacity as int
        } else {
            0
        }
    }
}

/// The sum of the capacities of an actor's subscriptions
pub open spec fn subs_cap(s: Seq<Subscription>) -> int
    decreases s.len(),
{
    if s.len() == 0 {
        0
    } else {
        subs_cap(s.drop_last()) + s.last().capacity
    }
}

/// The sum of the capacities of the subscriptions of the actors at priority `p`
pub open spec fn sub_sum(actors: Seq<(String, Actor)>, p: u8) -> int
    decreases actors.len(),
{
    if actors.len() == 0 {
        0
    } else {
        sub_sum(actors.drop_last(), p) + if actors.last().1.priority == p {
            subs_cap(actors.last().1.subscriptions@)
        } else {
            0
        }
    }
}

/// Some actor at priority `p` subscribes to something
pub open spec fn has_sub_prio(actors: Seq<(String, Actor)>, p: u8) -> bool {
    exists|a: int|
        0 <= a < actors.len() && actors[a].1.priority == p && actors[a].1.subscriptions@.len() > 0
}

/// The spawnees of the `n` subscriptions of the actor `name`
pub open spec fn subscription_spawnees(name: Seq<char>, n: int) -> Seq<SpawneeV> {
    Seq::new(n as nat, |i: int| SpawneeV::Actor(name, i))
}

/// The spawnees of the actors at priority `p`: their subscriptions, actor by
/// actor
pub open spec fn actor_spawnees(actors: Seq<(String, Actor)>, p: u8) -> Seq<SpawneeV>
    decreases actors.len(),
{
    if actors.len() == 0 {
        seq![]
    } else {
        actor_spawnees(actors.drop_last(), p) + if actors.last().1.priority == p {
            subscription_spawnees(actors.last().0@, actors.last().1.subscriptions@.len() as int)
        } else {
            seq![]
        }
    }
}

/// The spawnees of tasks, by name
pub open spec fn task_spawnees(tasks: Seq<String>) -> Seq<SpawneeV> {
    tasks.map_values(|n: String| SpawneeV::Task(n@))
}

/// All that is dispatched at priority `p` adds up to 255 or less
pub open spec fn load_fits(sw: Seq<(String, SoftwareTask)>, actors: Seq<(String, Actor)>) -> bool {
    forall|p: u8| cap_sum(sw, p) + sub_sum(actors, p) <= 255
}

/// Some software task runs at priority `p`
pub open spec fn has_prio(sw: Seq<(String, SoftwareTask)>, p: u8) -> bool {
    exists|t: int| 0 <= t < sw.len() && sw[t].1.args.priority == p
}

/// The name belongs to a software task at priority `p`
pub open spec fn task_at(sw: Seq<(String, SoftwareTask)>, n: Seq<char>, p: u8) -> bool {
    exists|t: int| 0 <= t < sw.len() && sw[t].0@ == n && sw[t].1.args.priority == p
}

/// One channel per priority of a software task or of an actor's
/// subscription, in ascending order of priority; each with the sorted names
/// of the tasks at that priority, its spawnees (those tasks, then the
/// subscriptions of the actors at that priority), and the sum of their
/// capacities
pub open spec fn channels_spec(
    sw: Seq<(String, SoftwareTask)>,
    actors: Seq<(String, Actor)>,
    ch: Seq<(u8, Channel)>,
) -> bool {
    &&& forall|i: int, j: int| 0 <= i < j < ch.len() ==> ch[i].0 < ch[j].0
    &&& forall|p: u8|
        (exists|k: int| 0 <= k < ch.len() && ch[k].0 == p) <==> (has_prio(sw, p) || has_sub_prio(
            actors,
            p,
        ))
    &&& forall|k: int| 0 <= k < ch.len() ==> channel_ok(sw, actors, ch[k].0, #[trigger] ch[k].1)
}

/// The channel `c` of priority `p`: the sorted names of the tasks at that
/// priority, its spawnees (those tasks, then the subscriptions of the actors
/// at that priority), and the sum of their capacities
pub open spec fn channel_ok(
    sw: Seq<(String, SoftwareTask)>,
    actors: Seq<(String, Actor)>,
    p: u8,
    c: Channel,
) -> bool {
    &&& strictly_sorted(c.tasks@)
    &&& forall|n: Seq<char>| has_name(c.tasks@, n) <==> task_at(sw, n, p)
    &&& spawnees_view(c.spawnees@) == task_spawnees(c.tasks@) + actor_spawnees(actors, p)
    &&& c.capacity == cap_sum(sw, p) + sub_sum(actors, p)
}

/// The channels by priority: one for each priority of a software task or of
/// an actor's subscription
pub open spec fn channel_map_spec(
    sw: Seq<(String, SoftwareTask)>,
    actors: Seq<(String, Actor)>,
    m: Map<u8, Channel>,
) -> bool {
    &&& forall|p: u8| #[trigger] m.contains_key(p) <==> (has_prio(sw, p) || has_sub_prio(actors, p))
    &&& forall|p: u8| #[trigger] m.contains_key(p) ==> channel_ok(sw, actors, p, m[p])
}

/// The late resources that the first `init` initializes, as one set sorted
/// by name: those its `late` argument names, or all of them where it names
/// none; no set where there are no late resources or no `init`
pub open spec fn late_resources_spec(app: App, lr: Seq<Vec<String>>) -> bool {
    if app.late_resources@.len() > 0 && app.inits@.len() > 0 {
        &&& lr.len() == 1
        &&& strictly_sorted(lr[0]@)
        &&& if app.inits@[0].1.args.late@.len() == 0 {
            forall|n: Seq<char>| has_name(lr[0]@, n) <==> has_key(app.late_resources@, n)
        } else {
            forall|n: Seq<char>| has_name(lr[0]@, n) <==> has_name(app.inits@[0].1.args.late@, n)
        }
    } else {
        lr.len() == 0
    }
}

/// What the analysis needs of an application: distinct names, every accessed
/// resource declared, every resource of an `init` that must be `Send` an
/// early resource, and channel capacities that fit in a `u8`
pub open spec fn analyzable(app: App) -> bool {
    let own = ownerships_after(accesses(app));
    &&& keys_unique(app.late_resources@)
    &&& keys_unique(app.resources@)
    &&& keys_unique(app.software_tasks@)
    &&& forall|i: int|
        0 <= i < accesses(app).len() ==> declared(app, #[trigger] accesses(app)[i].2@)
    &&& forall|i: int, j: int|
        0 <= i < app.inits@.len() && 0 <= j < app.inits@[i].1.args.resources@.len() && sends_for(
            own,
            app.inits@[i].1.args.resources@[j].0@,
        ) ==> has_key(app.resources@, app.inits@[i].1.args.resources@[j].0@)
    &&& load_fits(app.software_tasks@, app.actors@)
}

/// The analysis of `app`
pub open spec fn analysis_spec(app: App, r: Analysis) -> bool {
    let accs = accesses(app);
    let own = ownerships_after(accs);
    &&& ownership_entries(r.ownerships) == named_entries(own)
    &&& location_entries(r.locations) == named_entries(locations_after(accs))
    &&& type_views(r.sync_types@) == sync_after(app, accs)
    &&& type_views(r.send_types@) == send_after(app, own)
    &&& channel_map_spec(app.software_tasks@, app.actors@, r.channels@)
    &&& late_resources_spec(app, r.late_resources@)
}

// ------------------------------------------------------------------------
// Facts about the specification
// ------------------------------------------------------------------------

/// The ownership table never holds a name twice
pub proof fn lemma_ownerships_unique(accs: Seq<ResourceAccess>)
    ensures
        keys_unique(ownerships_after(accs)),
    decreases accs.len(),
{
    if accs.len() > 0 {
        lemma_ownerships_unique(accs.drop_last());
        let prev = ownerships_after(accs.drop_last());
        let a = accs.last();
        if a.1 is Some && has_key(prev, a.2@) {
            let i = key_pos(prev, a.2@);
            let next = ownerships_after(accs);
            assert forall|x: int, y: int| 0 <= x < y < next.len() implies next[x].0@
                != next[y].0@ by {
                assert(next[x].0 == prev[x].0);
                assert(next[y].0 == prev[y].0);
            }
        } else if a.1 is Some {
            let next = ownerships_after(accs);
            assert forall|x: int, y: int| 0 <= x < y < next.len() implies next[x].0@
                != next[y].0@ by {
                if y == prev.len() {
                    assert(next[x].0 == prev[x].0);
                }
            }
        }
    }
}

/// The location table never holds a name twice
pub proof fn lemma_locations_unique(accs: Seq<ResourceAccess>)
    ensures
        keys_unique(locations_after(accs)),
    decreases accs.len(),
{
    if accs.len() > 0 {
        lemma_locations_unique(accs.drop_last());
        let prev = locations_after(accs.drop_last());
        let next = locations_after(accs);
        if !has_key(prev, accs.last().2@) {
            assert forall|x: int, y: int| 0 <= x < y < next.len() implies next[x].0@
                != next[y].0@ by {
                if y == prev.len() {
                    assert(next[x].0 == prev[x].0);
                }
            }
        }
    }
}

/// The priorities of the accesses to the resource named `n`, in order
/// (accesses from `init`, which have no priority, left out)
pub open spec fn prios_of(accs: Seq<ResourceAccess>, n: Seq<char>) -> Seq<u8>
    decreases accs.len(),
{
    if accs.len() == 0 {
        seq![]
    } else {
        let a = accs.last();
        let prev = prios_of(accs.drop_last(), n);
        match a.1 {
            Some(p) => if a.2@ == n {
                prev.push(p)
            } else {
                prev
            },
            None => prev,
        }
    }
}

/// The highest of a non-empty sequence of priorities
pub open spec fn seq_max(ps: Seq<u8>) -> u8
    decreases ps.len(),
{
    if ps.len() <= 1 {
        ps[0]
    } else {
        max_u8(seq_max(ps.drop_last()), ps.last())
    }
}

/// All priorities are the same
pub open spec fn all_same(ps: Seq<u8>) -> bool {
    forall|i: int| 0 <= i < ps.len() ==> #[trigger] ps[i] == ps[0]
}

/// The ownership that a non-empty sequence of accessing priorities yields:
/// one access owns; several at one priority co-own; accesses at different
/// priorities contend, with the highest priority as ceiling
pub open spec fn ownership_for(ps: Seq<u8>) -> Ownership {
    if !all_same(ps) {
        Ownership::Contended { ceiling: seq_max(ps) }
    } else if ps.len() == 1 {
        Ownership::Owned { priority: ps[0] }
    } else {
        Ownership::CoOwned { priority: ps[0] }
    }
}

proof fn lemma_seq_max_bound(ps: Seq<u8>)
    requires
        ps.len() > 0,
    ensures
        forall|i: int| 0 <= i < ps.len() ==> ps[i] <= seq_max(ps),
        exists|i: int| 0 <= i < ps.len() && ps[i] == seq_max(ps),
    decreases ps.len(),
{
    if ps.len() == 1 {
        assert(ps[0] == seq_max(ps));
    } else {
        let d = ps.drop_last();
        lemma_seq_max_bound(d);
        let k = choose|i: int| 0 <= i < d.len() && d[i] == seq_max(d);
        assert forall|i: int| 0 <= i < ps.len() implies ps[i] <= seq_max(ps) by {
            if i < d.len() {
                assert(ps[i] == d[i]);
            }
        }
        if seq_max(ps) == ps.last() {
            assert(ps[ps.len() - 1] == seq_max(ps));
        } else {
            assert(ps[k] == d[k]);
            assert(ps[k] == seq_max(ps));
        }
    }
}

proof fn lemma_same_max(ps: Seq<u8>)
    requires
        ps.len() > 0,
        all_same(ps),
    ensures
        seq_max(ps) == ps[0],
{
    lemma_seq_max_bound(ps);
}

/// The ceiling of the ownership a sequence of priorities yields is their maximum
proof fn lemma_ceiling_is_max(ps: Seq<u8>)
    requires
        ps.len() > 0,
    ensures
        ceiling_of(ownership_for(ps)) == seq_max(ps),
{
    if all_same(ps) {
        lemma_same_max(ps);
    }
}

proof fn lemma_get_update_other<T>(m: Seq<(String, T)>, i: int, v: T, k: Seq<char>)
    requires
        keys_unique(m),
        0 <= i < m.len(),
        m[i].0@ != k,
    ensures
        has_key(m.update(i, (m[i].0, v)), k) == has_key(m, k),
        has_key(m, k) ==> get(m.update(i, (m[i].0, v)), k) == get(m, k),
        keys_unique(m.update(i, (m[i].0, v))),
{
    let u = m.update(i, (m[i].0, v));
    assert forall|x: int, y: int| 0 <= x < y < u.len() implies u[x].0@ != u[y].0@ by {
        assert(u[x].0 == m[x].0);
        assert(u[y].0 == m[y].0);
    }
    if has_key(m, k) {
        let j = key_pos(m, k);
        assert(u[j].0@ == k);
        lemma_get_at(m, j);
        lemma_get_at(u, j);
    }
    if has_key(u, k) {
        let j = key_pos(u, k);
        assert(m[j].0@ == k);
    }
}

proof fn lemma_get_update_same<T>(m: Seq<(String, T)>, i: int, v: T)
    requires
        keys_unique(m),
        0 <= i < m.len(),
    ensures
        has_key(m.update(i, (m[i].0, v)), m[i].0@),
        get(m.update(i, (m[i].0, v)), m[i].0@) == v,
{
    let u = m.update(i, (m[i].0, v));
    assert forall|x: int, y: int| 0 <= x < y < u.len() implies u[x].0@ != u[y].0@ by {
        assert(u[x].0 == m[x].0);
        assert(u[y].0 == m[y].0);
    }
    lemma_get_at(u, i);
}

pub proof fn lemma_get_push<T>(m: Seq<(String, T)>, e: (String, T), k: Seq<char>)
    requires
        keys_unique(m),
        !has_key(m, e.0@),
    ensures
        keys_unique(m.push(e)),
        has_key(m.push(e), k) == (has_key(m, k) || k == e.0@),
        k == e.0@ ==> get(m.push(e), k) == e.1,
        k != e.0@ && has_key(m, k) ==> get(m.push(e), k) == get(m, k),
{
    let u = m.push(e);
    assert forall|x: int, y: int| 0 <= x < y < u.len() implies u[x].0@ != u[y].0@ by {
        if y == m.len() {
            assert(u[x] == m[x]);
        }
    }
    if has_key(m, k) {
        let j = key_pos(m, k);
        assert(u[j] == m[j]);
        lemma_get_at(m, j);
        lemma_get_at(u, j);
    }
    if k == e.0@ {
        lemma_get_at(u, m.len() as int);
    }
    if has_key(u, k) && k != e.0@ {
        let j = key_pos(u, k);
        assert(j < m.len());
        assert(m[j] == u[j]);
    }
}

/// Law: a resource is in the ownership table exactly when some context with
/// a priority accesses it, and its ownership depends only on the priorities
/// of those accesses: one access owns, several accesses at one priority
/// co-own, accesses at different priorities contend with the highest of
/// them as the ceiling
pub proof fn law_ownership(accs: Seq<ResourceAccess>, n: Seq<char>)
    ensures
        has_key(ownerships_after(accs), n) <==> prios_of(accs, n).len() > 0,
        prios_of(accs, n).len() > 0 ==> get(ownerships_after(accs), n) == ownership_for(
            prios_of(accs, n),
        ),
    decreases accs.len(),
{
    if accs.len() > 0 {
        law_ownership(accs.drop_last(), n);
        lemma_ownerships_unique(accs.drop_last());
        let prev = ownerships_after(accs.drop_last());
        let ps = prios_of(accs.drop_last(), n);
        let a = accs.last();
        if let Some(p) = a.1 {
            if has_key(prev, a.2@) {
                let i = key_pos(prev, a.2@);
                lemma_get_at(prev, i);
                if a.2@ == n {
                    lemma_get_update_same(prev, i, own_next(prev[i].1, p));
                    let qs = ps.push(p);
                    assert(qs.drop_last() =~= ps);
                    lemma_ceiling_is_max(ps);
                    if all_same(ps) {
                        lemma_same_max(ps);
                        if p == ps[0] {
                            assert(all_same(qs));
                        } else {
                            assert(qs[qs.len() - 1] != qs[0]);
                            assert(!all_same(qs));
                        }
                    } else {
                        let w = choose|w: int| 0 <= w < ps.len() && #[trigger] ps[w] != ps[0];
                        assert(qs[w] != qs[0]);
                    }
                } else {
                    lemma_get_update_other(prev, i, own_next(prev[i].1, p), n);
                }
            } else {
                lemma_get_push(prev, (a.2, Ownership::Owned { priority: p }), n);
                if a.2@ == n {
                    let qs = ps.push(p);
                    assert(qs.len() == 1);
                    assert(all_same(qs));
                }
            }
        }
    }
}

/// Law: a context needs a lock to access a resource exactly when some other
/// context accesses it at a higher priority
pub proof fn law_needs_lock(accs: Seq<ResourceAccess>, n: Seq<char>, p: u8)
    requires
        prios_of(accs, n).contains(p),
    ensures
        has_key(ownerships_after(accs), n),
        (get(ownerships_after(accs), n) matches Ownership::Contended { ceiling } && p < ceiling)
            <==> p < seq_max(prios_of(accs, n)),
        get(ownerships_after(accs), n) matches Ownership::Contended { ceiling } ==> p <= ceiling,
{
    law_ownership(accs, n);
    let ps = prios_of(accs, n);
    lemma_seq_max_bound(ps);
    if all_same(ps) {
        lemma_same_max(ps);
    }
}

/// An ordered set holds, after an insertion, what it held and what was inserted
pub proof fn lemma_type_insert(s: Seq<Seq<TokV>>, t: Seq<TokV>, u: Seq<TokV>)
    ensures
        type_insert(s, t).contains(u) <==> (s.contains(u) || u == t),
{
    if !s.contains(t) {
        let r = s.push(t);
        assert(r[s.len() as int] == t);
        if s.contains(u) {
            let k = choose|k: int| 0 <= k < s.len() && s[k] == u;
            assert(r[k] == u);
        }
        if r.contains(u) {
            let k = choose|k: int| 0 <= k < r.len() && r[k] == u;
            if k < s.len() {
                assert(s[k] == u);
            }
        }
    }
}

/// The access at `i` is shared and comes from a priority other than the
/// highest priority of the earlier accesses to the same resource
pub open spec fn makes_sync(accs: Seq<ResourceAccess>, i: int) -> bool {
    &&& accs[i].1 is Some
    &&& accs[i].3 == Access::Shared
    &&& prios_of(accs.take(i), accs[i].2@).len() > 0
    &&& seq_max(prios_of(accs.take(i), accs[i].2@)) != accs[i].1->0
}

proof fn lemma_makes_sync_prefix(accs: Seq<ResourceAccess>, i: int)
    requires
        0 <= i < accs.len() - 1,
    ensures
        makes_sync(accs, i) == makes_sync(accs.drop_last(), i),
        accs[i] == accs.drop_last()[i],
{
    assert(accs.take(i) =~= accs.drop_last().take(i));
}

/// Law: no channel is empty: each dispatches to at least one task or
/// actor subscription
pub proof fn law_channels_not_empty(app: App, r: Analysis, p: u8)
    requires
        analysis_spec(app, r),
        r.channels@.contains_key(p),
    ensures
        r.channels@[p].spawnees@.len() > 0,
{
    let sw = app.software_tasks@;
    let actors = app.actors@;
    let c = r.channels@[p];
    assert(channel_ok(sw, actors, p, c));
    assert(spawnees_view(c.spawnees@).len() == c.spawnees@.len());
    if has_prio(sw, p) {
        let t = choose|t: int| 0 <= t < sw.len() && sw[t].1.args.priority == p;
        assert(task_at(sw, sw[t].0@, p));
        assert(has_name(c.tasks@, sw[t].0@));
        assert(task_spawnees(c.tasks@).len() > 0);
    } else {
        assert(has_sub_prio(actors, p));
        lemma_actor_spawnees_len(actors, p);
    }
}

/// The actors at priority `p` with some subscription give spawnees
proof fn lemma_actor_spawnees_len(actors: Seq<(String, Actor)>, p: u8)
    requires
        has_sub_prio(actors, p),
    ensures
        actor_spawnees(actors, p).len() > 0,
    decreases actors.len(),
{
    let a = choose|a: int|
        0 <= a < actors.len() && actors[a].1.priority == p && actors[a].1.subscriptions@.len() > 0;
    if a == actors.len() - 1 {
        assert(actors.last() == actors[a]);
    } else {
        assert(actors.drop_last()[a] == actors[a]);
        lemma_actor_spawnees_len(actors.drop_last(), p);
    }
}

/// Law: a resource is in the location table exactly when some context
/// (`init`, `idle` or a task) accesses it
pub proof fn law_locations(accs: Seq<ResourceAccess>, n: Seq<char>)
    ensures
        has_key(locations_after(accs), n) <==> exists|i: int|
            0 <= i < accs.len() && #[trigger] accs[i].2@ == n,
    decreases accs.len(),
{
    if accs.len() > 0 {
        let pre = accs.drop_last();
        law_locations(pre, n);
        let prev = locations_after(pre);
        if exists|i: int| 0 <= i < pre.len() && #[trigger] pre[i].2@ == n {
            let i = choose|i: int| 0 <= i < pre.len() && #[trigger] pre[i].2@ == n;
            assert(accs[i] == pre[i]);
        }
        if exists|i: int| 0 <= i < accs.len() && #[trigger] accs[i].2@ == n {
            let i = choose|i: int| 0 <= i < accs.len() && #[trigger] accs[i].2@ == n;
            if i < pre.len() {
                assert(pre[i] == accs[i]);
            }
        }
        if !has_key(prev, accs.last().2@) {
            let next = prev.push((accs.last().2, Location::Owned));
            if has_key(prev, n) {
                let k = choose|k: int| 0 <= k < prev.len() && prev[k].0@ == n;
                assert(next[k] == prev[k]);
            }
            if accs.last().2@ == n {
                assert(next[prev.len() as int].0@ == n);
            }
            if has_key(next, n) && !has_key(prev, n) {
                let k = choose|k: int| 0 <= k < next.len() && next[k].0@ == n;
                if k < prev.len() {
                    assert(next[k] == prev[k]);
                }
            }
        } else if accs.last().2@ == n {
            assert(has_key(prev, n));
        }
    }
}

/// Law: the analysis locates exactly the resources that some context
/// (`init`, `idle` or a task) accesses
pub proof fn law_analysis_locations(app: App, r: Analysis, n: Seq<char>)
    requires
        analysis_spec(app, r),
    ensures
        location_entries(r.locations).map_values(|e: (Seq<char>, Location)| e.0).contains(n)
            <==> exists|i: int| 0 <= i < accesses(app).len() && #[trigger] accesses(app)[i].2@ == n,
{
    let l = locations_after(accesses(app));
    law_locations(accesses(app), n);
    let names = named_entries(l).map_values(|e: (Seq<char>, Location)| e.0);
    if names.contains(n) {
        let k = choose|k: int| 0 <= k < names.len() && names[k] == n;
        assert(l[k].0@ == n);
    }
    if has_key(l, n) {
        let k = choose|k: int| 0 <= k < l.len() && l[k].0@ == n;
        assert(names[k] == n);
    }
}

/// A priority with which the access at `i` reaches `n` is among the
/// priorities that reach `n`
proof fn lemma_prios_contains(accs: Seq<ResourceAccess>, n: Seq<char>, i: int)
    requires
        0 <= i < accs.len(),
        accs[i].2@ == n,
        accs[i].1 is Some,
    ensures
        prios_of(accs, n).contains(accs[i].1->Some_0),
    decreases accs.len(),
{
    let p = accs[i].1->Some_0;
    if i == accs.len() - 1 {
        let ps = prios_of(accs, n);
        assert(ps[ps.len() - 1] == p);
    } else {
        let pre = accs.drop_last();
        assert(pre[i] == accs[i]);
        lemma_prios_contains(pre, n, i);
        let qs = prios_of(pre, n);
        let k = choose|k: int| 0 <= k < qs.len() && qs[k] == p;
        let ps = prios_of(accs, n);
        assert(ps[k] == p);
    }
}

/// The late resource at `j`, which must be `Send`, has its type among the
/// late `Send` types
proof fn lemma_late_send_has(own: Seq<(String, Ownership)>, late: Seq<(String, LateResource)>, j: int)
    requires
        0 <= j < late.len(),
        sends_for(own, late[j].0@),
    ensures
        late_send(own, late).contains(tv(late[j].1.ty@)),
    decreases late.len(),
{
    let t = tv(late[j].1.ty@);
    if j == late.len() - 1 {
        let x = late_send(own, late);
        assert(x == late_send(own, late.drop_last()) + seq![t]);
        assert(x[x.len() - 1] == t);
    } else {
        let pre = late.drop_last();
        assert(pre[j] == late[j]);
        lemma_late_send_has(own, pre, j);
        let y = late_send(own, pre);
        let k = choose|k: int| 0 <= k < y.len() && y[k] == t;
        let x = late_send(own, late);
        assert(x[k] == t);
    }
}

/// An ordered set built by insertions holds what it held and what was inserted
proof fn lemma_insert_all_has(s: Seq<Seq<TokV>>, ts: Seq<Seq<TokV>>, u: Seq<TokV>)
    ensures
        insert_all(s, ts).contains(u) <==> (s.contains(u) || ts.contains(u)),
    decreases ts.len(),
{
    if ts.len() > 0 {
        let pre = ts.drop_last();
        lemma_insert_all_has(s, pre, u);
        lemma_type_insert(insert_all(s, pre), ts.last(), u);
        if pre.contains(u) {
            let k = choose|k: int| 0 <= k < pre.len() && pre[k] == u;
            assert(ts[k] == u);
        }
        if ts.contains(u) && u != ts.last() {
            let k = choose|k: int| 0 <= k < ts.len() && ts[k] == u;
            assert(pre[k] == u);
        }
        if u == ts.last() {
            assert(ts[ts.len() - 1] == u);
        }
    }
}

/// Law: the type of a late resource that a context of priority above 0 (a
/// task, not `idle`) accesses must be `Send`, whether one task owns it,
/// several co-own it or tasks of different priorities contend for it
pub proof fn law_late_send(app: App, r: Analysis, k: Seq<char>, i: int)
    requires
        analysis_spec(app, r),
        keys_unique(app.late_resources@),
        has_key(app.late_resources@, k),
        0 <= i < accesses(app).len(),
        accesses(app)[i].2@ == k,
        accesses(app)[i].1 is Some,
        accesses(app)[i].1->Some_0 > 0,
    ensures
        type_views(r.send_types@).contains(tv(get(app.late_resources@, k).ty@)),
{
    let accs = accesses(app);
    let own = ownerships_after(accs);
    let p = accs[i].1->Some_0;
    lemma_prios_contains(accs, k, i);
    law_ownership(accs, k);
    let ps = prios_of(accs, k);
    let w = choose|w: int| 0 <= w < ps.len() && ps[w] == p;
    if all_same(ps) && ps.len() == 1 {
        assert(ps[0] == p);
    }
    assert(sends_for(own, k));
    let late = app.late_resources@;
    let j = choose|j: int| 0 <= j < late.len() && late[j].0@ == k;
    lemma_get_at(late, j);
    lemma_late_send_has(own, late, j);
    let t = tv(late[j].1.ty@);
    let x = late_send(own, late);
    let all = x + init_send(own, app.resources@, app.inits@) + input_send(app.software_tasks@);
    let q = choose|q: int| 0 <= q < x.len() && x[q] == t;
    assert(all[q] == t);
    lemma_insert_all_has(seq![], all, t);
}

/// The capacity of the software task at `i` is part of the sum at its priority
proof fn lemma_cap_sum_has(sw: Seq<(String, SoftwareTask)>, i: int)
    requires
        0 <= i < sw.len(),
    ensures
        cap_sum(sw, sw[i].1.args.priority) >= sw[i].1.args.capacity,
    decreases sw.len(),
{
    let p = sw[i].1.args.priority;
    if i < sw.len() - 1 {
        let pre = sw.drop_last();
        assert(pre[i] == sw[i]);
        lemma_cap_sum_has(pre, i);
    } else {
        lemma_cap_sum_nonneg(sw.drop_last(), p);
    }
}

/// Law: every software task is dispatched on the channel of its priority,
/// which lists it and has room for at least as many messages as the task's
/// capacity
pub proof fn law_task_channel(app: App, r: Analysis, i: int)
    requires
        analysis_spec(app, r),
        0 <= i < app.software_tasks@.len(),
    ensures
        r.channels@.contains_key(app.software_tasks@[i].1.args.priority),
        has_name(
            r.channels@[app.software_tasks@[i].1.args.priority].tasks@,
            app.software_tasks@[i].0@,
        ),
        r.channels@[app.software_tasks@[i].1.args.priority].capacity
            >= app.software_tasks@[i].1.args.capacity,
{
    let sw = app.software_tasks@;
    let p = sw[i].1.args.priority;
    assert(has_prio(sw, p));
    assert(r.channels@.contains_key(p));
    assert(channel_ok(sw, app.actors@, p, r.channels@[p]));
    assert(task_at(sw, sw[i].0@, p));
    lemma_cap_sum_has(sw, i);
    lemma_sub_sum_nonneg(app.actors@, p);
}

/// Law: a type must be `Sync` exactly when some shared access to a resource
/// of that type comes from a priority other than the highest priority of the
/// earlier accesses to it
pub proof fn law_sync(app: App, accs: Seq<ResourceAccess>, t: Seq<TokV>)
    ensures
        sync_after(app, accs).contains(t) <==> exists|i: int|
            0 <= i < accs.len() && #[trigger] makes_sync(accs, i) && resource_ty(app, accs[i].2@)
                == t,
    decreases accs.len(),
{
    if accs.len() > 0 {
        let pre = accs.drop_last();
        law_sync(app, pre, t);
        let l = accs.len() - 1;
        assert(accs.take(l) =~= pre);
        law_ownership(pre, accs[l].2@);
        if prios_of(pre, accs[l].2@).len() > 0 {
            lemma_ceiling_is_max(prios_of(pre, accs[l].2@));
        }
        let own = ownerships_after(pre);
        let name = accs[l].2@;
        let rt = resource_ty(app, name);
        assert(accs.last() == accs[l]);
        assert(makes_sync(accs, l) == (accs[l].1 is Some && has_key(own, name) && ceiling_of(
            get(own, name),
        ) != accs[l].1->0 && accs[l].3 == Access::Shared));
        if makes_sync(accs, l) {
            assert(sync_after(app, accs) == type_insert(sync_after(app, pre), rt));
            lemma_type_insert(sync_after(app, pre), rt, t);
        } else {
            assert(sync_after(app, accs) == sync_after(app, pre));
        }
        if exists|i: int|
            0 <= i < pre.len() && #[trigger] makes_sync(pre, i) && resource_ty(app, pre[i].2@)
                == t {
            let i = choose|i: int|
                0 <= i < pre.len() && #[trigger] makes_sync(pre, i) && resource_ty(app, pre[i].2@)
                    == t;
            lemma_makes_sync_prefix(accs, i);
            assert(makes_sync(accs, i));
        }
        if exists|i: int|
            0 <= i < accs.len() && #[trigger] makes_sync(accs, i) && resource_ty(app, accs[i].2@)
                == t {
            let i = choose|i: int|
                0 <= i < accs.len() && #[trigger] makes_sync(accs, i) && resource_ty(
                    app,
                    accs[i].2@,
                ) == t;
            if i < l {
                lemma_makes_sync_prefix(accs, i);
                assert(makes_sync(pre, i));
            }
        }
    }
}

// ------------------------------------------------------------------------
// Implementation
// ------------------------------------------------------------------------

/// The priority an ownership is held at
fn ceiling(o: Ownership) -> (r: u8)
    ensures
        r == ceiling_of(o),
{
    match o {
        Ownership::Owned { priority } => priority,
        Ownership::CoOwned { priority } => priority,
        Ownership::Contended { ceiling } => ceiling,
    }
}

/// Adds a type to an ordered set of types
fn insert_type(s: &mut Vec<Tokens>, t: &Tokens)
    ensures
        type_views(final(s)@) == type_insert(type_views(old(s)@), tv(t@)),
{
    let mut i: usize = 0;
    while i < s.len()
        invariant
            s@ == old(s)@,
            i <= s@.len(),
            forall|j: int| 0 <= j < i ==> tv(s@[j]@) != tv(t@),
        decreases s@.len() - i,
    {
        if toks_eq(&s[i], t) {
            assert(type_views(s@)[i as int] == tv(t@));
            return;
        }
        i = i + 1;
    }
    assert(!type_views(s@).contains(tv(t@)));
    let c = copy_toks(t);
    s.push(c);
    assert(type_views(s@) =~= type_views(old(s)@).push(tv(t@)));
}

/// The type of a declared resource
fn resource_type<'a>(app: &'a App, name: &String) -> (r: &'a Tokens)
    requires
        keys_unique(app.late_resources@),
        keys_unique(app.resources@),
        declared(*app, name@),
    ensures
        tv(r@) == resource_ty(*app, name@),
{
    match find_key(&app.late_resources, name) {
        Some(k) => {
            proof {
                lemma_get_at(app.late_resources@, k as int);
            }
            &app.late_resources[k].1.ty
        },
        None => {
            let k = find_key(&app.resources, name).unwrap();
            proof {
                lemma_get_at(app.resources@, k as int);
            }
            &app.resources[k].1.late.ty
        },
    }
}

/// Ownerships, locations and `Sync` types after all accesses
fn ownerships_of(app: &App, accs: &Vec<ResourceAccess>) -> (r: (
    NameMap<Ownership>,
    NameMap<Location>,
    Vec<Tokens>,
))
    requires
        keys_unique(app.late_resources@),
        keys_unique(app.resources@),
        forall|i: int| 0 <= i < accs@.len() ==> declared(*app, #[trigger] accs@[i].2@),
    ensures
        r.0@ == ownerships_after(accs@),
        r.1@ == locations_after(accs@),
        type_views(r.2@) == sync_after(*app, accs@),
{
    let mut ownerships: NameMap<Ownership> = Vec::new();
    let mut locations: NameMap<Location> = Vec::new();
    let mut sync_types: Vec<Tokens> = Vec::new();
    let mut i: usize = 0;
    assert(accs@.take(0) =~= Seq::<ResourceAccess>::empty());
    assert(type_views(sync_types@) =~= Seq::<Seq<TokV>>::empty());
    while i < accs.len()
        invariant
            keys_unique(app.late_resources@),
            keys_unique(app.resources@),
            forall|i: int| 0 <= i < accs@.len() ==> declared(*app, #[trigger] accs@[i].2@),
            i <= accs@.len(),
            ownerships@ == ownerships_after(accs@.take(i as int)),
            locations@ == locations_after(accs@.take(i as int)),
            type_views(sync_types@) == sync_after(*app, accs@.take(i as int)),
        decreases accs@.len() - i,
    {
        let ghost pre = accs@.take(i as int);
        let ghost post = accs@.take(i as int + 1);
        assert(post.drop_last() =~= pre);
        assert(post.last() == accs@[i as int]);
        proof {
            lemma_ownerships_unique(pre);
            lemma_locations_unique(pre);
        }
        let a = &accs[i];
        if find_key(&locations, &a.2).is_none() {
            locations.push((a.2.clone(), Location::Owned));
        }
        match a.1 {
            None => {},
            Some(p) => {
                match find_key(&ownerships, &a.2) {
                    None => {
                        ownerships.push((a.2.clone(), Ownership::Owned { priority: p }));
                    },
                    Some(k) => {
                        let o = ownerships[k].1;
                        let c = ceiling(o);
                        if p != c {
                            let key = ownerships[k].0.clone();
                            let top = if c >= p {
                                c
                            } else {
                                p
                            };
                            ownerships.set(k, (key, Ownership::Contended { ceiling: top }));
                            if a.3.is_shared() {
                                proof {
                                    lemma_get_at(pre_own(accs@, i as int), k as int);
                                }
                                let ty = resource_type(app, &a.2);
                                insert_type(&mut sync_types, ty);
                            }
                        } else if o.is_owned() {
                            let key = ownerships[k].0.clone();
                            ownerships.set(k, (key, Ownership::CoOwned { priority: p }));
                        }
                    },
                }
            },
        }
        i = i + 1;
    }
    assert(accs@.take(accs@.len() as int) =~= accs@);
    (ownerships, locations, sync_types)
}

/// Whether the resource's type must be `Send`
fn sends(own: &NameMap<Ownership>, name: &String) -> (r: bool)
    requires
        keys_unique(own@),
    ensures
        r == sends_for(own@, name@),
{
    match find_key(own, name) {
        Some(k) => {
            proof {
                lemma_get_at(own@, k as int);
            }
            own[k].1 != Ownership::Owned { priority: 0 }
        },
        None => false,
    }
}

/// Adding one more type to a sequence of types to insert
proof fn lemma_insert_all_push(s: Seq<Seq<TokV>>, ts: Seq<Seq<TokV>>, t: Seq<TokV>)
    ensures
        insert_all(s, ts.push(t)) == type_insert(insert_all(s, ts), t),
{
    assert(ts.push(t).drop_last() =~= ts);
}

/// The `Send` types
fn send_types_of(app: &App, own: &NameMap<Ownership>) -> (r: Vec<Tokens>)
    requires
        keys_unique(own@),
        keys_unique(app.resources@),
        forall|i: int, j: int|
            0 <= i < app.inits@.len() && 0 <= j < app.inits@[i].1.args.resources@.len()
                && sends_for(own@, app.inits@[i].1.args.resources@[j].0@) ==> has_key(
                app.resources@,
                app.inits@[i].1.args.resources@[j].0@,
            ),
    ensures
        type_views(r@) == send_after(*app, own@),
{
    let mut send: Vec<Tokens> = Vec::new();
    let ghost mut cands: Seq<Seq<TokV>> = seq![];
    assert(type_views(send@) =~= insert_all(seq![], cands));
    let late = &app.late_resources;
    let mut i: usize = 0;
    while i < late.len()
        invariant
            keys_unique(own@),
            i <= late@.len(),
            type_views(send@) == insert_all(seq![], cands),
            cands == late_send(own@, late@.take(i as int)),
        decreases late@.len() - i,
    {
        assert(late@.take(i as int + 1).drop_last() =~= late@.take(i as int));
        if sends(own, &late[i].0) {
            insert_type(&mut send, &late[i].1.ty);
            proof {
                lemma_insert_all_push(seq![], cands, tv(late@[i as int].1.ty@));
                cands = cands.push(tv(late@[i as int].1.ty@));
            }
        } else {
            assert(cands =~= cands + Seq::<Seq<TokV>>::empty());
        }
        i = i + 1;
    }
    assert(late@.take(late@.len() as int) =~= late@);
    let ghost a = cands;
    let inits = &app.inits;
    let mut i: usize = 0;
    while i < inits.len()
        invariant
            keys_unique(own@),
            keys_unique(app.resources@),
            forall|i: int, j: int|
                0 <= i < app.inits@.len() && 0 <= j < app.inits@[i].1.args.resources@.len()
                    && sends_for(own@, app.inits@[i].1.args.resources@[j].0@) ==> has_key(
                    app.resources@,
                    app.inits@[i].1.args.resources@[j].0@,
                ),
            inits == &app.inits,
            i <= inits@.len(),
            type_views(send@) == insert_all(seq![], cands),
            cands == a + init_send(own@, app.resources@, inits@.take(i as int)),
        decreases inits@.len() - i,
    {
        let res = &inits[i].1.args.resources;
        let ghost b = cands;
        let mut j: usize = 0;
        while j < res.len()
            invariant
                keys_unique(own@),
                keys_unique(app.resources@),
                forall|i: int, j: int|
                    0 <= i < app.inits@.len() && 0 <= j < app.inits@[i].1.args.resources@.len()
                        && sends_for(own@, app.inits@[i].1.args.resources@[j].0@) ==> has_key(
                        app.resources@,
                        app.inits@[i].1.args.resources@[j].0@,
                    ),
                inits == &app.inits,
                i < inits@.len(),
                res == &inits@[i as int].1.args.resources,
                j <= res@.len(),
                type_views(send@) == insert_all(seq![], cands),
                cands == b + init_ctx_send(own@, app.resources@, res@.take(j as int)),
            decreases res@.len() - j,
        {
            assert(res@.take(j as int + 1).drop_last() =~= res@.take(j as int));
            if sends(own, &res[j].0) {
                let k = find_key(&app.resources, &res[j].0).unwrap();
                proof {
                    lemma_get_at(app.resources@, k as int);
                }
                insert_type(&mut send, &app.resources[k].1.late.ty);
                proof {
                    let t = tv(app.resources@[k as int].1.late.ty@);
                    lemma_insert_all_push(seq![], cands, t);
                    cands = cands.push(t);
                }
            } else {
                assert(cands =~= cands + Seq::<Seq<TokV>>::empty());
            }
            assert(cands =~= b + init_ctx_send(own@, app.resources@, res@.take(j as int + 1)));
            j = j + 1;
        }
        assert(res@.take(res@.len() as int) =~= res@);
        assert(inits@.take(i as int + 1).drop_last() =~= inits@.take(i as int));
        assert(cands =~= a + init_send(own@, app.resources@, inits@.take(i as int + 1)));
        i = i + 1;
    }
    assert(inits@.take(inits@.len() as int) =~= inits@);
    let ghost c = cands;
    let sw = &app.software_tasks;
    let mut i: usize = 0;
    while i < sw.len()
        invariant
            i <= sw@.len(),
            type_views(send@) == insert_all(seq![], cands),
            cands == c + input_send(sw@.take(i as int)),
        decreases sw@.len() - i,
    {
        let inputs = &sw[i].1.inputs;
        let ghost d = cands;
        let mut j: usize = 0;
        while j < inputs.len()
            invariant
                j <= inputs@.len(),
                type_views(send@) == insert_all(seq![], cands),
                cands == d + input_types(inputs@.take(j as int)),
            decreases inputs@.len() - j,
        {
            insert_type(&mut send, &inputs[j].1);
            proof {
                let t = tv(inputs@[j as int].1@);
                lemma_insert_all_push(seq![], cands, t);
                cands = cands.push(t);
                assert(cands =~= d + input_types(inputs@.take(j as int + 1)));
            }
            j = j + 1;
        }
        assert(inputs@.take(inputs@.len() as int) =~= inputs@);
        assert(sw@.take(i as int + 1).drop_last() =~= sw@.take(i as int));
        assert(cands =~= c + input_send(sw@.take(i as int + 1)));
        i = i + 1;
    }
    assert(sw@.take(sw@.len() as int) =~= sw@);
    assert(cands =~= late_send(own@, app.late_resources@) + init_send(own@, app.resources@, app.inits@)
        + input_send(app.software_tasks@));
    send
}

/// The priorities are in strictly increasing order
pub open spec fn increasing(s: Seq<u8>) -> bool {
    forall|i: int, j: int| 0 <= i < j < s.len() ==> s[i] < s[j]
}

/// Inserts a priority into a strictly increasing sequence of priorities
pub fn insert_prio(v: &mut Vec<u8>, x: u8)
    requires
        increasing(old(v)@),
    ensures
        increasing(final(v)@),
        forall|y: u8| final(v)@.contains(y) <==> (old(v)@.contains(y) || y == x),
{
    let mut i: usize = 0;
    while i < v.len() && v[i] < x
        invariant
            i <= v@.len(),
            v@ == old(v)@,
            increasing(v@),
            forall|j: int| 0 <= j < i ==> v@[j] < x,
        decreases v@.len() - i,
    {
        i = i + 1;
    }
    if i < v.len() && v[i] == x {
        assert(v@[i as int] == x);
        return;
    }
    let ghost old_v = v@;
    v.insert(i, x);
    proof {
        assert forall|a: int, b: int| 0 <= a < b < v@.len() implies v@[a] < v@[b] by {
            if b < i {
            } else if a < i && b == i {
            } else if a < i && b > i {
                assert(old_v[a] < old_v[b - 1]);
            } else if a == i {
                assert(old_v[i as int] <= old_v[b - 1]);
            } else {
                assert(old_v[a - 1] < old_v[b - 1]);
            }
        }
        assert forall|y: u8| v@.contains(y) <==> (old_v.contains(y) || y == x) by {
            if v@.contains(y) {
                let k = choose|k: int| 0 <= k < v@.len() && v@[k] == y;
                if k < i {
                    assert(old_v[k] == y);
                } else if k > i {
                    assert(old_v[k - 1] == y);
                }
            }
            if old_v.contains(y) {
                let k = choose|k: int| 0 <= k < old_v.len() && old_v[k] == y;
                if k < i {
                    assert(v@[k] == y);
                } else {
                    assert(v@[k + 1] == y);
                }
            }
            if y == x {
                assert(v@[i as int] == y);
            }
        }
        assert(old_v == old(v)@);
        assert(forall|y: u8| #[trigger] v@.contains(y) <==> (old(v)@.contains(y) || y == x));
    }
}

/// A prefix of the tasks adds up to no more than all of them
proof fn lemma_cap_sum_prefix(sw: Seq<(String, SoftwareTask)>, t: int, p: u8)
    requires
        0 <= t <= sw.len(),
    ensures
        0 <= cap_sum(sw.take(t), p) <= cap_sum(sw, p),
    decreases sw.len(),
{
    if t == sw.len() {
        assert(sw.take(t) =~= sw);
        lemma_cap_sum_nonneg(sw, p);
    } else {
        lemma_cap_sum_prefix(sw.drop_last(), t, p);
        assert(sw.drop_last().take(t) =~= sw.take(t));
    }
}

/// Capacities add up to a non-negative number
proof fn lemma_cap_sum_nonneg(sw: Seq<(String, SoftwareTask)>, p: u8)
    ensures
        cap_sum(sw, p) >= 0,
    decreases sw.len(),
{
    if sw.len() > 0 {
        lemma_cap_sum_nonneg(sw.drop_last(), p);
    }
}

/// Subscription capacities add up to a non-negative number
proof fn lemma_subs_cap_nonneg(s: Seq<Subscription>)
    ensures
        subs_cap(s) >= 0,
    decreases s.len(),
{
    if s.len() > 0 {
        lemma_subs_cap_nonneg(s.drop_last());
    }
}

/// The first subscriptions add up to no more than all of them
proof fn lemma_subs_cap_prefix(s: Seq<Subscription>, j: int)
    requires
        0 <= j <= s.len(),
    ensures
        0 <= subs_cap(s.take(j)) <= subs_cap(s),
    decreases s.len(),
{
    if j == s.len() {
        assert(s.take(j) =~= s);
        lemma_subs_cap_nonneg(s);
    } else {
        lemma_subs_cap_prefix(s.drop_last(), j);
        assert(s.drop_last().take(j) =~= s.take(j));
    }
}

/// Actors' subscription capacities add up to a non-negative number
proof fn lemma_sub_sum_nonneg(actors: Seq<(String, Actor)>, p: u8)
    ensures
        sub_sum(actors, p) >= 0,
    decreases actors.len(),
{
    if actors.len() > 0 {
        lemma_sub_sum_nonneg(actors.drop_last(), p);
        lemma_subs_cap_nonneg(actors.last().1.subscriptions@);
    }
}

/// The first actors add up to no more than all of them
proof fn lemma_sub_sum_prefix(actors: Seq<(String, Actor)>, a: int, p: u8)
    requires
        0 <= a <= actors.len(),
    ensures
        0 <= sub_sum(actors.take(a), p) <= sub_sum(actors, p),
    decreases actors.len(),
{
    if a == actors.len() {
        assert(actors.take(a) =~= actors);
        lemma_sub_sum_nonneg(actors, p);
    } else {
        lemma_sub_sum_prefix(actors.drop_last(), a, p);
        assert(actors.drop_last().take(a) =~= actors.take(a));
        lemma_subs_cap_nonneg(actors.last().1.subscriptions@);
    }
}

/// Adds the priorities of the actors that subscribe to something
fn add_actor_prios(actors: &NameMap<Actor>, prios: &mut Vec<u8>)
    requires
        increasing(old(prios)@),
    ensures
        increasing(final(prios)@),
        forall|p: u8|
            #[trigger] final(prios)@.contains(p) <==> (old(prios)@.contains(p) || has_sub_prio(
                actors@,
                p,
            )),
{
    let ghost start = prios@;
    let mut a: usize = 0;
    while a < actors.len()
        invariant
            a <= actors@.len(),
            increasing(prios@),
            forall|p: u8|
                prios@.contains(p) <==> (start.contains(p) || has_sub_prio(actors@.take(a as int), p)),
        decreases actors@.len() - a,
    {
        let ghost before = prios@;
        if actors[a].1.subscriptions.len() > 0 {
            insert_prio(prios, actors[a].1.priority);
        }
        assert(forall|p: u8|
            #[trigger] prios@.contains(p) <==> (before.contains(p) || (
            actors@[a as int].1.subscriptions@.len() > 0 && p == actors@[a as int].1.priority)));
        proof {
            let pre = actors@.take(a as int);
            let post = actors@.take(a + 1);
            assert forall|p: u8| prios@.contains(p) <==> (start.contains(p) || has_sub_prio(post, p)) by {
                assert(before.contains(p) <==> (start.contains(p) || has_sub_prio(pre, p)));
                if has_sub_prio(post, p) {
                    let m = choose|m: int|
                        0 <= m < post.len() && post[m].1.priority == p && post[m].1.subscriptions@.len()
                            > 0;
                    if m < a {
                        assert(pre[m] == post[m]);
                    } else {
                        assert(post[m] == actors@[a as int]);
                    }
                }
                if has_sub_prio(pre, p) {
                    let m = choose|m: int|
                        0 <= m < pre.len() && pre[m].1.priority == p && pre[m].1.subscriptions@.len()
                            > 0;
                    assert(post[m] == pre[m]);
                }
                if actors@[a as int].1.subscriptions@.len() > 0 && p == actors@[a as int].1.priority {
                    assert(post[a as int] == actors@[a as int]);
                }
            }
        }
        a = a + 1;
    }
    assert(actors@.take(actors@.len() as int) =~= actors@);
}

/// The spawnees of tasks, by name
fn task_spawnee_list(tasks: &Vec<String>) -> (r: Vec<Spawnee>)
    ensures
        spawnees_view(r@) == task_spawnees(tasks@),
{
    let mut out: Vec<Spawnee> = Vec::new();
    let mut i: usize = 0;
    while i < tasks.len()
        invariant
            i <= tasks@.len(),
            spawnees_view(out@) == task_spawnees(tasks@.take(i as int)),
        decreases tasks@.len() - i,
    {
        let ghost before = spawnees_view(out@);
        out.push(Spawnee::Task { name: tasks[i].clone() });
        assert(spawnees_view(out@) =~= before.push(SpawneeV::Task(tasks@[i as int]@)));
        assert(task_spawnees(tasks@.take(i + 1)) =~= task_spawnees(tasks@.take(i as int)).push(
            SpawneeV::Task(tasks@[i as int]@),
        ));
        i = i + 1;
    }
    assert(tasks@.take(tasks@.len() as int) =~= tasks@);
    out
}

/// Adds the spawnees and the capacities of the subscriptions of the actors
/// at priority `p` to a channel holding `cap` so far
fn add_actor_spawnees(actors: &NameMap<Actor>, p: u8, spawnees: &mut Vec<Spawnee>, cap: u8) -> (r: u8)
    requires
        cap + sub_sum(actors@, p) <= 255,
    ensures
        r == cap + sub_sum(actors@, p),
        spawnees_view(final(spawnees)@) == spawnees_view(old(spawnees)@) + actor_spawnees(
            actors@,
            p,
        ),
{
    let ghost start = spawnees_view(spawnees@);
    let mut c = cap;
    let mut a: usize = 0;
    assert(actors@.take(0) =~= seq![]);
    assert(start + actor_spawnees(actors@.take(0), p) =~= start);
    while a < actors.len()
        invariant
            a <= actors@.len(),
            cap + sub_sum(actors@, p) <= 255,
            c == cap + sub_sum(actors@.take(a as int), p),
            spawnees_view(spawnees@) == start + actor_spawnees(actors@.take(a as int), p),
        decreases actors@.len() - a,
    {
        let ghost pre = actors@.take(a as int);
        let ghost post = actors@.take(a + 1);
        assert(post.drop_last() =~= pre);
        assert(post.last() == actors@[a as int]);
        proof {
            lemma_sub_sum_prefix(actors@, a + 1, p);
            lemma_sub_sum_nonneg(pre, p);
        }
        if actors[a].1.priority == p {
            let subs = &actors[a].1.subscriptions;
            let ghost name = actors@[a as int].0@;
            let ghost before = spawnees_view(spawnees@);
            let mut j: usize = 0;
            assert(subs@.take(0) =~= seq![]);
            assert(subscription_spawnees(name, 0) =~= seq![]);
            assert(before + subscription_spawnees(name, 0) =~= before);
            while j < subs.len()
                invariant
                    a < actors@.len(),
                    j <= subs@.len(),
                    subs@ == actors@[a as int].1.subscriptions@,
                    name == actors@[a as int].0@,
                    c == cap + sub_sum(pre, p) + subs_cap(subs@.take(j as int)),
                    cap + sub_sum(post, p) <= 255,
                    sub_sum(post, p) == sub_sum(pre, p) + subs_cap(subs@),
                    sub_sum(pre, p) >= 0,
                    spawnees_view(spawnees@) == before + subscription_spawnees(name, j as int),
                decreases subs@.len() - j,
            {
                proof {
                    lemma_subs_cap_prefix(subs@, j + 1);
                    assert(subs@.take(j + 1).drop_last() =~= subs@.take(j as int));
                    assert(subs@.take(j + 1).last() == subs@[j as int]);
                }
                c = c + subs[j].capacity;
                let ghost b2 = spawnees_view(spawnees@);
                spawnees.push(Spawnee::Actor { name: actors[a].0.clone(), subscription_index: j });
                assert(spawnees_view(spawnees@) =~= b2.push(SpawneeV::Actor(name, j as int)));
                assert(subscription_spawnees(name, j + 1) =~= subscription_spawnees(name, j as int).push(
                    SpawneeV::Actor(name, j as int),
                ));
                j = j + 1;
            }
            assert(subs@.take(subs@.len() as int) =~= subs@);
            assert(actor_spawnees(post, p) == actor_spawnees(pre, p) + subscription_spawnees(
                name,
                subs@.len() as int,
            ));
            assert(spawnees_view(spawnees@) =~= start + actor_spawnees(post, p));
        } else {
            assert(actor_spawnees(post, p) =~= actor_spawnees(pre, p));
        }
        a = a + 1;
    }
    assert(actors@.take(actors@.len() as int) =~= actors@);
    c
}

/// The channels of the software tasks and of the actors' subscriptions
fn channels_of(sw: &NameMap<SoftwareTask>, actors: &NameMap<Actor>) -> (r: Vec<(u8, Channel)>)
    requires
        load_fits(sw@, actors@),
    ensures
        channels_spec(sw@, actors@, r@),
{
    assert forall|p: u8| cap_sum(sw@, p) <= 255 by {
        lemma_sub_sum_nonneg(actors@, p);
    }
    let mut prios: Vec<u8> = Vec::new();
    let mut t: usize = 0;
    while t < sw.len()
        invariant
            t <= sw@.len(),
            increasing(prios@),
            forall|p: u8| prios@.contains(p) <==> has_prio(sw@.take(t as int), p),
        decreases sw@.len() - t,
    {
        insert_prio(&mut prios, sw[t].1.args.priority);
        proof {
            let pre = sw@.take(t as int);
            let post = sw@.take(t as int + 1);
            assert forall|p: u8| prios@.contains(p) <==> has_prio(post, p) by {
                if has_prio(post, p) {
                    let k = choose|k: int| 0 <= k < post.len() && post[k].1.args.priority == p;
                    if k < t {
                        assert(pre[k] == post[k]);
                    }
                }
                if has_prio(pre, p) {
                    let k = choose|k: int| 0 <= k < pre.len() && pre[k].1.args.priority == p;
                    assert(post[k] == pre[k]);
                }
                if p == sw@[t as int].1.args.priority {
                    assert(post[t as int] == sw@[t as int]);
                }
            }
        }
        t = t + 1;
    }
    assert(sw@.take(sw@.len() as int) =~= sw@);
    let ghost p0 = prios@;
    assert(forall|p: u8| #[trigger] p0.contains(p) <==> has_prio(sw@, p));
    add_actor_prios(actors, &mut prios);
    assert forall|p: u8| #[trigger]
        prios@.contains(p) <==> (has_prio(sw@, p) || has_sub_prio(actors@, p)) by {
        assert(prios@.contains(p) <==> (p0.contains(p) || has_sub_prio(actors@, p)));
        assert(p0.contains(p) <==> has_prio(sw@, p));
    }
    let mut chans: Vec<(u8, Channel)> = Vec::new();
    let mut k: usize = 0;
    while k < prios.len()
        invariant
            forall|p: u8| cap_sum(sw@, p) <= 255,
            load_fits(sw@, actors@),
            increasing(prios@),
            forall|p: u8| prios@.contains(p) <==> (has_prio(sw@, p) || has_sub_prio(actors@, p)),
            k <= prios@.len(),
            chans@.len() == k,
            forall|m: int|
                0 <= m < k ==> {
                    &&& #[trigger] chans@[m].0 == prios@[m]
                    &&& strictly_sorted(chans@[m].1.tasks@)
                    &&& forall|n: Seq<char>|
                        has_name(chans@[m].1.tasks@, n) <==> task_at(sw@, n, chans@[m].0)
                    &&& spawnees_view(chans@[m].1.spawnees@) == task_spawnees(chans@[m].1.tasks@)
                        + actor_spawnees(actors@, chans@[m].0)
                    &&& chans@[m].1.capacity == cap_sum(sw@, chans@[m].0) + sub_sum(
                        actors@,
                        chans@[m].0,
                    )
                },
        decreases prios@.len() - k,
    {
        let p = prios[k];
        let mut tasks: Vec<String> = Vec::new();
        let mut cap: u8 = 0;
        let mut t: usize = 0;
        while t < sw.len()
            invariant
                forall|p: u8| cap_sum(sw@, p) <= 255,
                t <= sw@.len(),
                strictly_sorted(tasks@),
                forall|n: Seq<char>| has_name(tasks@, n) <==> task_at(sw@.take(t as int), n, p),
                cap == cap_sum(sw@.take(t as int), p),
            decreases sw@.len() - t,
        {
            let ghost pre = sw@.take(t as int);
            let ghost post = sw@.take(t as int + 1);
            assert(post.drop_last() =~= pre);
            proof {
                lemma_cap_sum_prefix(sw@, t as int + 1, p);
            }
            if sw[t].1.args.priority == p {
                sorted_insert(&mut tasks, sw[t].0.clone());
                cap = cap + sw[t].1.args.capacity;
            }
            proof {
                assert forall|n: Seq<char>| has_name(tasks@, n) <==> task_at(post, n, p) by {
                    if task_at(post, n, p) {
                        let m = choose|m: int|
                            0 <= m < post.len() && post[m].0@ == n && post[m].1.args.priority == p;
                        if m < t {
                            assert(pre[m] == post[m]);
                        }
                    }
                    if task_at(pre, n, p) {
                        let m = choose|m: int|
                            0 <= m < pre.len() && pre[m].0@ == n && pre[m].1.args.priority == p;
                        assert(post[m] == pre[m]);
                    }
                    if n == sw@[t as int].0@ && sw@[t as int].1.args.priority == p {
                        assert(post[t as int] == sw@[t as int]);
                    }
                }
            }
            t = t + 1;
        }
        assert(sw@.take(sw@.len() as int) =~= sw@);
        let mut spawnees = task_spawnee_list(&tasks);
        let capacity = add_actor_spawnees(actors, p, &mut spawnees, cap);
        chans.push((p, Channel { capacity, tasks, spawnees }));
        k = k + 1;
    }
    proof {
        assert forall|q: u8| (exists|m: int| 0 <= m < chans@.len() && chans@[m].0 == q) <==> (has_prio(
            sw@,
            q,
        ) || has_sub_prio(actors@, q)) by {
            if has_prio(sw@, q) || has_sub_prio(actors@, q) {
                let m = choose|m: int| 0 <= m < prios@.len() && prios@[m] == q;
                assert(chans@[m].0 == q);
            }
            if exists|m: int| 0 <= m < chans@.len() && chans@[m].0 == q {
                let m = choose|m: int| 0 <= m < chans@.len() && chans@[m].0 == q;
                assert(prios@[m] == q);
            }
        }
        assert forall|a: int, b: int| 0 <= a < b < chans@.len() implies chans@[a].0
            < chans@[b].0 by {
            assert(chans@[a].0 == prios@[a]);
            assert(chans@[b].0 == prios@[b]);
        }
        assert forall|m: int| 0 <= m < chans@.len() implies {
            &&& strictly_sorted(chans@[m].1.tasks@)
            &&& forall|n: Seq<char>| has_name(chans@[m].1.tasks@, n) <==> task_at(sw@, n, chans@[m].0)
            &&& spawnees_view(chans@[m].1.spawnees@) == task_spawnees(chans@[m].1.tasks@)
                + actor_spawnees(actors@, chans@[m].0)
            &&& chans@[m].1.capacity == cap_sum(sw@, chans@[m].0) + sub_sum(actors@, chans@[m].0)
        } by {
            assert(chans@[m].0 == prios@[m]);
        }
    }
    chans
}

/// The names `v` as a set sorted by name
fn sorted_set(v: &Vec<String>) -> (r: Vec<String>)
    ensures
        strictly_sorted(r@),
        forall|n: Seq<char>| has_name(r@, n) <==> has_name(v@, n),
{
    let mut names: Vec<String> = Vec::new();
    let mut i: usize = 0;
    while i < v.len()
        invariant
            i <= v@.len(),
            strictly_sorted(names@),
            forall|n: Seq<char>| has_name(names@, n) <==> has_name(v@.take(i as int), n),
        decreases v@.len() - i,
    {
        sorted_insert(&mut names, v[i].clone());
        proof {
            let pre = v@.take(i as int);
            let post = v@.take(i as int + 1);
            assert forall|n: Seq<char>| has_name(names@, n) <==> has_name(post, n) by {
                if has_name(post, n) {
                    let m = choose|m: int| 0 <= m < post.len() && post[m]@ == n;
                    if m < i {
                        assert(pre[m] == post[m]);
                    }
                }
                if has_name(pre, n) {
                    let m = choose|m: int| 0 <= m < pre.len() && pre[m]@ == n;
                    assert(post[m] == pre[m]);
                }
                if n == v@[i as int]@ {
                    assert(post[i as int] == v@[i as int]);
                }
            }
        }
        i = i + 1;
    }
    assert(v@.take(v@.len() as int) =~= v@);
    names
}

/// The late resources that the first `init` initializes: those its `late`
/// argument names, or all of them where it names none
fn late_resources_of(app: &App) -> (r: Vec<Vec<String>>)
    ensures
        late_resources_spec(*app, r@),
{
    let mut late_resources: Vec<Vec<String>> = Vec::new();
    if app.late_resources.len() > 0 && app.inits.len() > 0 {
        if app.inits[0].1.args.late.len() > 0 {
            late_resources.push(sorted_set(&app.inits[0].1.args.late));
            return late_resources;
        }
        let late = &app.late_resources;
        let mut names: Vec<String> = Vec::new();
        let mut i: usize = 0;
        while i < late.len()
            invariant
                i <= late@.len(),
                strictly_sorted(names@),
                forall|n: Seq<char>| has_name(names@, n) <==> has_key(late@.take(i as int), n),
            decreases late@.len() - i,
        {
            sorted_insert(&mut names, late[i].0.clone());
            proof {
                let pre = late@.take(i as int);
                let post = late@.take(i as int + 1);
                assert forall|n: Seq<char>| has_name(names@, n) <==> has_key(post, n) by {
                    if has_key(post, n) {
                        let m = choose|m: int| 0 <= m < post.len() && post[m].0@ == n;
                        if m < i {
                            assert(pre[m] == post[m]);
                        }
                    }
                    if has_key(pre, n) {
                        let m = choose|m: int| 0 <= m < pre.len() && pre[m].0@ == n;
                        assert(post[m] == pre[m]);
                    }
                    if n == late@[i as int].0@ {
                        assert(post[i as int] == late@[i as int]);
                    }
                }
            }
            i = i + 1;
        }
        assert(late@.take(late@.len() as int) =~= late@);
        late_resources.push(names);
    }
    late_resources
}

/// Analyzes an application: ownership and location of every accessed
/// resource, the types that must be `Send` and `Sync`, the message channels
/// and the late resources
pub fn app(a: &App) -> (r: Analysis)
    requires
        analyzable(*a),
    ensures
        analysis_spec(*a, r),
{
    let late_resources = late_resources_of(a);
    let accs = a.resource_accesses();
    let (ownerships, locations, sync_types) = ownerships_of(a, &accs);
    proof {
        lemma_ownerships_unique(accs@);
    }
    let send_types = send_types_of(a, &ownerships);
    proof {
        lemma_locations_unique(accs@);
    }
    let ownerships = ownership_map(&ownerships);
    let locations = location_map(&locations);
    let ch = channels_of(&a.software_tasks, &a.actors);
    let ghost chv = ch@;
    let channels = channel_map(ch);
    proof {
        let sw = a.software_tasks@;
        let actors = a.actors@;
        assert forall|p: u8| #[trigger] channels@.contains_key(p) implies channel_ok(sw, actors, p, channels@[p]) by {
            let k = choose|k: int| 0 <= k < chv.len() && chv[k].0 == p;
            assert(channels@[chv[k].0] == chv[k].1);
            assert(channel_ok(sw, actors, chv[k].0, chv[k].1));
        }
        assert forall|p: u8| #[trigger] channels@.contains_key(p) <==> (has_prio(sw, p) || has_sub_prio(actors, p)) by {
            if channels@.contains_key(p) {
                assert(exists|k: int| 0 <= k < chv.len() && chv[k].0 == p);
            }
            if has_prio(sw, p) || has_sub_prio(actors, p) {
                assert(exists|k: int| 0 <= k < chv.len() && chv[k].0 == p);
            }
        }
    }
    Analysis { channels, late_resources, locations, ownerships, send_types, sync_types }
}

/// The channels, listed by ascending priority, as a map by priority
fn channel_map(ch: Vec<(u8, Channel)>) -> (m: std::collections::BTreeMap<u8, Channel>)
    requires
        forall|i: int, j: int| 0 <= i < j < ch@.len() ==> ch@[i].0 < ch@[j].0,
    ensures
        forall|p: u8| #[trigger] m@.contains_key(p) <==> (exists|k: int| 0 <= k < ch@.len() && ch@[k].0 == p),
        forall|k: int| 0 <= k < ch@.len() ==> m@[#[trigger] ch@[k].0] == ch@[k].1,
{
    let ghost all = ch@;
    let mut v = ch;
    let mut m: std::collections::BTreeMap<u8, Channel> = std::collections::BTreeMap::new();
    while v.len() > 0
        invariant
            forall|i: int, j: int| 0 <= i < j < all.len() ==> all[i].0 < all[j].0,
            v@ == all.take(v@.len() as int),
            v@.len() <= all.len(),
            forall|p: u8| #[trigger] m@.contains_key(p) <==> (exists|k: int| v@.len() <= k < all.len() && all[k].0 == p),
            forall|k: int| v@.len() <= k < all.len() ==> m@[#[trigger] all[k].0] == all[k].1,
        decreases v@.len(),
    {
        let ghost n = v@.len() as int;
        let (p, c) = v.pop().unwrap();
        assert(all[n - 1] == (p, c));
        m.insert(p, c);
        assert(v@ =~= all.take(n - 1));
        assert forall|q: u8| #[trigger] m@.contains_key(q) <==> (exists|k: int| n - 1 <= k < all.len() && all[k].0 == q) by {
            if q == p {
                assert(all[n - 1].0 == q);
            }
        }
        assert forall|k: int| n - 1 <= k < all.len() implies m@[#[trigger] all[k].0] == all[k].1 by {
            if k > n - 1 {
                assert(all[n - 1].0 < all[k].0);
            }
        }
    }
    m
}

/// The ownerships before the access at `i`
spec fn pre_own(accs: Seq<ResourceAccess>, i: int) -> Seq<(String, Ownership)> {
    ownerships_after(accs.take(i))
}

/// Do the capacities of the software tasks and of the actors' subscriptions
/// of each priority add up to 255 or less?
pub fn capacities_fit(sw: &NameMap<SoftwareTask>, actors: &NameMap<Actor>) -> (r: bool)
    ensures
        r == load_fits(sw@, actors@),
{
    let mut p: u16 = 0;
    while p < 256
        invariant
            p <= 256,
            forall|q: u8| q < p ==> cap_sum(sw@, q) + sub_sum(actors@, q) <= 255,
        decreases 256 - p,
    {
        let q = p as u8;
        let mut sum: u16 = 0;
        let mut i: usize = 0;
        assert(sw@.take(0) =~= seq![]);
        while i < sw.len()
            invariant
                i <= sw@.len(),
                sum == cap_sum(sw@.take(i as int), q),
                sum <= 255,
            decreases sw@.len() - i,
        {
            assert(sw@.take(i + 1).drop_last() =~= sw@.take(i as int));
            assert(sw@.take(i + 1).last() == sw@[i as int]);
            if sw[i].1.args.priority == q {
                sum = sum + sw[i].1.args.capacity as u16;
            }
            if sum > 255 {
                proof {
                    lemma_cap_sum_prefix(sw@, i + 1, q);
                    lemma_sub_sum_nonneg(actors@, q);
                }
                return false;
            }
            i = i + 1;
        }
        assert(sw@.take(sw@.len() as int) =~= sw@);
        let ghost tasks_sum = sum as int;
        let mut a: usize = 0;
        assert(actors@.take(0) =~= seq![]);
        while a < actors.len()
            invariant
                a <= actors@.len(),
                tasks_sum == cap_sum(sw@, q),
                sum == tasks_sum + sub_sum(actors@.take(a as int), q),
                sum <= 255,
            decreases actors@.len() - a,
        {
            let ghost pre = actors@.take(a as int);
            let ghost post = actors@.take(a + 1);
            assert(post.drop_last() =~= pre);
            assert(post.last() == actors@[a as int]);
            if actors[a].1.priority == q {
                let subs = &actors[a].1.subscriptions;
                let mut j: usize = 0;
                assert(subs@.take(0) =~= seq![]);
                while j < subs.len()
                    invariant
                        a < actors@.len(),
                        pre == actors@.take(a as int),
                        post == actors@.take(a + 1),
                        j <= subs@.len(),
                        subs@ == actors@[a as int].1.subscriptions@,
                        tasks_sum == cap_sum(sw@, q),
                        sum == tasks_sum + sub_sum(pre, q) + subs_cap(subs@.take(j as int)),
                        sum <= 255,
                        sub_sum(post, q) == sub_sum(pre, q) + subs_cap(subs@),
                    decreases subs@.len() - j,
                {
                    assert(subs@.take(j + 1).drop_last() =~= subs@.take(j as int));
                    assert(subs@.take(j + 1).last() == subs@[j as int]);
                    sum = sum + subs[j].capacity as u16;
                    assert(subs_cap(subs@.take(j + 1)) == subs_cap(subs@.take(j as int))
                        + subs@[j as int].capacity);
                    assert(sum == tasks_sum + sub_sum(pre, q) + subs_cap(subs@.take(j + 1)));
                    if sum > 255 {
                        proof {
                            lemma_subs_cap_prefix(subs@, j + 1);
                            lemma_sub_sum_prefix(actors@, a + 1, q);
                            assert(sub_sum(post, q) <= sub_sum(actors@, q));
                            assert(cap_sum(sw@, q) + sub_sum(actors@, q) > 255);
                        }
                        return false;
                    }
                    j = j + 1;
                }
                assert(subs@.take(subs@.len() as int) =~= subs@);
            }
            a = a + 1;
        }
        assert(actors@.take(actors@.len() as int) =~= actors@);
        p = p + 1;
    }
    true
}

} // verus!
