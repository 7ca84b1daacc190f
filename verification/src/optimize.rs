//! Priority compression

use vstd::prelude::*;

use crate::accessors::{accesses, hw_accesses, idles_accesses, inits_accesses, sw_accesses};
use crate::analyze::{increasing, insert_prio};
use crate::ast::{App, HardwareTask, HardwareTaskArgs, SoftwareTask, SoftwareTaskArgs};
use crate::Settings;

verus! {

/// The priorities of the hardware tasks of core `c`, in order
pub open spec fn hw_core_prios(hw: Seq<(String, HardwareTask)>, c: u8) -> Seq<u8>
    decreases hw.len(),
{
    if hw.len() == 0 {
        seq![]
    } else {
        hw_core_prios(hw.drop_last(), c) + if hw.last().1.args.core == c {
            seq![hw.last().1.args.priority]
        } else {
            seq![]
        }
    }
}

/// The priorities of the software tasks of core `c`, in order
pub open spec fn sw_core_prios(sw: Seq<(String, SoftwareTask)>, c: u8) -> Seq<u8>
    decreases sw.len(),
{
    if sw.len() == 0 {
        seq![]
    } else {
        sw_core_prios(sw.drop_last(), c) + if sw.last().1.args.core == c {
            seq![sw.last().1.args.priority]
        } else {
            seq![]
        }
    }
}

/// The set of priorities of the tasks of core `c`
pub open spec fn core_prios(app: App, c: u8) -> Set<u8> {
    (hw_core_prios(app.hardware_tasks@, c) + sw_core_prios(app.software_tasks@, c)).to_set()
}

/// The rank of `p` among the priorities `s`: 1 for the lowest
pub open spec fn rank(s: Set<u8>, p: u8) -> int {
    s.filter(|q: u8| q < p).len() as int + 1
}

/// The priority a task of core `core` at priority `p` has after compression
pub open spec fn compressed(app: App, core: u8, p: u8) -> u8 {
    if core < app.args.cores {
        rank(core_prios(app, core), p) as u8
    } else {
        p
    }
}

/// The hardware task with its priority replaced
pub open spec fn hw_with_prio(t: HardwareTask, p: u8) -> HardwareTask {
    HardwareTask { args: HardwareTaskArgs { priority: p, ..t.args }, ..t }
}

/// The software task with its priority replaced
pub open spec fn sw_with_prio(t: SoftwareTask, p: u8) -> SoftwareTask {
    SoftwareTask { args: SoftwareTaskArgs { priority: p, ..t.args }, ..t }
}

/// `new` is `old` with the priorities of its tasks compressed core by core
pub open spec fn optimized(old: App, new: App) -> bool {
    &&& new.args == old.args
    &&& new.name == old.name
    &&& new.inits == old.inits
    &&& new.idles == old.idles
    &&& new.late_resources == old.late_resources
    &&& new.resources == old.resources
    &&& new.extern_interrupts == old.extern_interrupts
    &&& new.monotonics == old.monotonics
    &&& new.actors == old.actors
    &&& new.hardware_tasks@.len() == old.hardware_tasks@.len()
    &&& new.software_tasks@.len() == old.software_tasks@.len()
    &&& forall|k: int|
        0 <= k < old.hardware_tasks@.len() ==> #[trigger] new.hardware_tasks@[k] == (
            old.hardware_tasks@[k].0,
            hw_with_prio(
                old.hardware_tasks@[k].1,
                compressed(
                    old,
                    old.hardware_tasks@[k].1.args.core,
                    old.hardware_tasks@[k].1.args.priority,
                ),
            ),
        )
    &&& forall|k: int|
        0 <= k < old.software_tasks@.len() ==> #[trigger] new.software_tasks@[k] == (
            old.software_tasks@[k].0,
            sw_with_prio(
                old.software_tasks@[k].1,
                compressed(
                    old,
                    old.software_tasks@[k].1.args.core,
                    old.software_tasks@[k].1.args.priority,
                ),
            ),
        )
}

/// What compression needs: each core has at most 255 distinct priorities
pub open spec fn compressible(app: App) -> bool {
    forall|c: u8| c < app.args.cores ==> #[trigger] core_prios(app, c).len() <= 255
}


/// In a strictly increasing sequence, the element at `j` has rank `j + 1`
proof fn lemma_rank(s: Seq<u8>, j: int)
    requires
        increasing(s),
        0 <= j < s.len(),
    ensures
        rank(s.to_set(), s[j]) == j + 1,
{
    let p = s[j];
    let t = s.take(j);
    assert forall|q: u8| s.to_set().filter(|q: u8| q < p).contains(q) <==> t.to_set().contains(q) by {
        if s.to_set().filter(|q: u8| q < p).contains(q) {
            let k = choose|k: int| 0 <= k < s.len() && s[k] == q;
            if k >= j {
                if k > j {
                    assert(s[j] < s[k]);
                }
            }
            assert(t[k] == q);
        }
        if t.to_set().contains(q) {
            let k = choose|k: int| 0 <= k < t.len() && t[k] == q;
            assert(s[k] == q);
            assert(s[k] < s[j]);
        }
    }
    assert(s.to_set().filter(|q: u8| q < p) =~= t.to_set());
    assert(t.no_duplicates()) by {
        assert forall|x: int, y: int| 0 <= x < t.len() && 0 <= y < t.len() && x != y implies t[x]
            != t[y] by {
            if x < y {
                assert(s[x] < s[y]);
            } else {
                assert(s[y] < s[x]);
            }
        }
    }
    t.unique_seq_to_set();
}

/// A strictly increasing sequence has as many elements as its set
proof fn lemma_increasing_len(s: Seq<u8>)
    requires
        increasing(s),
    ensures
        s.to_set().len() == s.len(),
{
    assert(s.no_duplicates()) by {
        assert forall|x: int, y: int| 0 <= x < s.len() && 0 <= y < s.len() && x != y implies s[x]
            != s[y] by {
            if x < y {
                assert(s[x] < s[y]);
            } else {
                assert(s[y] < s[x]);
            }
        }
    }
    s.unique_seq_to_set();
}

/// Hardware tasks of core `c` that keep their cores and, on core `c`, their
/// priorities, yield the same priorities for core `c`
proof fn lemma_hw_core_prios_same(a: Seq<(String, HardwareTask)>, b: Seq<(String, HardwareTask)>, c: u8)
    requires
        a.len() == b.len(),
        forall|k: int| 0 <= k < a.len() ==> #[trigger] a[k].1.args.core == b[k].1.args.core,
        forall|k: int|
            0 <= k < a.len() && a[k].1.args.core == c ==> #[trigger] a[k].1.args.priority
                == b[k].1.args.priority,
    ensures
        hw_core_prios(a, c) == hw_core_prios(b, c),
    decreases a.len(),
{
    if a.len() > 0 {
        lemma_hw_core_prios_same(a.drop_last(), b.drop_last(), c);
        assert(a.last() == a[a.len() - 1]);
        assert(b.last() == b[b.len() - 1]);
    }
}

/// Same for software tasks
proof fn lemma_sw_core_prios_same(a: Seq<(String, SoftwareTask)>, b: Seq<(String, SoftwareTask)>, c: u8)
    requires
        a.len() == b.len(),
        forall|k: int| 0 <= k < a.len() ==> #[trigger] a[k].1.args.core == b[k].1.args.core,
        forall|k: int|
            0 <= k < a.len() && a[k].1.args.core == c ==> #[trigger] a[k].1.args.priority
                == b[k].1.args.priority,
    ensures
        sw_core_prios(a, c) == sw_core_prios(b, c),
    decreases a.len(),
{
    if a.len() > 0 {
        lemma_sw_core_prios_same(a.drop_last(), b.drop_last(), c);
        assert(a.last() == a[a.len() - 1]);
        assert(b.last() == b[b.len() - 1]);
    }
}

/// The distinct priorities of the tasks of core `c`, in ascending order
pub fn core_priorities(app: &App, c: u8) -> (r: Vec<u8>)
    ensures
        increasing(r@),
        r@.to_set() == core_prios(*app, c),
{
    let mut r: Vec<u8> = Vec::new();
    let hw = &app.hardware_tasks;
    let mut i: usize = 0;
    while i < hw.len()
        invariant
            i <= hw@.len(),
            increasing(r@),
            forall|y: u8| r@.contains(y) <==> hw_core_prios(hw@.take(i as int), c).contains(y),
        decreases hw@.len() - i,
    {
        let ghost pre = hw_core_prios(hw@.take(i as int), c);
        assert(hw@.take(i as int + 1).drop_last() =~= hw@.take(i as int));
        if hw[i].1.args.core == c {
            insert_prio(&mut r, hw[i].1.args.priority);
            proof {
                let post = hw_core_prios(hw@.take(i as int + 1), c);
                assert(post =~= pre.push(hw@[i as int].1.args.priority));
                assert forall|y: u8| r@.contains(y) <==> post.contains(y) by {
                    if pre.contains(y) {
                        let k = choose|k: int| 0 <= k < pre.len() && pre[k] == y;
                        assert(post[k] == y);
                    }
                    if post.contains(y) {
                        let k = choose|k: int| 0 <= k < post.len() && post[k] == y;
                        if k < pre.len() {
                            assert(pre[k] == y);
                        }
                    }
                    if y == hw@[i as int].1.args.priority {
                        assert(post[pre.len() as int] == y);
                    }
                }
            }
        } else {
            assert(hw_core_prios(hw@.take(i as int + 1), c) =~= pre);
        }
        i = i + 1;
    }
    assert(hw@.take(hw@.len() as int) =~= hw@);
    let ghost h = hw_core_prios(hw@, c);
    let sw = &app.software_tasks;
    let mut i: usize = 0;
    while i < sw.len()
        invariant
            i <= sw@.len(),
            increasing(r@),
            forall|y: u8| r@.contains(y) <==> (h + sw_core_prios(sw@.take(i as int), c)).contains(y),
        decreases sw@.len() - i,
    {
        let ghost pre = h + sw_core_prios(sw@.take(i as int), c);
        assert(sw@.take(i as int + 1).drop_last() =~= sw@.take(i as int));
        if sw[i].1.args.core == c {
            insert_prio(&mut r, sw[i].1.args.priority);
            proof {
                let post = h + sw_core_prios(sw@.take(i as int + 1), c);
                assert(post =~= pre.push(sw@[i as int].1.args.priority));
                assert forall|y: u8| r@.contains(y) <==> post.contains(y) by {
                    if pre.contains(y) {
                        let k = choose|k: int| 0 <= k < pre.len() && pre[k] == y;
                        assert(post[k] == y);
                    }
                    if post.contains(y) {
                        let k = choose|k: int| 0 <= k < post.len() && post[k] == y;
                        if k < pre.len() {
                            assert(pre[k] == y);
                        }
                    }
                    if y == sw@[i as int].1.args.priority {
                        assert(post[pre.len() as int] == y);
                    }
                }
            }
        } else {
            assert(h + sw_core_prios(sw@.take(i as int + 1), c) =~= pre);
        }
        i = i + 1;
    }
    assert(sw@.take(sw@.len() as int) =~= sw@);
    assert(r@.to_set() =~= core_prios(*app, c));
    r
}

/// Replaces the priority of one hardware task
fn set_hw_priority(v: &mut Vec<(String, HardwareTask)>, k: usize, p: u8)
    requires
        k < old(v)@.len(),
    ensures
        final(v)@ == old(v)@.update(k as int, (old(v)@[k as int].0, hw_with_prio(old(v)@[k as int].1, p))),
{
    let (name, mut t) = v.remove(k);
    t.args.priority = p;
    v.insert(k, (name, t));
    assert(v@ =~= old(v)@.update(k as int, (old(v)@[k as int].0, hw_with_prio(old(v)@[k as int].1, p))));
}

/// Replaces the priority of one software task
fn set_sw_priority(v: &mut Vec<(String, SoftwareTask)>, k: usize, p: u8)
    requires
        k < old(v)@.len(),
    ensures
        final(v)@ == old(v)@.update(k as int, (old(v)@[k as int].0, sw_with_prio(old(v)@[k as int].1, p))),
{
    let (name, mut t) = v.remove(k);
    t.args.priority = p;
    v.insert(k, (name, t));
    assert(v@ =~= old(v)@.update(k as int, (old(v)@[k as int].0, sw_with_prio(old(v)@[k as int].1, p))));
}

/// The position of `p` in a strictly increasing sequence that holds it
fn position(v: &Vec<u8>, p: u8) -> (r: usize)
    requires
        v@.contains(p),
    ensures
        r < v@.len(),
        v@[r as int] == p,
{
    let mut i: usize = 0;
    while i < v.len()
        invariant
            v@.contains(p),
            i <= v@.len(),
            forall|j: int| 0 <= j < i ==> v@[j] != p,
        decreases v@.len() - i,
    {
        if v[i] == p {
            return i;
        }
        i = i + 1;
    }
    i
}

/// The priority a task has after the cores before `c` have been processed
/// and, on core `c`, the tasks before `k`
spec fn hw_target(old: App, i: int, c: u8, k: int) -> u8 {
    let t = old.hardware_tasks@[i].1;
    if t.args.core < c || (t.args.core == c && i < k) {
        compressed(old, t.args.core, t.args.priority)
    } else {
        t.args.priority
    }
}

/// The same for software tasks
spec fn sw_target(old: App, i: int, c: u8, k: int) -> u8 {
    let t = old.software_tasks@[i].1;
    if t.args.core < c || (t.args.core == c && i < k) {
        compressed(old, t.args.core, t.args.priority)
    } else {
        t.args.priority
    }
}

/// "Compresses" priorities: if the user specified, for example, task
/// priorities of "1, 3, 6", they become "1, 2, 3", leaving no gaps. This is
/// done per core: the task priorities of one core have no effect on the task
/// scheduling of other cores
pub fn app(a: &mut App, settings: &Settings)
    requires
        settings.optimize_priorities ==> compressible(*old(a)),
    ensures
        settings.optimize_priorities ==> optimized(*old(a), *final(a)),
        !settings.optimize_priorities ==> *final(a) == *old(a),
{
    if !settings.optimize_priorities {
        return;
    }
    let ghost old_app = *a;
    let mut c: u8 = 0;
    while c < a.args.cores
        invariant
            compressible(old_app),
            c <= a.args.cores,
            a.args == old_app.args,
            a.name == old_app.name,
            a.inits == old_app.inits,
            a.idles == old_app.idles,
            a.late_resources == old_app.late_resources,
            a.resources == old_app.resources,
            a.extern_interrupts == old_app.extern_interrupts,
            a.monotonics == old_app.monotonics,
                a.actors == old_app.actors,
            a.hardware_tasks@.len() == old_app.hardware_tasks@.len(),
            a.software_tasks@.len() == old_app.software_tasks@.len(),
            forall|i: int|
                0 <= i < old_app.hardware_tasks@.len() ==> #[trigger] a.hardware_tasks@[i] == (
                    old_app.hardware_tasks@[i].0,
                    hw_with_prio(old_app.hardware_tasks@[i].1, hw_target(old_app, i, c, 0)),
                ),
            forall|i: int|
                0 <= i < old_app.software_tasks@.len() ==> #[trigger] a.software_tasks@[i] == (
                    old_app.software_tasks@[i].0,
                    sw_with_prio(old_app.software_tasks@[i].1, sw_target(old_app, i, c, 0)),
                ),
        decreases old_app.args.cores - c,
    {
        proof {
            lemma_hw_core_prios_same(a.hardware_tasks@, old_app.hardware_tasks@, c);
            lemma_sw_core_prios_same(a.software_tasks@, old_app.software_tasks@, c);
        }
        let prios = core_priorities(a, c);
        proof {
            lemma_increasing_len(prios@);
            assert(core_prios(old_app, c).len() <= 255);
        }
        let mut k: usize = 0;
        while k < a.hardware_tasks.len()
            invariant
                c < old_app.args.cores,
                increasing(prios@),
                prios@.to_set() == core_prios(old_app, c),
                prios@.len() <= 255,
                k <= a.hardware_tasks@.len(),
                a.args == old_app.args,
                a.name == old_app.name,
                a.inits == old_app.inits,
                a.idles == old_app.idles,
                a.late_resources == old_app.late_resources,
                a.resources == old_app.resources,
                a.extern_interrupts == old_app.extern_interrupts,
                a.monotonics == old_app.monotonics,
                a.actors == old_app.actors,
                a.hardware_tasks@.len() == old_app.hardware_tasks@.len(),
                a.software_tasks@.len() == old_app.software_tasks@.len(),
                forall|i: int|
                    0 <= i < old_app.hardware_tasks@.len() ==> #[trigger] a.hardware_tasks@[i] == (
                        old_app.hardware_tasks@[i].0,
                        hw_with_prio(old_app.hardware_tasks@[i].1, hw_target(old_app, i, c, k as int)),
                    ),
                forall|i: int|
                    0 <= i < old_app.software_tasks@.len() ==> #[trigger] a.software_tasks@[i] == (
                        old_app.software_tasks@[i].0,
                        sw_with_prio(old_app.software_tasks@[i].1, sw_target(old_app, i, c, 0)),
                    ),
            decreases a.hardware_tasks@.len() - k,
        {
            let ghost ot = old_app.hardware_tasks@[k as int].1;
            assert(a.hardware_tasks@[k as int].1.args.core == ot.args.core);
            if a.hardware_tasks[k].1.args.core == c {
                let p = a.hardware_tasks[k].1.args.priority;
                assert(p == ot.args.priority);
                proof {
                    let hs = hw_core_prios(old_app.hardware_tasks@, c);
                    lemma_hw_core_prio_member(old_app.hardware_tasks@, c, k as int);
                    let q = choose|q: int| 0 <= q < hs.len() && hs[q] == p;
                    assert((hs + sw_core_prios(old_app.software_tasks@, c))[q] == p);
                    assert(core_prios(old_app, c).contains(p));
                    assert(prios@.to_set().contains(p));
                }
                let j = position(&prios, p);
                proof {
                    lemma_rank(prios@, j as int);
                }
                set_hw_priority(&mut a.hardware_tasks, k, (j + 1) as u8);
            }
            k = k + 1;
            proof {
                assert forall|i: int| 0 <= i < old_app.hardware_tasks@.len() implies #[trigger] a.hardware_tasks@[i]
                    == (
                    old_app.hardware_tasks@[i].0,
                    hw_with_prio(old_app.hardware_tasks@[i].1, hw_target(old_app, i, c, k as int)),
                ) by {
                    if i == k - 1 && old_app.hardware_tasks@[i].1.args.core == c {
                    }
                }
            }
        }
        let mut k: usize = 0;
        while k < a.software_tasks.len()
            invariant
                c < old_app.args.cores,
                increasing(prios@),
                prios@.to_set() == core_prios(old_app, c),
                prios@.len() <= 255,
                k <= a.software_tasks@.len(),
                a.args == old_app.args,
                a.name == old_app.name,
                a.inits == old_app.inits,
                a.idles == old_app.idles,
                a.late_resources == old_app.late_resources,
                a.resources == old_app.resources,
                a.extern_interrupts == old_app.extern_interrupts,
                a.monotonics == old_app.monotonics,
                a.actors == old_app.actors,
                a.hardware_tasks@.len() == old_app.hardware_tasks@.len(),
                a.software_tasks@.len() == old_app.software_tasks@.len(),
                forall|i: int|
                    0 <= i < old_app.hardware_tasks@.len() ==> #[trigger] a.hardware_tasks@[i] == (
                        old_app.hardware_tasks@[i].0,
                        hw_with_prio(
                            old_app.hardware_tasks@[i].1,
                            hw_target(old_app, i, c, old_app.hardware_tasks@.len() as int),
                        ),
                    ),
                forall|i: int|
                    0 <= i < old_app.software_tasks@.len() ==> #[trigger] a.software_tasks@[i] == (
                        old_app.software_tasks@[i].0,
                        sw_with_prio(old_app.software_tasks@[i].1, sw_target(old_app, i, c, k as int)),
                    ),
            decreases a.software_tasks@.len() - k,
        {
            let ghost ot = old_app.software_tasks@[k as int].1;
            assert(a.software_tasks@[k as int].1.args.core == ot.args.core);
            if a.software_tasks[k].1.args.core == c {
                let p = a.software_tasks[k].1.args.priority;
                assert(p == ot.args.priority);
                proof {
                    let ss = sw_core_prios(old_app.software_tasks@, c);
                    let hs = hw_core_prios(old_app.hardware_tasks@, c);
                    lemma_sw_core_prio_member(old_app.software_tasks@, c, k as int);
                    let q = choose|q: int| 0 <= q < ss.len() && ss[q] == p;
                    assert((hs + ss)[hs.len() + q] == p);
                    assert(core_prios(old_app, c).contains(p));
                    assert(prios@.to_set().contains(p));
                }
                let j = position(&prios, p);
                proof {
                    lemma_rank(prios@, j as int);
                }
                set_sw_priority(&mut a.software_tasks, k, (j + 1) as u8);
            }
            k = k + 1;
        }
        proof {
            assert forall|i: int| 0 <= i < old_app.hardware_tasks@.len() implies #[trigger] a.hardware_tasks@[i]
                == (
                old_app.hardware_tasks@[i].0,
                hw_with_prio(old_app.hardware_tasks@[i].1, hw_target(old_app, i, (c + 1) as u8, 0)),
            ) by {
                assert(hw_target(old_app, i, c, old_app.hardware_tasks@.len() as int) == hw_target(
                    old_app,
                    i,
                    (c + 1) as u8,
                    0,
                ));
            }
            assert forall|i: int| 0 <= i < old_app.software_tasks@.len() implies #[trigger] a.software_tasks@[i]
                == (
                old_app.software_tasks@[i].0,
                sw_with_prio(old_app.software_tasks@[i].1, sw_target(old_app, i, (c + 1) as u8, 0)),
            ) by {
                assert(sw_target(old_app, i, c, old_app.software_tasks@.len() as int) == sw_target(
                    old_app,
                    i,
                    (c + 1) as u8,
                    0,
                ));
            }
        }
        c = c + 1;
    }
    proof {
        assert forall|i: int| 0 <= i < old_app.hardware_tasks@.len() implies hw_target(old_app, i, c, 0)
            == compressed(
            old_app,
            old_app.hardware_tasks@[i].1.args.core,
            old_app.hardware_tasks@[i].1.args.priority,
        ) by {}
        assert forall|i: int| 0 <= i < old_app.software_tasks@.len() implies sw_target(old_app, i, c, 0)
            == compressed(
            old_app,
            old_app.software_tasks@[i].1.args.core,
            old_app.software_tasks@[i].1.args.priority,
        ) by {}
    }
}

/// Law: compression keeps the order of priorities: of two priorities used on
/// core `c`, the lower one stays lower
pub proof fn law_compression_keeps_order(app: App, c: u8, p: u8, q: u8)
    requires
        compressible(app),
        c < app.args.cores,
        core_prios(app, c).contains(p),
        core_prios(app, c).contains(q),
        p < q,
    ensures
        compressed(app, c, p) < compressed(app, c, q),
        1 <= compressed(app, c, p),
{
    let s = core_prios(app, c);
    assert(s.len() <= 255);
    let sp = s.filter(|x: u8| x < p);
    let sq = s.filter(|x: u8| x < q);
    assert(sp.insert(p).subset_of(sq));
    assert(!sp.contains(p));
    vstd::set_lib::lemma_len_subset(sp.insert(p), sq);
    assert(sq.subset_of(s.remove(q)));
    vstd::set_lib::lemma_len_subset(sq, s.remove(q));
}

/// Law: compression leaves no gaps: listing the priorities of core `c` in
/// ascending order, the `j`-th of them becomes `j + 1`
pub proof fn law_compression_dense(app: App, c: u8, s: Seq<u8>, j: int)
    requires
        compressible(app),
        c < app.args.cores,
        increasing(s),
        s.to_set() == core_prios(app, c),
        0 <= j < s.len(),
    ensures
        compressed(app, c, s[j]) == j + 1,
{
    lemma_rank(s, j);
    lemma_increasing_len(s);
}

/// A hardware task's priority is among the priorities of its core
proof fn lemma_hw_core_prio_member(hw: Seq<(String, HardwareTask)>, c: u8, k: int)
    requires
        0 <= k < hw.len(),
        hw[k].1.args.core == c,
    ensures
        hw_core_prios(hw, c).contains(hw[k].1.args.priority),
    decreases hw.len(),
{
    let hs = hw_core_prios(hw, c);
    if k == hw.len() - 1 {
        assert(hs[hs.len() - 1] == hw[k].1.args.priority);
    } else {
        lemma_hw_core_prio_member(hw.drop_last(), c, k);
        let pre = hw_core_prios(hw.drop_last(), c);
        let q = choose|q: int| 0 <= q < pre.len() && pre[q] == hw[k].1.args.priority;
        assert(hs[q] == pre[q]);
    }
}

/// A software task's priority is among the priorities of its core
proof fn lemma_sw_core_prio_member(sw: Seq<(String, SoftwareTask)>, c: u8, k: int)
    requires
        0 <= k < sw.len(),
        sw[k].1.args.core == c,
    ensures
        sw_core_prios(sw, c).contains(sw[k].1.args.priority),
    decreases sw.len(),
{
    let ss = sw_core_prios(sw, c);
    if k == sw.len() - 1 {
        assert(ss[ss.len() - 1] == sw[k].1.args.priority);
    } else {
        lemma_sw_core_prio_member(sw.drop_last(), c, k);
        let pre = sw_core_prios(sw.drop_last(), c);
        let q = choose|q: int| 0 <= q < pre.len() && pre[q] == sw[k].1.args.priority;
        assert(ss[q] == pre[q]);
    }
}

/// Accesses in the same order with the same names, where the tasks access
/// the same resources
proof fn lemma_hw_access_names(a: Seq<(String, HardwareTask)>, b: Seq<(String, HardwareTask)>)
    requires
        a.len() == b.len(),
        forall|k: int| 0 <= k < a.len() ==> #[trigger] b[k].1.args.resources == a[k].1.args.resources,
    ensures
        hw_accesses(b).len() == hw_accesses(a).len(),
        forall|i: int|
            0 <= i < hw_accesses(a).len() ==> #[trigger] hw_accesses(b)[i].2 == hw_accesses(a)[i].2,
    decreases a.len(),
{
    if a.len() > 0 {
        assert forall|k: int| 0 <= k < a.drop_last().len() implies #[trigger] b.drop_last()[k].1.args.resources
            == a.drop_last()[k].1.args.resources by {
            assert(b.drop_last()[k] == b[k]);
            assert(a.drop_last()[k] == a[k]);
        }
        lemma_hw_access_names(a.drop_last(), b.drop_last());
        assert(b.last().1.args.resources == a.last().1.args.resources);
    }
}

/// Accesses in the same order with the same names, where the tasks access
/// the same resources
proof fn lemma_sw_access_names(a: Seq<(String, SoftwareTask)>, b: Seq<(String, SoftwareTask)>)
    requires
        a.len() == b.len(),
        forall|k: int| 0 <= k < a.len() ==> #[trigger] b[k].1.args.resources == a[k].1.args.resources,
    ensures
        sw_accesses(b).len() == sw_accesses(a).len(),
        forall|i: int|
            0 <= i < sw_accesses(a).len() ==> #[trigger] sw_accesses(b)[i].2 == sw_accesses(a)[i].2,
    decreases a.len(),
{
    if a.len() > 0 {
        assert forall|k: int| 0 <= k < a.drop_last().len() implies #[trigger] b.drop_last()[k].1.args.resources
            == a.drop_last()[k].1.args.resources by {
            assert(b.drop_last()[k] == b[k]);
            assert(a.drop_last()[k] == a[k]);
        }
        lemma_sw_access_names(a.drop_last(), b.drop_last());
        assert(b.last().1.args.resources == a.last().1.args.resources);
    }
}

/// Compression changes priorities only: the resources accessed, in order,
/// and the names of the software tasks stay
pub proof fn law_compression_keeps_accesses(old: App, new: App)
    requires
        optimized(old, new),
    ensures
        accesses(new).len() == accesses(old).len(),
        forall|i: int| 0 <= i < accesses(old).len() ==> #[trigger] accesses(new)[i].2 == accesses(old)[i].2,
        forall|k: int|
            0 <= k < old.software_tasks@.len() ==> #[trigger] new.software_tasks@[k].0 == old.software_tasks@[k].0,
{
    assert forall|k: int| 0 <= k < old.hardware_tasks@.len() implies #[trigger] new.hardware_tasks@[k].1.args.resources
        == old.hardware_tasks@[k].1.args.resources by {
        assert(new.hardware_tasks@[k] == (
            old.hardware_tasks@[k].0,
            hw_with_prio(
                old.hardware_tasks@[k].1,
                compressed(old, old.hardware_tasks@[k].1.args.core, old.hardware_tasks@[k].1.args.priority),
            ),
        ));
    }
    assert forall|k: int| 0 <= k < old.software_tasks@.len() implies #[trigger] new.software_tasks@[k].1.args.resources
        == old.software_tasks@[k].1.args.resources by {
        assert(new.software_tasks@[k] == (
            old.software_tasks@[k].0,
            sw_with_prio(
                old.software_tasks@[k].1,
                compressed(old, old.software_tasks@[k].1.args.core, old.software_tasks@[k].1.args.priority),
            ),
        ));
    }
    lemma_hw_access_names(old.hardware_tasks@, new.hardware_tasks@);
    lemma_sw_access_names(old.software_tasks@, new.software_tasks@);
    let a1 = inits_accesses(old.inits@) + idles_accesses(old.idles@);
    let h0 = hw_accesses(old.hardware_tasks@);
    let h1 = hw_accesses(new.hardware_tasks@);
    let s0 = sw_accesses(old.software_tasks@);
    let s1 = sw_accesses(new.software_tasks@);
    assert(accesses(old) == a1 + h0 + s0);
    assert(accesses(new) == a1 + h1 + s1);
    assert forall|i: int| 0 <= i < accesses(old).len() implies #[trigger] accesses(new)[i].2
        == accesses(old)[i].2 by {
        if i < a1.len() {
        } else if i < a1.len() + h0.len() {
            assert(accesses(old)[i] == h0[i - a1.len()]);
            assert(accesses(new)[i] == h1[i - a1.len()]);
        } else {
            assert(accesses(old)[i] == s0[i - a1.len() - h0.len()]);
            assert(accesses(new)[i] == s1[i - a1.len() - h0.len()]);
        }
    }
}

/// Can the priorities be compressed: does each core use at most 255
/// distinct priorities?
pub fn is_compressible(app: &App) -> (r: bool)
    ensures
        r == compressible(*app),
{
    let mut c: u8 = 0;
    while c < app.args.cores
        invariant
            c <= app.args.cores,
            forall|d: u8| d < c ==> #[trigger] core_prios(*app, d).len() <= 255,
        decreases app.args.cores - c,
    {
        let v = core_priorities(app, c);
        proof {
            lemma_increasing_len(v@);
        }
        if v.len() > 255 {
            assert(core_prios(*app, c).len() > 255);
            return false;
        }
        c = c + 1;
    }
    true
}

} // verus!
