//! The resource accesses and task references of an application, in the order
//! `init`s, `idle`s, hardware tasks, software tasks.

use vstd::prelude::*;

use crate::ast::{Access, App, HardwareTask, Idle, Init, SoftwareTask, TaskLocal};

verus! {

/// One access to a resource: the accessing context's core, its priority
/// (`None` for `init`, `Some(0)` for `idle`), the resource's name and the
/// kind of access
pub type ResourceAccess = (u8, Option<u8>, String, Access);

/// The accesses of one context
pub open spec fn ctx_accesses(core: u8, prio: Option<u8>, res: Seq<(String, Access)>) -> Seq<
    ResourceAccess,
> {
    res.map_values(|e: (String, Access)| (core, prio, e.0, e.1))
}

/// The accesses of the `init` functions, core by core
pub open spec fn inits_accesses(s: Seq<(u8, Init)>) -> Seq<ResourceAccess>
    decreases s.len(),
{
    if s.len() == 0 {
        seq![]
    } else {
        inits_accesses(s.drop_last()) + ctx_accesses(s.last().0, None, s.last().1.args.resources@)
    }
}

/// The accesses of the `idle` functions, core by core; `idle` runs at priority 0
pub open spec fn idles_accesses(s: Seq<(u8, Idle)>) -> Seq<ResourceAccess>
    decreases s.len(),
{
    if s.len() == 0 {
        seq![]
    } else {
        idles_accesses(s.drop_last()) + ctx_accesses(
            s.last().0,
            Some(0u8),
            s.last().1.args.resources@,
        )
    }
}

/// The accesses of the hardware tasks, at their priorities
pub open spec fn hw_accesses(s: Seq<(String, HardwareTask)>) -> Seq<ResourceAccess>
    decreases s.len(),
{
    if s.len() == 0 {
        seq![]
    } else {
        let t = s.last().1;
        hw_accesses(s.drop_last()) + ctx_accesses(
            t.args.core,
            Some(t.args.priority),
            t.args.resources@,
        )
    }
}

/// The accesses of the software tasks, at their priorities
pub open spec fn sw_accesses(s: Seq<(String, SoftwareTask)>) -> Seq<ResourceAccess>
    decreases s.len(),
{
    if s.len() == 0 {
        seq![]
    } else {
        let t = s.last().1;
        sw_accesses(s.drop_last()) + ctx_accesses(
            t.args.core,
            Some(t.args.priority),
            t.args.resources@,
        )
    }
}

/// All resource accesses of the application
pub open spec fn accesses(app: App) -> Seq<ResourceAccess> {
    inits_accesses(app.inits@) + idles_accesses(app.idles@) + hw_accesses(app.hardware_tasks@)
        + sw_accesses(app.software_tasks@)
}

/// The tasks that one context may spawn or schedule
pub open spec fn ctx_references(spawn: Seq<String>, schedule: Seq<String>) -> Seq<String> {
    spawn + schedule
}

/// Task references of the `init` functions
pub open spec fn inits_references(s: Seq<(u8, Init)>) -> Seq<String>
    decreases s.len(),
{
    if s.len() == 0 {
        seq![]
    } else {
        inits_references(s.drop_last()) + ctx_references(
            s.last().1.args.spawn@,
            s.last().1.args.schedule@,
        )
    }
}

/// Task references of the `idle` functions
pub open spec fn idles_references(s: Seq<(u8, Idle)>) -> Seq<String>
    decreases s.len(),
{
    if s.len() == 0 {
        seq![]
    } else {
        idles_references(s.drop_last()) + ctx_references(
            s.last().1.args.spawn@,
            s.last().1.args.schedule@,
        )
    }
}

/// Task references of the hardware tasks
pub open spec fn hw_references(s: Seq<(String, HardwareTask)>) -> Seq<String>
    decreases s.len(),
{
    if s.len() == 0 {
        seq![]
    } else {
        hw_references(s.drop_last()) + ctx_references(
            s.last().1.args.spawn@,
            s.last().1.args.schedule@,
        )
    }
}

/// Task references of the software tasks
pub open spec fn sw_references(s: Seq<(String, SoftwareTask)>) -> Seq<String>
    decreases s.len(),
{
    if s.len() == 0 {
        seq![]
    } else {
        sw_references(s.drop_last()) + ctx_references(
            s.last().1.args.spawn@,
            s.last().1.args.schedule@,
        )
    }
}

/// All tasks that the application spawns or schedules, by name
pub open spec fn task_references(app: App) -> Seq<String> {
    inits_references(app.inits@) + idles_references(app.idles@) + hw_references(
        app.hardware_tasks@,
    ) + sw_references(app.software_tasks@)
}

/// Appends the accesses of one context
fn push_ctx_accesses(
    out: &mut Vec<ResourceAccess>,
    core: u8,
    prio: Option<u8>,
    res: &Vec<(String, Access)>,
)
    ensures
        final(out)@ == old(out)@ + ctx_accesses(core, prio, res@),
{
    let ghost start = out@;
    let mut i: usize = 0;
    while i < res.len()
        invariant
            i <= res@.len(),
            out@ == start + ctx_accesses(core, prio, res@.take(i as int)),
        decreases res@.len() - i,
    {
        out.push((core, prio, res[i].0.clone(), res[i].1));
        proof {
            assert(res@.take(i as int + 1) =~= res@.take(i as int).push(res@[i as int]));
            assert(ctx_accesses(core, prio, res@.take(i as int + 1)) =~= ctx_accesses(
                core,
                prio,
                res@.take(i as int),
            ).push((core, prio, res@[i as int].0, res@[i as int].1)));
        }
        i = i + 1;
    }
    assert(res@.take(res@.len() as int) =~= res@);
}

/// Appends the references of one context
fn push_ctx_references(out: &mut Vec<String>, spawn: &Vec<String>, schedule: &Vec<String>)
    ensures
        final(out)@ == old(out)@ + ctx_references(spawn@, schedule@),
{
    let ghost start = out@;
    let mut i: usize = 0;
    while i < spawn.len()
        invariant
            i <= spawn@.len(),
            out@ == start + spawn@.take(i as int),
        decreases spawn@.len() - i,
    {
        out.push(spawn[i].clone());
        proof {
            assert(spawn@.take(i as int + 1) =~= spawn@.take(i as int).push(spawn@[i as int]));
        }
        i = i + 1;
    }
    assert(spawn@.take(spawn@.len() as int) =~= spawn@);
    let ghost mid = out@;
    let mut j: usize = 0;
    while j < schedule.len()
        invariant
            j <= schedule@.len(),
            out@ == mid + schedule@.take(j as int),
        decreases schedule@.len() - j,
    {
        out.push(schedule[j].clone());
        proof {
            assert(schedule@.take(j as int + 1) =~= schedule@.take(j as int).push(
                schedule@[j as int],
            ));
        }
        j = j + 1;
    }
    assert(schedule@.take(schedule@.len() as int) =~= schedule@);
    assert(out@ =~= start + ctx_references(spawn@, schedule@));
}

impl App {
    /// Is the local resource declared outside the list that names it?
    pub fn is_external(task_local: &TaskLocal) -> (r: bool)
        ensures
            r == (*task_local is External),
    {
        match task_local {
            TaskLocal::External => true,
            _ => false,
        }
    }

    /// All resource accesses: those of each `init` (no priority), of each
    /// `idle` (priority 0), of each hardware task and of each software task
    pub fn resource_accesses(&self) -> (r: Vec<ResourceAccess>)
        ensures
            r@ == accesses(*self),
    {
        let mut out: Vec<ResourceAccess> = Vec::new();
        let mut i: usize = 0;
        while i < self.inits.len()
            invariant
                i <= self.inits@.len(),
                out@ == inits_accesses(self.inits@.take(i as int)),
            decreases self.inits@.len() - i,
        {
            push_ctx_accesses(&mut out, self.inits[i].0, None, &self.inits[i].1.args.resources);
            assert(self.inits@.take(i as int + 1).drop_last() =~= self.inits@.take(i as int));
            i = i + 1;
        }
        assert(self.inits@.take(self.inits@.len() as int) =~= self.inits@);
        let ghost a = out@;
        let mut i: usize = 0;
        while i < self.idles.len()
            invariant
                i <= self.idles@.len(),
                out@ == a + idles_accesses(self.idles@.take(i as int)),
            decreases self.idles@.len() - i,
        {
            push_ctx_accesses(&mut out, self.idles[i].0, Some(0u8), &self.idles[i].1.args.resources);
            assert(self.idles@.take(i as int + 1).drop_last() =~= self.idles@.take(i as int));
            assert(out@ =~= a + idles_accesses(self.idles@.take(i as int + 1)));
            i = i + 1;
        }
        assert(self.idles@.take(self.idles@.len() as int) =~= self.idles@);
        let ghost b = out@;
        let mut i: usize = 0;
        while i < self.hardware_tasks.len()
            invariant
                i <= self.hardware_tasks@.len(),
                out@ == b + hw_accesses(self.hardware_tasks@.take(i as int)),
            decreases self.hardware_tasks@.len() - i,
        {
            let t = &self.hardware_tasks[i].1;
            push_ctx_accesses(&mut out, t.args.core, Some(t.args.priority), &t.args.resources);
            assert(self.hardware_tasks@.take(i as int + 1).drop_last() =~= self.hardware_tasks@.take(
                i as int,
            ));
            assert(out@ =~= b + hw_accesses(self.hardware_tasks@.take(i as int + 1)));
            i = i + 1;
        }
        assert(self.hardware_tasks@.take(self.hardware_tasks@.len() as int)
            =~= self.hardware_tasks@);
        let ghost c = out@;
        let mut i: usize = 0;
        while i < self.software_tasks.len()
            invariant
                i <= self.software_tasks@.len(),
                out@ == c + sw_accesses(self.software_tasks@.take(i as int)),
            decreases self.software_tasks@.len() - i,
        {
            let t = &self.software_tasks[i].1;
            push_ctx_accesses(&mut out, t.args.core, Some(t.args.priority), &t.args.resources);
            assert(self.software_tasks@.take(i as int + 1).drop_last() =~= self.software_tasks@.take(
                i as int,
            ));
            assert(out@ =~= c + sw_accesses(self.software_tasks@.take(i as int + 1)));
            i = i + 1;
        }
        assert(self.software_tasks@.take(self.software_tasks@.len() as int)
            =~= self.software_tasks@);
        out
    }

    /// All names of tasks that some context spawns or schedules
    pub fn task_references(&self) -> (r: Vec<String>)
        ensures
            r@ == task_references(*self),
    {
        let mut out: Vec<String> = Vec::new();
        let mut i: usize = 0;
        while i < self.inits.len()
            invariant
                i <= self.inits@.len(),
                out@ == inits_references(self.inits@.take(i as int)),
            decreases self.inits@.len() - i,
        {
            push_ctx_references(&mut out, &self.inits[i].1.args.spawn, &self.inits[i].1.args.schedule);
            assert(self.inits@.take(i as int + 1).drop_last() =~= self.inits@.take(i as int));
            i = i + 1;
        }
        assert(self.inits@.take(self.inits@.len() as int) =~= self.inits@);
        let ghost a = out@;
        let mut i: usize = 0;
        while i < self.idles.len()
            invariant
                i <= self.idles@.len(),
                out@ == a + idles_references(self.idles@.take(i as int)),
            decreases self.idles@.len() - i,
        {
            push_ctx_references(&mut out, &self.idles[i].1.args.spawn, &self.idles[i].1.args.schedule);
            assert(self.idles@.take(i as int + 1).drop_last() =~= self.idles@.take(i as int));
            assert(out@ =~= a + idles_references(self.idles@.take(i as int + 1)));
            i = i + 1;
        }
        assert(self.idles@.take(self.idles@.len() as int) =~= self.idles@);
        let ghost b = out@;
        let mut i: usize = 0;
        while i < self.hardware_tasks.len()
            invariant
                i <= self.hardware_tasks@.len(),
                out@ == b + hw_references(self.hardware_tasks@.take(i as int)),
            decreases self.hardware_tasks@.len() - i,
        {
            let t = &self.hardware_tasks[i].1;
            push_ctx_references(&mut out, &t.args.spawn, &t.args.schedule);
            assert(self.hardware_tasks@.take(i as int + 1).drop_last() =~= self.hardware_tasks@.take(
                i as int,
            ));
            assert(out@ =~= b + hw_references(self.hardware_tasks@.take(i as int + 1)));
            i = i + 1;
        }
        assert(self.hardware_tasks@.take(self.hardware_tasks@.len() as int)
            =~= self.hardware_tasks@);
        let ghost c = out@;
        let mut i: usize = 0;
        while i < self.software_tasks.len()
            invariant
                i <= self.software_tasks@.len(),
                out@ == c + sw_references(self.software_tasks@.take(i as int)),
            decreases self.software_tasks@.len() - i,
        {
            let t = &self.software_tasks[i].1;
            push_ctx_references(&mut out, &t.args.spawn, &t.args.schedule);
            assert(self.software_tasks@.take(i as int + 1).drop_last() =~= self.software_tasks@.take(
                i as int,
            ));
            assert(out@ =~= c + sw_references(self.software_tasks@.take(i as int + 1)));
            i = i + 1;
        }
        assert(self.software_tasks@.take(self.software_tasks@.len() as int)
            =~= self.software_tasks@);
        out
    }
}

} // verus!
