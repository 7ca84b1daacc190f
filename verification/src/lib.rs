//! The Real-Time Interrupt-driven Concurrency (RTIC) meta language: the
//! `#[app]` syntax, its checks, its priority optimization and its resource
//! analysis, verified.

use vstd::prelude::*;

pub mod accessors;
pub mod analyze;
pub mod ast;
pub mod check;
pub mod error;
pub mod names;
pub mod optimize;
pub mod order;
pub mod parse;
pub mod stream;
pub mod tokens;

use crate::accessors::accesses;
use crate::analyze::{analyzable, analysis_spec, capacities_fit, load_fits, Analysis};
use crate::ast::{get, has_key, keys_unique, find_key, App};
use crate::check::{agrees, check_spec, law_check_pass, Verdict};
use crate::error::{error_here, Error, ErrorKind};
use crate::optimize::{compressible, is_compressible, law_compression_keeps_accesses, optimized};
use crate::stream::stream_trees;

verus! {

/// Immutable pointer
#[derive(Debug)]
pub struct P<T> {
    ptr: Box<T>,
}

impl<T> View for P<T> {
    type V = T;

    closed spec fn view(&self) -> T {
        *self.ptr
    }
}

impl<T> P<T> {
    /// Boxes `x` making the value immutable
    pub fn new(x: T) -> (r: P<T>)
        ensures
            r@ == x,
    {
        P { ptr: Box::new(x) }
    }

    /// The value pointed to
    pub fn get(&self) -> (r: &T)
        ensures
            *r == self@,
    {
        &self.ptr
    }
}

impl<T> core::ops::Deref for P<T> {
    type Target = T;

    fn deref(&self) -> (r: &T)
        ensures
            *r == self@,
    {
        &self.ptr
    }
}

/// Parser and optimizer configuration
pub struct Settings {
    /// Whether to accept the `binds` argument in `#[task]` or not
    pub parse_binds: bool,
    /// Whether to parse `extern` interrupts (functions) or not
    pub parse_extern_interrupt: bool,
    /// Whether to "compress" priorities or not
    pub optimize_priorities: bool,
}

impl Default for Settings {
    /// Every option off
    fn default() -> (r: Settings)
        ensures
            !r.parse_binds,
            !r.parse_extern_interrupt,
            !r.optimize_priorities,
    {
        Settings { parse_binds: false, parse_extern_interrupt: false, optimize_priorities: false }
    }
}

/// Execution context
#[derive(Clone, Copy)]
pub enum Context<'a> {
    /// A hardware task: `#[exception]` or `#[interrupt]`
    HardwareTask(&'a String),
    /// The `idle` context
    Idle,
    /// The `init`-ialization function
    Init,
    /// A software task: `#[task]`
    SoftwareTask(&'a String),
}

impl<'a> Context<'a> {
    /// The identifier of this context (the first `idle` or `init` for those)
    pub fn ident(&self, app: &'a App) -> (r: &'a String)
        requires
            *self is Idle ==> app.idles@.len() > 0,
            *self is Init ==> app.inits@.len() > 0,
        ensures
            match *self {
                Context::HardwareTask(n) => r == n,
                Context::Idle => r == app.idles@[0].1.name,
                Context::Init => r == app.inits@[0].1.name,
                Context::SoftwareTask(n) => r == n,
            },
    {
        match self {
            Context::HardwareTask(ident) => ident,
            Context::Idle => &app.idles[0].1.name,
            Context::Init => &app.inits[0].1.name,
            Context::SoftwareTask(ident) => ident,
        }
    }

    /// Is this the `idle` context?
    pub fn is_idle(&self) -> (r: bool)
        ensures
            r == (*self is Idle),
    {
        match self {
            Context::Idle => true,
            _ => false,
        }
    }

    /// Is this the `init`-ialization context?
    pub fn is_init(&self) -> (r: bool)
        ensures
            r == (*self is Init),
    {
        match self {
            Context::Init => true,
            _ => false,
        }
    }

    /// Whether this context runs only once
    pub fn runs_once(&self) -> (r: bool)
        ensures
            r == (*self is Init || *self is Idle),
    {
        self.is_init() || self.is_idle()
    }

    /// Whether this context has local `static` variables
    pub fn has_locals(&self, app: &App) -> (r: bool)
        requires
            keys_unique(app.hardware_tasks@),
            keys_unique(app.software_tasks@),
            *self matches Context::HardwareTask(n) ==> has_key(app.hardware_tasks@, n@),
            *self matches Context::SoftwareTask(n) ==> has_key(app.software_tasks@, n@),
            *self is Idle ==> app.idles@.len() > 0,
            *self is Init ==> app.inits@.len() > 0,
        ensures
            r == match *self {
                Context::HardwareTask(n) => get(app.hardware_tasks@, n@).locals@.len() > 0,
                Context::Idle => app.idles@[0].1.locals@.len() > 0,
                Context::Init => app.inits@[0].1.locals@.len() > 0,
                Context::SoftwareTask(n) => get(app.software_tasks@, n@).locals@.len() > 0,
            },
    {
        match self {
            Context::HardwareTask(name) => {
                let k = find_key(&app.hardware_tasks, name).unwrap();
                app.hardware_tasks[k].1.locals.len() > 0
            },
            Context::Idle => app.idles[0].1.locals.len() > 0,
            Context::Init => app.inits[0].1.locals.len() > 0,
            Context::SoftwareTask(name) => {
                let k = find_key(&app.software_tasks, name).unwrap();
                app.software_tasks[k].1.locals.len() > 0
            },
        }
    }

    /// Whether this context has resources
    pub fn has_resources(&self, app: &App) -> (r: bool)
        requires
            keys_unique(app.hardware_tasks@),
            keys_unique(app.software_tasks@),
            *self matches Context::HardwareTask(n) ==> has_key(app.hardware_tasks@, n@),
            *self matches Context::SoftwareTask(n) ==> has_key(app.software_tasks@, n@),
            *self is Idle ==> app.idles@.len() > 0,
            *self is Init ==> app.inits@.len() > 0,
        ensures
            r == match *self {
                Context::HardwareTask(n) => get(app.hardware_tasks@, n@).args.resources@.len() > 0,
                Context::Idle => app.idles@[0].1.args.resources@.len() > 0,
                Context::Init => app.inits@[0].1.args.resources@.len() > 0,
                Context::SoftwareTask(n) => get(app.software_tasks@, n@).args.resources@.len() > 0,
            },
    {
        match self {
            Context::HardwareTask(name) => {
                let k = find_key(&app.hardware_tasks, name).unwrap();
                app.hardware_tasks[k].1.args.resources.len() > 0
            },
            Context::Idle => app.idles[0].1.args.resources.len() > 0,
            Context::Init => app.inits[0].1.args.resources.len() > 0,
            Context::SoftwareTask(name) => {
                let k = find_key(&app.software_tasks, name).unwrap();
                app.software_tasks[k].1.args.resources.len() > 0
            },
        }
    }
}

/// The capacities of the software tasks and of the actors' subscriptions of
/// each priority add up to 255 or less
pub open spec fn capacities_within(app: App) -> bool {
    load_fits(app.software_tasks@, app.actors@)
}

/// `a` is `app` with its priorities compressed where the settings ask for it
pub open spec fn compressed_as_set(settings: Settings, app: App, a: App) -> bool {
    if settings.optimize_priorities {
        optimized(app, a)
    } else {
        a == app
    }
}

/// What checking, compressing and analyzing the parsed application `app`
/// gives: the checks' first error; else, where priorities are to be
/// compressed but cannot be, `TooManyPriorities`; else, where the
/// capacities of one priority add up to more than 255, `CapacityOverflow`;
/// else the (compressed) application and its analysis
pub open spec fn finished(settings: Settings, app: App, r: Result<(P<App>, P<Analysis>), Error>) -> bool {
    let passed = check_spec(app) == Verdict::Pass;
    match r {
        Ok((a, an)) => {
            &&& passed
            &&& settings.optimize_priorities ==> compressible(app)
            &&& compressed_as_set(settings, app, a@)
            &&& capacities_within(a@)
            &&& analysis_spec(a@, an@)
        },
        Err(e) => {
            ||| !passed && agrees(check_spec(app), Err(e))
            ||| passed && settings.optimize_priorities && !compressible(app) && e@ == (
                ErrorKind::TooManyPriorities,
                Seq::<char>::empty(),
            )
            ||| passed && (settings.optimize_priorities ==> compressible(app)) && e@ == (
                ErrorKind::CapacityOverflow,
                Seq::<char>::empty(),
            ) && exists|a: App| #[trigger] compressed_as_set(settings, app, a) && !capacities_within(a)
        },
    }
}

/// Checks the parsed application, compresses its priorities where the
/// settings ask for it, and analyzes it
pub fn check_and_analyze(app: App, settings: &Settings) -> (r: Result<(P<App>, P<Analysis>), Error>)
    requires
        keys_unique(app.late_resources@),
        keys_unique(app.resources@),
        keys_unique(app.software_tasks@),
    ensures
        finished(*settings, app, r),
{
    let ghost a0 = app;
    match check::app(&app) {
        Err(e) => return Err(e),
        Ok(()) => {},
    }
    assert(check_spec(a0) == Verdict::Pass);
    proof {
        law_check_pass(a0);
    }
    if settings.optimize_priorities && !is_compressible(&app) {
        return Err(error_here(ErrorKind::TooManyPriorities));
    }
    let mut app = app;
    optimize::app(&mut app, settings);
    if !capacities_fit(&app.software_tasks, &app.actors) {
        assert(compressed_as_set(*settings, a0, app) && !capacities_within(app));
        return Err(error_here(ErrorKind::CapacityOverflow));
    }
    proof {
        if settings.optimize_priorities {
            law_compression_keeps_accesses(a0, app);
            assert(keys_unique(app.software_tasks@)) by {
                assert forall|i: int, j: int| 0 <= i < j < app.software_tasks@.len() implies app.software_tasks@[i].0@
                    != app.software_tasks@[j].0@ by {
                    assert(app.software_tasks@[i].0 == a0.software_tasks@[i].0);
                    assert(app.software_tasks@[j].0 == a0.software_tasks@[j].0);
                }
            }
            assert forall|i: int| 0 <= i < accesses(app).len() implies crate::analyze::declared(
                app,
                #[trigger] accesses(app)[i].2@,
            ) by {
                assert(accesses(app)[i].2 == accesses(a0)[i].2);
                assert(crate::analyze::declared(a0, accesses(a0)[i].2@));
            }
        }
        assert(analyzable(app));
    }
    let analysis = analyze::app(&app);
    Ok((P::new(app), P::new(analysis)))
}

/// Parses the input of the `#[app]` attribute (`args` its arguments, `input`
/// the module it is placed on), checks it, compresses its priorities where
/// the settings ask for it, and analyzes it
pub fn parse2(args: proc_macro2::TokenStream, input: proc_macro2::TokenStream, settings: Settings) -> (r: Result<
    (P<App>, P<Analysis>),
    Error,
>)
    ensures
        match crate::parse::parsed(stream_trees(args), stream_trees(input), settings) {
            Err(e) => r matches Err(x) && x@ == e,
            Ok(v) => exists|app: App|
                app@ == v && keys_unique(app.late_resources@) && keys_unique(app.resources@)
                    && keys_unique(app.software_tasks@) && finished(settings, app, r),
        },
{
    let app = match parse::app(args, input, &settings) {
        Err(e) => return Err(e),
        Ok(a) => a,
    };
    let ghost a0 = app;
    let r = check_and_analyze(app, &settings);
    assert(finished(settings, a0, r));
    r
}

} // verus!
