//! Abstract syntax tree of an RTIC application
//!
//! Names are `String`s; types, expressions and patterns are the token
//! sequences they were written with. The ordered maps of the application are
//! vectors of `(name, value)` pairs whose names are distinct
//! ([`keys_unique`]), kept in the order in which they were declared.

use vstd::prelude::*;

use crate::tokens::{copy_toks, tv, Tok, TokV, Tokens};

verus! {

/// An ordered map keyed by name
pub type NameMap<T> = Vec<(String, T)>;

/// An ordered set of names
pub type NameSet = Vec<String>;

/// The names of an ordered map are distinct
pub open spec fn keys_unique<T>(m: Seq<(String, T)>) -> bool {
    forall|i: int, j: int| 0 <= i < j < m.len() ==> m[i].0@ != m[j].0@
}

/// The map has an entry named `k`
pub open spec fn has_key<T>(m: Seq<(String, T)>, k: Seq<char>) -> bool {
    exists|i: int| 0 <= i < m.len() && m[i].0@ == k
}

/// The set holds the name `k`
pub open spec fn has_name(s: Seq<String>, k: Seq<char>) -> bool {
    exists|i: int| 0 <= i < s.len() && s[i]@ == k
}

/// The position of the entry named `k`, if there is one
pub open spec fn key_pos<T>(m: Seq<(String, T)>, k: Seq<char>) -> int {
    choose|i: int| 0 <= i < m.len() && m[i].0@ == k
}

/// The value of the entry named `k` (meaningful where `has_key(m, k)`)
pub open spec fn get<T>(m: Seq<(String, T)>, k: Seq<char>) -> T {
    m[key_pos(m, k)].1
}

/// In a map with distinct names, the entry at `i` is the entry named `m[i].0`
pub proof fn lemma_get_at<T>(m: Seq<(String, T)>, i: int)
    requires
        keys_unique(m),
        0 <= i < m.len(),
    ensures
        has_key(m, m[i].0@),
        key_pos(m, m[i].0@) == i,
        get(m, m[i].0@) == m[i].1,
{
    let k = m[i].0@;
    assert(0 <= i < m.len() && m[i].0@ == k);
    let j = key_pos(m, k);
    if j != i {
        if j < i {
            assert(m[j].0@ != m[i].0@);
        } else {
            assert(m[i].0@ != m[j].0@);
        }
    }
}

/// Looks up the position of the entry named `k`
pub fn find_key<T>(m: &Vec<(String, T)>, k: &String) -> (r: Option<usize>)
    requires
        keys_unique(m@),
    ensures
        r is None <==> !has_key(m@, k@),
        r matches Some(i) ==> i < m@.len() && m@[i as int].0@ == k@ && key_pos(m@, k@) == i,
{
    let mut i: usize = 0;
    while i < m.len()
        invariant
            keys_unique(m@),
            i <= m@.len(),
            forall|j: int| 0 <= j < i ==> m@[j].0@ != k@,
        decreases m@.len() - i,
    {
        if crate::tokens::str_eq(m[i].0.as_str(), k.as_str()) {
            proof {
                lemma_get_at(m@, i as int);
            }
            return Some(i);
        }
        i = i + 1;
    }
    None
}

/// Does the map have an entry named `k`?
pub fn contains_key<T>(m: &Vec<(String, T)>, k: &String) -> (r: bool)
    ensures
        r == has_key(m@, k@),
{
    let mut i: usize = 0;
    while i < m.len()
        invariant
            i <= m@.len(),
            forall|j: int| 0 <= j < i ==> m@[j].0@ != k@,
        decreases m@.len() - i,
    {
        if crate::tokens::str_eq(m[i].0.as_str(), k.as_str()) {
            assert(m@[i as int].0@ == k@);
            return true;
        }
        i = i + 1;
    }
    false
}

/// A path such as `hal::pac` (segments without generic arguments)
#[derive(Debug)]
pub struct Path {
    /// Whether the path starts with `::`
    pub leading_colon: bool,
    /// The identifiers of the segments
    pub segments: Vec<String>,
}

/// The path of the one segment `ident`
pub fn mk_path(ident: &str) -> (r: Path)
    ensures
        !r.leading_colon,
        r.segments@.len() == 1,
        r.segments@[0]@ == ident@,
{
    let mut segments: Vec<String> = Vec::new();
    segments.push(String::from_str(ident));
    Path { leading_colon: false, segments }
}

/// An attribute such as `#[cfg(debug_assertions)]`
#[derive(Debug)]
pub struct Attribute {
    /// `#[..]` rather than `#![..]`
    pub outer: bool,
    /// The attribute's path: `cfg` above
    pub path: Path,
    /// The tokens after the path: `(debug_assertions)` above
    pub tokens: Tokens,
}

/// The `#[app]` attribute
#[derive(Debug)]
pub struct App {
    /// The arguments to the `#[app]` attribute
    pub args: AppArgs,
    /// The name of the module on which the `#[app]` attribute has been placed
    pub name: String,
    /// Per-core `#[init]` functions, by core in ascending order
    pub inits: Vec<(u8, Init)>,
    /// Per-core `#[idle]` functions, by core in ascending order
    pub idles: Vec<(u8, Idle)>,
    /// Late (runtime initialized) resources: the fields of the `#[shared]`
    /// and `#[local]` structs, a name that both declare once, as the first
    /// declares it
    pub late_resources: NameMap<LateResource>,
    /// Shared resources: the fields of the `#[shared]` struct
    pub shared_resources: NameMap<LateResource>,
    /// Local resources: the fields of the `#[local]` struct
    pub local_resources: NameMap<LateResource>,
    /// Early (compile time initialized) resources
    pub resources: NameMap<Resource>,
    /// Hardware tasks: `#[task(binds = ..)]`s
    pub hardware_tasks: NameMap<HardwareTask>,
    /// Software tasks: `#[task]`
    pub software_tasks: NameMap<SoftwareTask>,
    /// Interrupts declared in `extern` blocks, used to dispatch software tasks
    pub extern_interrupts: NameMap<ExternInterrupt>,
    /// Monotonic timers: `#[monotonic(binds = ..)] type T = ..;`
    pub monotonics: NameMap<Monotonic>,
    /// Actors: the fields of the `#[actors]` struct
    pub actors: NameMap<Actor>,
    /// The user's `use` items, each by its tokens
    pub user_imports: Vec<Tokens>,
    /// The user's other items, passed on as they are, each by its tokens
    pub user_code: Vec<Tokens>,
}

/// The arguments of the `#[app]` attribute
#[derive(Debug)]
pub struct AppArgs {
    /// The number of cores the application will use
    pub cores: u8,
    /// `device = path`
    pub device: Option<Path>,
    /// `peripherals = bool`
    pub peripherals: bool,
    /// `dispatchers = [..]`: interrupts used to dispatch software tasks
    pub extern_interrupts: NameMap<ExternInterrupt>,
}

/// The `init`-ialization function
#[derive(Debug)]
pub struct Init {
    /// `init` context metadata
    pub args: InitArgs,
    /// Attributes that will apply to this `init` function
    pub attrs: Vec<Attribute>,
    /// The name of the `#[init]` function
    pub name: String,
    /// The context argument
    pub context: Tokens,
    /// Whether this `init` function returns the late resources: so where
    /// there are any, which then come back in the `#[shared]` and `#[local]`
    /// structs
    pub returns_late_resources: bool,
    /// The name of the `#[shared]` struct, as `init` returns it
    pub user_shared_struct: String,
    /// The name of the `#[local]` struct, as `init` returns it
    pub user_local_struct: String,
    /// The name of the `#[actors]` struct, where `init` returns one
    pub user_actors_struct: Option<String>,
    /// Static variables local to this context
    pub locals: NameMap<Local>,
    /// The statements that make up this `init` function, after its local
    /// `static mut` items
    pub stmts: Tokens,
}

/// `init` context metadata
#[derive(Debug)]
pub struct InitArgs {
    /// Which core this context belongs to?
    pub core: u8,
    /// Late resources that will be initialized by this core
    pub late: NameSet,
    /// Resources that can be accessed from this context
    pub resources: Resources,
    /// Local resources: named (declared in the `#[local]` struct) or
    /// declared in the `local` list itself
    pub local_resources: NameMap<TaskLocal>,
    /// Software tasks that can be spawned from this context
    pub spawn: NameSet,
    /// Software tasks that can be scheduled from this context
    pub schedule: NameSet,
}

/// The `idle` context
#[derive(Debug)]
pub struct Idle {
    /// `idle` context metadata
    pub args: IdleArgs,
    /// Attributes that will apply to this `idle` function
    pub attrs: Vec<Attribute>,
    /// The name of the `#[idle]` function
    pub name: String,
    /// The context argument
    pub context: Tokens,
    /// Static variables local to this context
    pub locals: NameMap<Local>,
    /// The statements that make up this `idle` function, after its local
    /// `static mut` items
    pub stmts: Tokens,
}

/// `idle` context metadata
#[derive(Debug)]
pub struct IdleArgs {
    /// Which core this context belongs to?
    pub core: u8,
    /// Resources that can be accessed from this context
    pub resources: Resources,
    /// Local resources: named (declared in the `#[local]` struct) or
    /// declared in the `local` list itself
    pub local_resources: NameMap<TaskLocal>,
    /// Software tasks that can be spawned from this context
    pub spawn: NameSet,
    /// Software tasks that can be scheduled from this context
    pub schedule: NameSet,
}

/// An early (compile time initialized) resource
#[derive(Debug)]
pub struct Resource {
    /// What it shares with a late resource
    pub late: LateResource,
    /// The initial value of this resource
    pub expr: Tokens,
}

impl core::ops::Deref for Resource {
    type Target = LateResource;

    fn deref(&self) -> (r: &LateResource)
        ensures
            *r == self.late,
    {
        &self.late
    }
}

/// A late (runtime initialized) resource
#[derive(Debug)]
pub struct LateResource {
    /// `#[cfg]` attributes like `#[cfg(debug_assertions)]`
    pub cfgs: Vec<Attribute>,
    /// Attributes that will apply to this resource
    pub attrs: Vec<Attribute>,
    /// The type of this resource
    pub ty: Tokens,
    /// Whether it is accessed without a lock (`#[lock_free]` on a field of
    /// the `#[shared]` struct)
    pub lock_free: bool,
}

/// A software task
#[derive(Debug)]
pub struct SoftwareTask {
    /// Software task metadata
    pub args: SoftwareTaskArgs,
    /// `#[cfg]` attributes like `#[cfg(debug_assertions)]`
    pub cfgs: Vec<Attribute>,
    /// Attributes that will apply to this interrupt handler
    pub attrs: Vec<Attribute>,
    /// The context argument
    pub context: Tokens,
    /// The inputs of this software task: pattern and type of each
    pub inputs: Vec<(Tokens, Tokens)>,
    /// Static variables local to this context
    pub locals: NameMap<Local>,
    /// The statements that make up the task handler, after its local
    /// `static mut` items
    pub stmts: Tokens,
}

/// Software task metadata
#[derive(Debug)]
pub struct SoftwareTaskArgs {
    /// The core the task will run on
    pub core: u8,
    /// The task capacity: the maximum number of pending messages that can be queued
    pub capacity: u8,
    /// The priority of the task
    pub priority: u8,
    /// Resources that can be accessed from this context
    pub resources: Resources,
    /// Local resources: named (declared in the `#[local]` struct) or
    /// declared in the `local` list itself
    pub local_resources: NameMap<TaskLocal>,
    /// Software tasks that can be spawned from this context
    pub spawn: NameSet,
    /// Software tasks that can be scheduled from this context
    pub schedule: NameSet,
}

impl SoftwareTaskArgs {
    /// The arguments of `#[task]`: core 0, capacity 1, priority 1, nothing else
    pub fn default() -> (r: SoftwareTaskArgs)
        ensures
            r.core == 0,
            r.capacity == 1,
            r.priority == 1,
            r.resources@.len() == 0,
            r.local_resources@.len() == 0,
            r.spawn@.len() == 0,
            r.schedule@.len() == 0,
    {
        SoftwareTaskArgs {
            core: 0,
            capacity: 1,
            priority: 1,
            resources: Vec::new(),
            local_resources: Vec::new(),
            spawn: Vec::new(),
            schedule: Vec::new(),
        }
    }
}

/// A hardware task
#[derive(Debug)]
pub struct HardwareTask {
    /// Hardware task metadata
    pub args: HardwareTaskArgs,
    /// Attributes that will apply to this interrupt handler
    pub attrs: Vec<Attribute>,
    /// The context argument
    pub context: Tokens,
    /// Static variables local to this context
    pub locals: NameMap<Local>,
    /// The statements that make up the task handler, after its local
    /// `static mut` items
    pub stmts: Tokens,
}

/// Hardware task metadata
#[derive(Debug)]
pub struct HardwareTaskArgs {
    /// The core on which the task will be executed
    pub core: u8,
    /// The interrupt or exception that the task is bound to
    pub binds: String,
    /// The priority of the task
    pub priority: u8,
    /// Resources that can be accessed from this context
    pub resources: Resources,
    /// Local resources: named (declared in the `#[local]` struct) or
    /// declared in the `local` list itself
    pub local_resources: NameMap<TaskLocal>,
    /// Software tasks that can be spawned from this context
    pub spawn: NameSet,
    /// Software tasks that can be scheduled from this context
    pub schedule: NameSet,
}

/// Interrupt that could be used to dispatch software tasks
#[derive(Debug)]
pub struct ExternInterrupt {
    /// Attributes that will apply to this interrupt handler
    pub attrs: Vec<Attribute>,
}

/// A `static mut` variable local to and owned by a context
#[derive(Debug)]
pub struct Local {
    /// Attributes like `#[link_section]`
    pub attrs: Vec<Attribute>,
    /// `#[cfg]` attributes like `#[cfg(debug_assertions)]`
    pub cfgs: Vec<Attribute>,
    /// Type
    pub ty: Tokens,
    /// Initial value
    pub expr: Tokens,
}

/// A subscription of an actor to the messages of one type
#[derive(Debug)]
pub struct Subscription {
    /// The type of the messages
    pub ty: Tokens,
    /// How many messages may wait
    pub capacity: u8,
}

/// An actor: a field of the `#[actors]` struct
#[derive(Debug)]
pub struct Actor {
    /// The actor's type
    pub ty: Tokens,
    /// The priority it runs at
    pub priority: u8,
    /// Its initial value, where `#[init(expr)]` gives one
    pub init: Option<Tokens>,
    /// The messages it subscribes to, in order
    pub subscriptions: Vec<Subscription>,
}

/// How a context reaches one of its local resources
#[derive(Debug)]
pub enum TaskLocal {
    /// A resource declared elsewhere, named in the list
    External,
    /// A resource declared in the list itself: `name: Type = expr`
    Declared(Local),
}

/// A monotonic timer: `#[monotonic(binds = ..)] type Name = Type;`
#[derive(Debug)]
pub struct Monotonic {
    /// `#[cfg]` attributes
    pub cfgs: Vec<Attribute>,
    /// The name of the type alias
    pub ident: String,
    /// The timer's type
    pub ty: Tokens,
    /// The arguments of `#[monotonic(..)]`
    pub args: MonotonicArgs,
}

/// The arguments of `#[monotonic(..)]`
#[derive(Debug)]
pub struct MonotonicArgs {
    /// The interrupt or exception the timer is bound to
    pub binds: String,
    /// The priority of the timer's handler
    pub priority: u8,
    /// Whether this is the default monotonic
    pub default: bool,
}

/// Resource access
#[derive(Clone, Copy, Debug, PartialEq, Eq, Structural)]
pub enum Access {
    /// `[x]`
    Exclusive,
    /// `[&x]`
    Shared,
}

impl Access {
    /// Is this enum in the `Exclusive` variant?
    pub fn is_exclusive(&self) -> (r: bool)
        ensures
            r == (*self == Access::Exclusive),
    {
        *self == Access::Exclusive
    }

    /// Is this enum in the `Shared` variant?
    pub fn is_shared(&self) -> (r: bool)
        ensures
            r == (*self == Access::Shared),
    {
        *self == Access::Shared
    }
}

/// Resource access list
pub type Resources = NameMap<Access>;

// ---- values ----
//
// The value of each node of the tree: names as character sequences, token
// trees by their values, ordered maps as sequences of (name, value) pairs.

/// The values of a sequence of names
pub open spec fn names_view(s: Seq<String>) -> Seq<Seq<char>> {
    s.map_values(|x: String| x@)
}

/// The value of a resource access list
pub open spec fn resources_view(s: Seq<(String, Access)>) -> Seq<(Seq<char>, Access)> {
    s.map_values(|e: (String, Access)| (e.0@, e.1))
}

/// The value of a path
pub struct PathV {
    /// Whether the path starts with `::`
    pub leading_colon: bool,
    /// The identifiers of the segments
    pub segments: Seq<Seq<char>>,
}

impl View for Path {
    type V = PathV;

    open spec fn view(&self) -> PathV {
        PathV { leading_colon: self.leading_colon, segments: names_view(self.segments@) }
    }
}

/// The value of an attribute
pub struct AttrV {
    /// `#[..]` rather than `#![..]`
    pub outer: bool,
    /// The path
    pub path: PathV,
    /// The tokens after the path
    pub tokens: Seq<TokV>,
}

impl View for Attribute {
    type V = AttrV;

    open spec fn view(&self) -> AttrV {
        AttrV { outer: self.outer, path: self.path@, tokens: tv(self.tokens@) }
    }
}

/// The values of a sequence of attributes
pub open spec fn attrs_view(s: Seq<Attribute>) -> Seq<AttrV> {
    s.map_values(|a: Attribute| a@)
}

/// The value of a `static mut` local
pub struct LocalV {
    /// Attributes
    pub attrs: Seq<AttrV>,
    /// `#[cfg]` attributes
    pub cfgs: Seq<AttrV>,
    /// Type
    pub ty: Seq<TokV>,
    /// Initial value
    pub expr: Seq<TokV>,
}

impl View for Local {
    type V = LocalV;

    open spec fn view(&self) -> LocalV {
        LocalV {
            attrs: attrs_view(self.attrs@),
            cfgs: attrs_view(self.cfgs@),
            ty: tv(self.ty@),
            expr: tv(self.expr@),
        }
    }
}

/// The value of an ordered map of locals
pub open spec fn locals_view(s: Seq<(String, Local)>) -> Seq<(Seq<char>, LocalV)> {
    s.map_values(|e: (String, Local)| (e.0@, e.1@))
}

/// The value of a [`TaskLocal`]
pub enum TaskLocalV {
    /// Declared elsewhere
    External,
    /// Declared in the list
    Declared(LocalV),
}

impl View for TaskLocal {
    type V = TaskLocalV;

    open spec fn view(&self) -> TaskLocalV {
        match self {
            TaskLocal::External => TaskLocalV::External,
            TaskLocal::Declared(l) => TaskLocalV::Declared(l@),
        }
    }
}

/// The value of an ordered map of task locals
pub open spec fn task_locals_view(s: Seq<(String, TaskLocal)>) -> Seq<(Seq<char>, TaskLocalV)> {
    s.map_values(|e: (String, TaskLocal)| (e.0@, e.1@))
}

/// The value of an extern interrupt: its attributes
pub open spec fn interrupts_view(s: Seq<(String, ExternInterrupt)>) -> Seq<(Seq<char>, Seq<AttrV>)> {
    s.map_values(|e: (String, ExternInterrupt)| (e.0@, attrs_view(e.1.attrs@)))
}

/// The value of `init` context metadata
pub struct InitArgsV {
    /// Core
    pub core: u8,
    /// Late resources initialized by this core
    pub late: Seq<Seq<char>>,
    /// Resource accesses
    pub resources: Seq<(Seq<char>, Access)>,
    /// Local resources
    pub local_resources: Seq<(Seq<char>, TaskLocalV)>,
    /// Tasks that can be spawned
    pub spawn: Seq<Seq<char>>,
    /// Tasks that can be scheduled
    pub schedule: Seq<Seq<char>>,
}

impl View for InitArgs {
    type V = InitArgsV;

    open spec fn view(&self) -> InitArgsV {
        InitArgsV {
            core: self.core,
            late: names_view(self.late@),
            resources: resources_view(self.resources@),
            local_resources: task_locals_view(self.local_resources@),
            spawn: names_view(self.spawn@),
            schedule: names_view(self.schedule@),
        }
    }
}

/// The value of `idle` context metadata
pub struct IdleArgsV {
    /// Core
    pub core: u8,
    /// Resource accesses
    pub resources: Seq<(Seq<char>, Access)>,
    /// Local resources
    pub local_resources: Seq<(Seq<char>, TaskLocalV)>,
    /// Tasks that can be spawned
    pub spawn: Seq<Seq<char>>,
    /// Tasks that can be scheduled
    pub schedule: Seq<Seq<char>>,
}

impl View for IdleArgs {
    type V = IdleArgsV;

    open spec fn view(&self) -> IdleArgsV {
        IdleArgsV {
            core: self.core,
            resources: resources_view(self.resources@),
            local_resources: task_locals_view(self.local_resources@),
            spawn: names_view(self.spawn@),
            schedule: names_view(self.schedule@),
        }
    }
}

/// The value of hardware task metadata
pub struct HardwareTaskArgsV {
    /// Core
    pub core: u8,
    /// The interrupt or exception the task is bound to
    pub binds: Seq<char>,
    /// Priority
    pub priority: u8,
    /// Resource accesses
    pub resources: Seq<(Seq<char>, Access)>,
    /// Local resources
    pub local_resources: Seq<(Seq<char>, TaskLocalV)>,
    /// Tasks that can be spawned
    pub spawn: Seq<Seq<char>>,
    /// Tasks that can be scheduled
    pub schedule: Seq<Seq<char>>,
}

impl View for HardwareTaskArgs {
    type V = HardwareTaskArgsV;

    open spec fn view(&self) -> HardwareTaskArgsV {
        HardwareTaskArgsV {
            core: self.core,
            binds: self.binds@,
            priority: self.priority,
            resources: resources_view(self.resources@),
            local_resources: task_locals_view(self.local_resources@),
            spawn: names_view(self.spawn@),
            schedule: names_view(self.schedule@),
        }
    }
}

/// The value of software task metadata
pub struct SoftwareTaskArgsV {
    /// Core
    pub core: u8,
    /// Capacity
    pub capacity: u8,
    /// Priority
    pub priority: u8,
    /// Resource accesses
    pub resources: Seq<(Seq<char>, Access)>,
    /// Local resources
    pub local_resources: Seq<(Seq<char>, TaskLocalV)>,
    /// Tasks that can be spawned
    pub spawn: Seq<Seq<char>>,
    /// Tasks that can be scheduled
    pub schedule: Seq<Seq<char>>,
}

impl View for SoftwareTaskArgs {
    type V = SoftwareTaskArgsV;

    open spec fn view(&self) -> SoftwareTaskArgsV {
        SoftwareTaskArgsV {
            core: self.core,
            capacity: self.capacity,
            priority: self.priority,
            resources: resources_view(self.resources@),
            local_resources: task_locals_view(self.local_resources@),
            spawn: names_view(self.spawn@),
            schedule: names_view(self.schedule@),
        }
    }
}

/// The value of the arguments of `#[monotonic(..)]`
pub struct MonotonicArgsV {
    /// The interrupt or exception the timer is bound to
    pub binds: Seq<char>,
    /// Priority
    pub priority: u8,
    /// Whether this is the default monotonic
    pub default: bool,
}

impl View for MonotonicArgs {
    type V = MonotonicArgsV;

    open spec fn view(&self) -> MonotonicArgsV {
        MonotonicArgsV { binds: self.binds@, priority: self.priority, default: self.default }
    }
}

/// The value of the arguments of `#[app(..)]`
pub struct AppArgsV {
    /// Number of cores
    pub cores: u8,
    /// `device = path`
    pub device: Option<PathV>,
    /// `peripherals = bool`
    pub peripherals: bool,
    /// `dispatchers = [..]`
    pub extern_interrupts: Seq<(Seq<char>, Seq<AttrV>)>,
}

/// The value of an optional path
pub open spec fn opt_path_view(p: Option<Path>) -> Option<PathV> {
    match p {
        Some(p) => Some(p@),
        None => None,
    }
}

impl View for AppArgs {
    type V = AppArgsV;

    open spec fn view(&self) -> AppArgsV {
        AppArgsV {
            cores: self.cores,
            device: opt_path_view(self.device),
            peripherals: self.peripherals,
            extern_interrupts: interrupts_view(self.extern_interrupts@),
        }
    }
}

/// The value of the `init` function
pub struct InitV {
    /// Metadata
    pub args: InitArgsV,
    /// Attributes
    pub attrs: Seq<AttrV>,
    /// Name
    pub name: Seq<char>,
    /// Context pattern
    pub context: Seq<TokV>,
    /// Returns `LateResources`
    pub returns_late_resources: bool,
    /// Name of the `#[shared]` struct returned
    pub user_shared_struct: Seq<char>,
    /// Name of the `#[local]` struct returned
    pub user_local_struct: Seq<char>,
    /// Name of the `#[actors]` struct returned, if any
    pub user_actors_struct: Option<Seq<char>>,
    /// Locals
    pub locals: Seq<(Seq<char>, LocalV)>,
    /// Statements
    pub stmts: Seq<TokV>,
}

impl View for Init {
    type V = InitV;

    open spec fn view(&self) -> InitV {
        InitV {
            args: self.args@,
            attrs: attrs_view(self.attrs@),
            name: self.name@,
            context: tv(self.context@),
            returns_late_resources: self.returns_late_resources,
            user_shared_struct: self.user_shared_struct@,
            user_local_struct: self.user_local_struct@,
            user_actors_struct: match self.user_actors_struct {
                Some(x) => Some(x@),
                None => None,
            },
            locals: locals_view(self.locals@),
            stmts: tv(self.stmts@),
        }
    }
}

/// The value of the `idle` function
pub struct IdleV {
    /// Metadata
    pub args: IdleArgsV,
    /// Attributes
    pub attrs: Seq<AttrV>,
    /// Name
    pub name: Seq<char>,
    /// Context pattern
    pub context: Seq<TokV>,
    /// Locals
    pub locals: Seq<(Seq<char>, LocalV)>,
    /// Statements
    pub stmts: Seq<TokV>,
}

impl View for Idle {
    type V = IdleV;

    open spec fn view(&self) -> IdleV {
        IdleV {
            args: self.args@,
            attrs: attrs_view(self.attrs@),
            name: self.name@,
            context: tv(self.context@),
            locals: locals_view(self.locals@),
            stmts: tv(self.stmts@),
        }
    }
}

/// The value of a late resource
pub struct LateResourceV {
    /// `#[cfg]` attributes
    pub cfgs: Seq<AttrV>,
    /// Other attributes
    pub attrs: Seq<AttrV>,
    /// Type
    pub ty: Seq<TokV>,
    /// Accessed without a lock
    pub lock_free: bool,
}

/// A copy of a list of names
pub fn copy_names(v: &Vec<String>) -> (r: Vec<String>)
    ensures
        names_view(r@) == names_view(v@),
{
    let mut out: Vec<String> = Vec::new();
    let mut i: usize = 0;
    while i < v.len()
        invariant
            i <= v@.len(),
            out@.len() == i,
            forall|j: int| 0 <= j < i ==> out@[j]@ == v@[j]@,
        decreases v@.len() - i,
    {
        out.push(v[i].clone());
        i = i + 1;
    }
    assert(names_view(out@) =~= names_view(v@));
    out
}

/// A copy of a list of attributes
pub fn copy_attrs(v: &Vec<Attribute>) -> (r: Vec<Attribute>)
    ensures
        attrs_view(r@) == attrs_view(v@),
{
    let mut out: Vec<Attribute> = Vec::new();
    let mut i: usize = 0;
    while i < v.len()
        invariant
            i <= v@.len(),
            out@.len() == i,
            forall|j: int| 0 <= j < i ==> out@[j]@ == v@[j]@,
        decreases v@.len() - i,
    {
        let a = &v[i];
        let c = Attribute {
            outer: a.outer,
            path: Path { leading_colon: a.path.leading_colon, segments: copy_names(&a.path.segments) },
            tokens: copy_toks(&a.tokens),
        };
        out.push(c);
        i = i + 1;
    }
    assert(attrs_view(out@) =~= attrs_view(v@));
    out
}

/// A copy of a late resource
pub fn copy_late(l: &LateResource) -> (r: LateResource)
    ensures
        r@ == l@,
{
    LateResource {
        cfgs: copy_attrs(&l.cfgs),
        attrs: copy_attrs(&l.attrs),
        ty: copy_toks(&l.ty),
        lock_free: l.lock_free,
    }
}

impl View for LateResource {
    type V = LateResourceV;

    open spec fn view(&self) -> LateResourceV {
        LateResourceV {
            cfgs: attrs_view(self.cfgs@),
            attrs: attrs_view(self.attrs@),
            ty: tv(self.ty@),
            lock_free: self.lock_free,
        }
    }
}

/// The value of an early resource
pub struct ResourceV {
    /// What it shares with a late resource
    pub late: LateResourceV,
    /// Initial value
    pub expr: Seq<TokV>,
}

impl View for Resource {
    type V = ResourceV;

    open spec fn view(&self) -> ResourceV {
        ResourceV { late: self.late@, expr: tv(self.expr@) }
    }
}

/// The value of a hardware task
pub struct HardwareTaskV {
    /// Metadata
    pub args: HardwareTaskArgsV,
    /// Attributes
    pub attrs: Seq<AttrV>,
    /// Context pattern
    pub context: Seq<TokV>,
    /// Locals
    pub locals: Seq<(Seq<char>, LocalV)>,
    /// Statements
    pub stmts: Seq<TokV>,
}

impl View for HardwareTask {
    type V = HardwareTaskV;

    open spec fn view(&self) -> HardwareTaskV {
        HardwareTaskV {
            args: self.args@,
            attrs: attrs_view(self.attrs@),
            context: tv(self.context@),
            locals: locals_view(self.locals@),
            stmts: tv(self.stmts@),
        }
    }
}

/// The value of the inputs of a software task: pattern and type of each
pub open spec fn inputs_view(v: Seq<(Tokens, Tokens)>) -> Seq<(Seq<TokV>, Seq<TokV>)> {
    v.map_values(|i: (Tokens, Tokens)| (tv(i.0@), tv(i.1@)))
}

/// The value of a software task
pub struct SoftwareTaskV {
    /// Metadata
    pub args: SoftwareTaskArgsV,
    /// `#[cfg]` attributes
    pub cfgs: Seq<AttrV>,
    /// Other attributes
    pub attrs: Seq<AttrV>,
    /// Context pattern
    pub context: Seq<TokV>,
    /// Inputs
    pub inputs: Seq<(Seq<TokV>, Seq<TokV>)>,
    /// Locals
    pub locals: Seq<(Seq<char>, LocalV)>,
    /// Statements
    pub stmts: Seq<TokV>,
}

impl View for SoftwareTask {
    type V = SoftwareTaskV;

    open spec fn view(&self) -> SoftwareTaskV {
        SoftwareTaskV {
            args: self.args@,
            cfgs: attrs_view(self.cfgs@),
            attrs: attrs_view(self.attrs@),
            context: tv(self.context@),
            inputs: inputs_view(self.inputs@),
            locals: locals_view(self.locals@),
            stmts: tv(self.stmts@),
        }
    }
}

/// The value of a monotonic timer
pub struct MonotonicV {
    /// `#[cfg]` attributes
    pub cfgs: Seq<AttrV>,
    /// Name of the alias
    pub ident: Seq<char>,
    /// Timer type
    pub ty: Seq<TokV>,
    /// Arguments
    pub args: MonotonicArgsV,
}

impl View for Monotonic {
    type V = MonotonicV;

    open spec fn view(&self) -> MonotonicV {
        MonotonicV { cfgs: attrs_view(self.cfgs@), ident: self.ident@, ty: tv(self.ty@), args: self.args@ }
    }
}

/// The value of a subscription
pub struct SubscriptionV {
    /// Message type
    pub ty: Seq<TokV>,
    /// Capacity
    pub capacity: u8,
}

impl View for Subscription {
    type V = SubscriptionV;

    open spec fn view(&self) -> SubscriptionV {
        SubscriptionV { ty: tv(self.ty@), capacity: self.capacity }
    }
}

/// The value of a sequence of subscriptions
pub open spec fn subscriptions_view(s: Seq<Subscription>) -> Seq<SubscriptionV> {
    s.map_values(|x: Subscription| x@)
}

/// The value of an actor
pub struct ActorV {
    /// Type
    pub ty: Seq<TokV>,
    /// Priority
    pub priority: u8,
    /// Initial value
    pub init: Option<Seq<TokV>>,
    /// Subscriptions
    pub subscriptions: Seq<SubscriptionV>,
}

impl View for Actor {
    type V = ActorV;

    open spec fn view(&self) -> ActorV {
        ActorV {
            ty: tv(self.ty@),
            priority: self.priority,
            init: match self.init {
                Some(x) => Some(tv(x@)),
                None => None,
            },
            subscriptions: subscriptions_view(self.subscriptions@),
        }
    }
}

/// The value of an ordered map whose values have values
pub open spec fn map_view<T: View>(m: Seq<(String, T)>) -> Seq<(Seq<char>, T::V)> {
    m.map_values(|e: (String, T)| (e.0@, e.1@))
}

/// The value of per-core functions
pub open spec fn cores_view<T: View>(m: Seq<(u8, T)>) -> Seq<(u8, T::V)> {
    m.map_values(|e: (u8, T)| (e.0, e.1@))
}

/// The value of an application
pub struct AppV {
    /// Arguments of `#[app]`
    pub args: AppArgsV,
    /// Name of the module
    pub name: Seq<char>,
    /// `init` functions by core
    pub inits: Seq<(u8, InitV)>,
    /// `idle` functions by core
    pub idles: Seq<(u8, IdleV)>,
    /// Late resources
    pub late_resources: Seq<(Seq<char>, LateResourceV)>,
    /// Shared resources
    pub shared_resources: Seq<(Seq<char>, LateResourceV)>,
    /// Local resources
    pub local_resources: Seq<(Seq<char>, LateResourceV)>,
    /// Early resources
    pub resources: Seq<(Seq<char>, ResourceV)>,
    /// Hardware tasks
    pub hardware_tasks: Seq<(Seq<char>, HardwareTaskV)>,
    /// Software tasks
    pub software_tasks: Seq<(Seq<char>, SoftwareTaskV)>,
    /// Extern interrupts declared in `extern` blocks
    pub extern_interrupts: Seq<(Seq<char>, Seq<AttrV>)>,
    /// Monotonic timers
    pub monotonics: Seq<(Seq<char>, MonotonicV)>,
    /// Actors
    pub actors: Seq<(Seq<char>, ActorV)>,
    /// The user's `use` items
    pub user_imports: Seq<Seq<TokV>>,
    /// The user's other items
    pub user_code: Seq<Seq<TokV>>,
}

impl View for App {
    type V = AppV;

    open spec fn view(&self) -> AppV {
        AppV {
            args: self.args@,
            name: self.name@,
            inits: cores_view(self.inits@),
            idles: cores_view(self.idles@),
            late_resources: map_view(self.late_resources@),
            shared_resources: map_view(self.shared_resources@),
            local_resources: map_view(self.local_resources@),
            resources: map_view(self.resources@),
            hardware_tasks: map_view(self.hardware_tasks@),
            software_tasks: map_view(self.software_tasks@),
            extern_interrupts: interrupts_view(self.extern_interrupts@),
            monotonics: map_view(self.monotonics@),
            actors: map_view(self.actors@),
            user_imports: crate::parse::item::toks_seq_view(self.user_imports@),
            user_code: crate::parse::item::toks_seq_view(self.user_code@),
        }
    }
}

} // verus!
