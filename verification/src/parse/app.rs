//! The application: its items read in order, each adding to what the
//! application holds, or refused
//!
//! - a function with `#[init]`, `#[idle]` or `#[task(..)]` is the `init`
//!   function, the `idle` function or a task; other functions are the
//!   user's own;
//! - a `struct` with `#[shared]` or `#[local]` declares shared or local
//!   resources, one per field (`#[lock_free]` marks a shared one); each is a
//!   late resource, a name that both structs declare once;
//! - a `struct` with `#[actors]` declares the actors, one per field;
//! - an `extern` block declares tasks defined elsewhere, and must have the
//!   Rust ABI;
//! - a `type` with `#[monotonic(..)]` declares a monotonic timer;
//! - anything else is the user's own.
//!
//! Names of `init`, `idle` and the tasks are distinct; an interrupt is bound
//! by one task or timer at most; a timer type serves one timer at most.
//! Once all items are read, the `#[shared]` struct, the `#[local]` struct
//! and `init` must be there, and `init` must return those structs (and the
//! `#[actors]` struct, where there is one) by their names.

use vstd::prelude::*;

use crate::ast::{
    Actor, ActorV, attrs_view, map_view, names_view, AttrV, Attribute, ExternInterrupt, HardwareTask,
    HardwareTaskV, Idle, IdleV, Init, InitV, LateResource, LateResourceV, Monotonic, MonotonicV,
    NameMap, Resource, ResourceV, SoftwareTask, SoftwareTaskV, interrupts_view,
};
use crate::error::{error_at, error_here, res_view, ErrV, Error, ErrorKind};
use crate::parse::args::{
    entry_names, has_entry, idle_args, idle_args_spec, init_args_spec, init_idle_args,
    monotonic_args, monotonic_args_spec, task_args, task_args_spec, TaskArgs, TaskArgsV,
};
use crate::parse::actor::actor_of;
use crate::parse::cursor::{group_at, read_group};
use crate::parse::func::{
    attr_named, attr_pos, cfg_filter, find_attr, lemma_keep_cfgs_filter, non_cfg_filter, hardware_task_of, idle_of, init_of, interrupt_of,
    keep_cfgs, parse_hardware_task, parse_idle, parse_init, parse_interrupt, parse_software_task,
    software_task_of, extract_cfgs,
};
use crate::parse::item::{
    fields_view, toks_seq_view, FieldV, Field, FnItem, FnItemV, Item, ItemV, StructItem,
    StructItemV, TypeItem, TypeItemV, is_use_item, plain_items_view, plain_item_view,
};
use crate::tokens::{unspace_toks, unspaced_seq, copy_toks, lemma_tv_index, lemma_tv_len, str_eq, toks_eq, tv, Delim, Tok, TokV, Tokens};
use crate::Settings;

verus! {

broadcast use lemma_tv_len, lemma_tv_index;

/// What the items read so far have given
pub struct AppStateV {
    /// The `init` function
    pub init: Option<InitV>,
    /// The `idle` function
    pub idle: Option<IdleV>,
    /// A `#[shared]` struct with fields has been read
    pub shared_filled: bool,
    /// A `#[local]` struct with fields has been read
    pub local_filled: bool,
    /// The name of the `#[shared]` struct
    pub shared_name: Option<Seq<char>>,
    /// The name of the `#[local]` struct
    pub local_name: Option<Seq<char>>,
    /// The name of the `#[actors]` struct
    pub actors_name: Option<Seq<char>>,
    /// Late resources
    pub late_resources: Seq<(Seq<char>, LateResourceV)>,
    /// Shared resources
    pub shared_resources: Seq<(Seq<char>, LateResourceV)>,
    /// Local resources
    pub local_resources: Seq<(Seq<char>, LateResourceV)>,
    /// Early resources
    pub resources: Seq<(Seq<char>, ResourceV)>,
    /// Hardware tasks
    pub hardware_tasks: Seq<(Seq<char>, HardwareTaskV)>,
    /// Software tasks
    pub software_tasks: Seq<(Seq<char>, SoftwareTaskV)>,
    /// Extern interrupts
    pub extern_interrupts: Seq<(Seq<char>, Seq<AttrV>)>,
    /// Monotonic timers
    pub monotonics: Seq<(Seq<char>, MonotonicV)>,
    /// Actors
    pub actors: Seq<(Seq<char>, ActorV)>,
    /// Names of `init`, `idle` and the tasks
    pub idents: Seq<Seq<char>>,
    /// Bound interrupts
    pub bindings: Seq<Seq<char>>,
    /// Timer types, without the spacing of their punctuation
    pub monotonic_types: Seq<Seq<TokV>>,
    /// The user's `use` items
    pub user_imports: Seq<Seq<TokV>>,
    /// The user's other items, passed on as they are
    pub user_code: Seq<Seq<TokV>>,
}

/// What the items read so far have given
#[derive(Debug)]
pub struct AppState {
    /// The `init` function
    pub init: Option<Init>,
    /// The `idle` function
    pub idle: Option<Idle>,
    /// A `#[shared]` struct with fields has been read
    pub shared_filled: bool,
    /// A `#[local]` struct with fields has been read
    pub local_filled: bool,
    /// The name of the `#[shared]` struct
    pub shared_name: Option<String>,
    /// The name of the `#[local]` struct
    pub local_name: Option<String>,
    /// The name of the `#[actors]` struct
    pub actors_name: Option<String>,
    /// Late resources
    pub late_resources: NameMap<LateResource>,
    /// Shared resources
    pub shared_resources: NameMap<LateResource>,
    /// Local resources
    pub local_resources: NameMap<LateResource>,
    /// Early resources
    pub resources: NameMap<Resource>,
    /// Hardware tasks
    pub hardware_tasks: NameMap<HardwareTask>,
    /// Software tasks
    pub software_tasks: NameMap<SoftwareTask>,
    /// Extern interrupts
    pub extern_interrupts: NameMap<ExternInterrupt>,
    /// Monotonic timers
    pub monotonics: NameMap<Monotonic>,
    /// Actors
    pub actors: NameMap<Actor>,
    /// Names of `init`, `idle` and the tasks
    pub idents: Vec<String>,
    /// Bound interrupts
    pub bindings: Vec<String>,
    /// Timer types, without the spacing of their punctuation
    pub monotonic_types: Vec<Tokens>,
    /// The user's `use` items
    pub user_imports: Vec<Tokens>,
    /// The user's other items, passed on as they are
    pub user_code: Vec<Tokens>,
}

impl View for AppState {
    type V = AppStateV;

    open spec fn view(&self) -> AppStateV {
        AppStateV {
            init: match self.init {
                Some(i) => Some(i@),
                None => None,
            },
            idle: match self.idle {
                Some(i) => Some(i@),
                None => None,
            },
            shared_filled: self.shared_filled,
            local_filled: self.local_filled,
            shared_name: opt_str_view(self.shared_name),
            local_name: opt_str_view(self.local_name),
            actors_name: opt_str_view(self.actors_name),
            late_resources: map_view(self.late_resources@),
            shared_resources: map_view(self.shared_resources@),
            local_resources: map_view(self.local_resources@),
            resources: map_view(self.resources@),
            hardware_tasks: map_view(self.hardware_tasks@),
            software_tasks: map_view(self.software_tasks@),
            extern_interrupts: interrupts_view(self.extern_interrupts@),
            monotonics: map_view(self.monotonics@),
            actors: map_view(self.actors@),
            idents: names_view(self.idents@),
            bindings: names_view(self.bindings@),
            monotonic_types: toks_seq_view(self.monotonic_types@),
            user_imports: toks_seq_view(self.user_imports@),
            user_code: toks_seq_view(self.user_code@),
        }
    }
}

/// The text of an optional name
pub open spec fn opt_str_view(s: Option<String>) -> Option<Seq<char>> {
    match s {
        Some(x) => Some(x@),
        None => None,
    }
}

/// Nothing read yet
pub open spec fn empty_state() -> AppStateV {
    AppStateV {
        init: None,
        idle: None,
        shared_filled: false,
        local_filled: false,
        shared_name: None,
        local_name: None,
        actors_name: None,
        late_resources: seq![],
        shared_resources: seq![],
        local_resources: seq![],
        resources: seq![],
        hardware_tasks: seq![],
        software_tasks: seq![],
        extern_interrupts: seq![],
        monotonics: seq![],
        actors: seq![],
        idents: seq![],
        bindings: seq![],
        monotonic_types: seq![],
        user_imports: seq![],
        user_code: seq![],
    }
}

// ---- functions ----

/// The task `f` whose `#[task]` attribute stands at `p`; for a task declared
/// in an `extern` block (`foreign`), that attribute must be its only one
pub open spec fn task_step(settings: Settings, st: AppStateV, f: FnItemV, p: int, foreign: bool) -> Result<
    AppStateV,
    ErrV,
> {
    if entry_names(st.hardware_tasks).contains(f.name) || entry_names(st.software_tasks).contains(
        f.name,
    ) {
        Err((ErrorKind::TaskDefinedMultipleTimes, f.name))
    } else if foreign && f.attrs.len() != 1 {
        Err((ErrorKind::ExternTaskAttribute, f.name))
    } else {
        let g = FnItemV { attrs: f.attrs.remove(p), ..f };
        match task_args_spec(f.attrs[p].tokens, settings.parse_binds) {
            Err(e) => Err(e),
            Ok(TaskArgsV::Hardware(a)) => if st.bindings.contains(a.binds) {
                Err((ErrorKind::InterruptAlreadyBound, a.binds))
            } else if st.idents.contains(f.name) {
                Err((ErrorKind::IdentifierAlreadyUsed, f.name))
            } else {
                match hardware_task_of(a, g) {
                    Err(e) => Err(e),
                    Ok(t) => Ok(
                        AppStateV {
                            hardware_tasks: st.hardware_tasks.push((f.name, t)),
                            bindings: st.bindings.push(a.binds),
                            idents: st.idents.push(f.name),
                            ..st
                        },
                    ),
                }
            },
            Ok(TaskArgsV::Software(a)) => if st.idents.contains(f.name) {
                Err((ErrorKind::IdentifierAlreadyUsed, f.name))
            } else {
                match software_task_of(a, g) {
                    Err(e) => Err(e),
                    Ok(t) => Ok(
                        AppStateV {
                            software_tasks: st.software_tasks.push((f.name, t)),
                            idents: st.idents.push(f.name),
                            ..st
                        },
                    ),
                }
            },
        }
    }
}

/// The `init` function `f`, whose `#[init]` attribute stands at `p`
pub open spec fn init_step(st: AppStateV, f: FnItemV, p: int) -> Result<AppStateV, ErrV> {
    match init_args_spec(f.attrs[p].tokens) {
        Err(e) => Err(e),
        Ok(a) => if st.init is Some {
            Err((ErrorKind::InitAtMostOnce, f.name))
        } else if st.idents.contains(f.name) {
            Err((ErrorKind::IdentifierAlreadyUsed, f.name))
        } else {
            match init_of(a, FnItemV { attrs: f.attrs.remove(p), ..f }) {
                Err(e) => Err(e),
                Ok(i) => Ok(AppStateV { init: Some(i), idents: st.idents.push(f.name), ..st }),
            }
        },
    }
}

/// The `idle` function `f`, whose `#[idle]` attribute stands at `p`
pub open spec fn idle_step(st: AppStateV, f: FnItemV, p: int) -> Result<AppStateV, ErrV> {
    match idle_args_spec(f.attrs[p].tokens) {
        Err(e) => Err(e),
        Ok(a) => if st.idle is Some {
            Err((ErrorKind::IdleAtMostOnce, f.name))
        } else if st.idents.contains(f.name) {
            Err((ErrorKind::IdentifierAlreadyUsed, f.name))
        } else {
            match idle_of(a, FnItemV { attrs: f.attrs.remove(p), ..f }) {
                Err(e) => Err(e),
                Ok(i) => Ok(AppStateV { idle: Some(i), idents: st.idents.push(f.name), ..st }),
            }
        },
    }
}

/// The function item `f` of the module: `init` where it has `#[init]`, else
/// `idle` where it has `#[idle]`, else a task where it has `#[task]`
pub open spec fn fn_step(settings: Settings, st: AppStateV, f: FnItemV) -> Result<AppStateV, ErrV> {
    match attr_pos(f.attrs, "init"@) {
        Some(p) => init_step(st, f, p),
        None => match attr_pos(f.attrs, "idle"@) {
            Some(p) => idle_step(st, f, p),
            None => match attr_pos(f.attrs, "task"@) {
                Some(p) => task_step(settings, st, f, p, false),
                None => Ok(st),
            },
        },
    }
}

// ---- resources ----

/// The initial value in `#[init(expr)]`, from the tokens after the path
pub open spec fn init_expr(t: Seq<TokV>) -> Result<Seq<TokV>, ErrV> {
    match group_at(t, 0, Delim::Parenthesis) {
        None => Err((ErrorKind::ExpectedParens, Seq::empty())),
        Some(c) => if c.len() == 0 {
            Err((ErrorKind::ExpectedExpression, Seq::empty()))
        } else if t.len() > 1 {
            Err((ErrorKind::UnexpectedToken, Seq::empty()))
        } else {
            Ok(c)
        },
    }
}

/// A late resource from a field of the `#[shared]` struct (`shared`) or of
/// the `#[local]` struct: a shared one may carry `#[lock_free]`
pub open spec fn shared_local_of(fd: FieldV, shared: bool) -> Result<LateResourceV, ErrV> {
    if !fd.vis_inherited {
        Err((ErrorKind::FieldVisibility, fd.name))
    } else {
        let others = keep_cfgs(fd.attrs, false);
        let p = if shared {
            attr_pos(others, "lock_free"@)
        } else {
            None
        };
        Ok(
            LateResourceV {
                cfgs: keep_cfgs(fd.attrs, true),
                attrs: match p {
                    Some(k) => others.remove(k),
                    None => others,
                },
                ty: fd.ty,
                lock_free: p is Some,
            },
        )
    }
}

/// The late resources with `(x, l)` added, where no late resource is
/// named `x` yet
pub open spec fn late_with<T>(late: Seq<(Seq<char>, T)>, x: Seq<char>, l: T) -> Seq<(Seq<char>, T)> {
    if entry_names(late).contains(x) {
        late
    } else {
        late.push((x, l))
    }
}

/// A `#[lock_free]` stands among the attributes other than `#[cfg]`
/// exactly when it stands among all of them
proof fn lemma_lock_free_kept(attrs: Seq<AttrV>)
    ensures
        attr_pos(attrs.filter(non_cfg_filter()), "lock_free"@) is Some <==> exists|i: int|
            0 <= i < attrs.len() && #[trigger] attr_named(attrs[i], "lock_free"@),
{
    reveal_strlit("lock_free");
    reveal_strlit("cfg");
    let others = attrs.filter(non_cfg_filter());
    if exists|i: int| 0 <= i < attrs.len() && #[trigger] attr_named(attrs[i], "lock_free"@) {
        let i = choose|i: int| 0 <= i < attrs.len() && #[trigger] attr_named(attrs[i], "lock_free"@);
        assert(attrs[i].path.segments[0].len() != "cfg"@.len());
        attrs.lemma_filter_contains(non_cfg_filter(), i);
        let k = choose|k: int| 0 <= k < others.len() && others[k] == attrs[i];
        assert(attr_named(others[k], "lock_free"@));
    }
    if exists|k: int| 0 <= k < others.len() && #[trigger] attr_named(others[k], "lock_free"@) {
        let k = choose|k: int| 0 <= k < others.len() && #[trigger] attr_named(others[k], "lock_free"@);
        assert(others.contains(others[k]));
        attrs.lemma_filter_contains_rev(non_cfg_filter(), others[k]);
        let i = choose|i: int| 0 <= i < attrs.len() && attrs[i] == others[k];
        assert(attr_named(attrs[i], "lock_free"@));
    }
}

/// Law: a field of the `#[shared]` or `#[local]` struct is read where it has
/// no visibility of its own; its resource keeps the field's type, its
/// `#[cfg]` attributes in order as its `cfgs`, and the others as its
/// `attrs`, but for one `#[lock_free]`: a shared resource is lock-free
/// exactly when the field carries `#[lock_free]`, a local one never is
pub proof fn law_shared_local_attrs(fd: FieldV, shared: bool)
    ensures
        shared_local_of(fd, shared) is Ok <==> fd.vis_inherited,
        shared_local_of(fd, shared) matches Ok(l) ==> {
            &&& l.ty == fd.ty
            &&& l.cfgs == fd.attrs.filter(cfg_filter())
            &&& l.lock_free <==> (shared && exists|i: int|
                0 <= i < fd.attrs.len() && #[trigger] attr_named(fd.attrs[i], "lock_free"@))
            &&& l.attrs.len() + (if l.lock_free { 1int } else { 0int }) == fd.attrs.filter(
                non_cfg_filter(),
            ).len()
            &&& !shared ==> l.attrs == fd.attrs.filter(non_cfg_filter())
        },
{
    lemma_keep_cfgs_filter(fd.attrs);
    lemma_lock_free_kept(fd.attrs);
    crate::parse::func::lemma_attr_pos(fd.attrs.filter(non_cfg_filter()), "lock_free"@);
}


/// The field `fd` of the `#[shared]` struct (`shared`) or of the `#[local]`
/// struct: a shared or a local resource, and a late one unless the other
/// struct declared that name first; a name is refused twice in one struct
pub open spec fn shared_local_field_step(st: AppStateV, fd: FieldV, shared: bool) -> Result<
    AppStateV,
    ErrV,
> {
    let own = if shared {
        st.shared_resources
    } else {
        st.local_resources
    };
    if entry_names(own).contains(fd.name) || entry_names(st.resources).contains(fd.name) {
        Err((ErrorKind::ResourceListedMoreThanOnce, fd.name))
    } else {
        match shared_local_of(fd, shared) {
            Err(e) => Err(e),
            Ok(l) => Ok(
                if shared {
                    AppStateV {
                        late_resources: late_with(st.late_resources, fd.name, l),
                        shared_resources: st.shared_resources.push((fd.name, l)),
                        ..st
                    }
                } else {
                    AppStateV {
                        late_resources: late_with(st.late_resources, fd.name, l),
                        local_resources: st.local_resources.push((fd.name, l)),
                        ..st
                    }
                },
            ),
        }
    }
}

/// The fields `fs[k..]` of the `#[shared]` struct (`shared`) or of the
/// `#[local]` struct
pub open spec fn shared_local_fields_step(st: AppStateV, fs: Seq<FieldV>, k: int, shared: bool) -> Result<
    AppStateV,
    ErrV,
>
    decreases fs.len() - k,
{
    if k < 0 || k >= fs.len() {
        Ok(st)
    } else {
        match shared_local_field_step(st, fs[k], shared) {
            Err(e) => Err(e),
            Ok(st2) => shared_local_fields_step(st2, fs, k + 1, shared),
        }
    }
}

/// The state after the fields of a `#[shared]` struct (`shared`) or of a
/// `#[local]` struct named `name` were read, `n` of them: the struct's name
/// kept, and marked as filled where there were some
pub open spec fn then_filled(r: Result<AppStateV, ErrV>, n: int, shared: bool, name: Seq<char>) -> Result<
    AppStateV,
    ErrV,
> {
    match r {
        Err(e) => Err(e),
        Ok(st2) => Ok(
            if shared {
                AppStateV { shared_filled: st2.shared_filled || n > 0, shared_name: Some(name), ..st2 }
            } else {
                AppStateV { local_filled: st2.local_filled || n > 0, local_name: Some(name), ..st2 }
            },
        ),
    }
}

/// The `#[shared]` struct (`shared`) or the `#[local]` struct `s`: a second
/// one is refused only where the first declared some resources
pub open spec fn shared_local_struct_step(st: AppStateV, s: StructItemV, shared: bool) -> Result<
    AppStateV,
    ErrV,
> {
    if shared && st.shared_filled {
        Err((ErrorKind::SharedStructAtMostOnce, s.name))
    } else if !shared && st.local_filled {
        Err((ErrorKind::LocalStructAtMostOnce, s.name))
    } else if !s.vis_inherited {
        Err((ErrorKind::ItemVisibility, s.name))
    } else {
        match s.fields {
            None => Err((ErrorKind::StructNamedFields, s.name)),
            Some(fs) => then_filled(
                shared_local_fields_step(st, fs, 0, shared),
                fs.len() as int,
                shared,
                s.name,
            ),
        }
    }
}

/// The field `fd` of the `#[actors]` struct
pub open spec fn actor_field_step(st: AppStateV, fd: FieldV) -> Result<AppStateV, ErrV> {
    if entry_names(st.actors).contains(fd.name) {
        Err((ErrorKind::ResourceListedMoreThanOnce, fd.name))
    } else {
        match actor_of(fd) {
            Err(e) => Err(e),
            Ok(a) => Ok(AppStateV { actors: st.actors.push((fd.name, a)), ..st }),
        }
    }
}

/// The fields `fs[k..]` of the `#[actors]` struct
pub open spec fn actor_fields_step(st: AppStateV, fs: Seq<FieldV>, k: int) -> Result<AppStateV, ErrV>
    decreases fs.len() - k,
{
    if k < 0 || k >= fs.len() {
        Ok(st)
    } else {
        match actor_field_step(st, fs[k]) {
            Err(e) => Err(e),
            Ok(st2) => actor_fields_step(st2, fs, k + 1),
        }
    }
}

/// The `struct` item `s` of the module, where it has `#[actors]`: the
/// actors (a second such struct is refused only where the first declared
/// some)
pub open spec fn actors_struct_step(st: AppStateV, s: StructItemV) -> Result<AppStateV, ErrV> {
    match attr_pos(s.attrs, "actors"@) {
        None => Ok(st),
        Some(_) => if st.actors.len() > 0 {
            Err((ErrorKind::ActorsStructAtMostOnce, s.name))
        } else if !s.vis_inherited {
            Err((ErrorKind::ItemVisibility, s.name))
        } else {
            match s.fields {
                None => Err((ErrorKind::StructNamedFields, s.name)),
                Some(fs) => then_named_actors(actor_fields_step(st, fs, 0), s.name),
            }
        },
    }
}

/// The state after the fields of the `#[actors]` struct named `name` were
/// read: the struct's name kept
pub open spec fn then_named_actors(r: Result<AppStateV, ErrV>, name: Seq<char>) -> Result<
    AppStateV,
    ErrV,
> {
    match r {
        Err(e) => Err(e),
        Ok(st2) => Ok(AppStateV { actors_name: Some(name), ..st2 }),
    }
}

/// The `struct` item `s` of the module
pub open spec fn other_struct_step(st: AppStateV, s: StructItemV) -> Result<AppStateV, ErrV> {
    if attr_pos(s.attrs, "shared"@) is Some {
        shared_local_struct_step(st, s, true)
    } else if attr_pos(s.attrs, "local"@) is Some {
        shared_local_struct_step(st, s, false)
    } else {
        actors_struct_step(st, s)
    }
}

/// The `struct` item `s` of the module: a `#[shared]`, `#[local]` or
/// `#[actors]` struct is read, any other passed on
pub open spec fn struct_step(st: AppStateV, s: StructItemV) -> Result<AppStateV, ErrV> {
    other_struct_step(st, s)
}

// ---- extern blocks ----

/// Is the ABI of an `extern` block Rust's (none written, or `"Rust"`)?
pub open spec fn rust_abi(abi: Option<Seq<char>>) -> bool {
    match abi {
        None => true,
        Some(a) => a == "\"Rust\""@,
    }
}

/// One item of an `extern` block with the Rust ABI: a task declaration
pub open spec fn extern_task_step(settings: Settings, st: AppStateV, it: ItemV) -> Result<
    AppStateV,
    ErrV,
> {
    match it {
        ItemV::Fn(f) => if f.body is Some {
            Err((ErrorKind::ItemOutsideApp, Seq::empty()))
        } else {
            match attr_pos(f.attrs, "task"@) {
                None => Err((ErrorKind::ExternTaskAttribute, f.name)),
                Some(p) => task_step(settings, st, f, p, true),
            }
        },
        _ => Err((ErrorKind::ItemOutsideApp, Seq::empty())),
    }
}

/// One item of an `extern` block with another ABI: an interrupt
pub open spec fn interrupt_step(st: AppStateV, it: ItemV) -> Result<AppStateV, ErrV> {
    match it {
        ItemV::Fn(f) => if f.body is Some {
            Err((ErrorKind::ItemOutsideApp, Seq::empty()))
        } else {
            match interrupt_of(f) {
                Err(e) => Err(e),
                Ok(attrs) => if entry_names(st.extern_interrupts).contains(f.name) {
                    Err((ErrorKind::InterruptListedMoreThanOnce, f.name))
                } else {
                    Ok(
                        AppStateV {
                            extern_interrupts: st.extern_interrupts.push((f.name, attrs)),
                            ..st
                        },
                    )
                },
            }
        },
        _ => Err((ErrorKind::ItemOutsideApp, Seq::empty())),
    }
}

/// The items `items[k..]` of an `extern` block: tasks where `rust`, else
/// interrupts
pub open spec fn extern_from(
    settings: Settings,
    st: AppStateV,
    items: Seq<ItemV>,
    k: int,
    rust: bool,
) -> Result<AppStateV, ErrV>
    decreases items.len() - k,
{
    if k < 0 || k >= items.len() {
        Ok(st)
    } else {
        let r = if rust {
            extern_task_step(settings, st, items[k])
        } else {
            interrupt_step(st, items[k])
        };
        match r {
            Err(e) => Err(e),
            Ok(st2) => extern_from(settings, st2, items, k + 1, rust),
        }
    }
}

/// An `extern` block of the module
pub open spec fn extern_step(settings: Settings, st: AppStateV, abi: Option<Seq<char>>, items: Seq<
    ItemV,
>) -> Result<AppStateV, ErrV> {
    if rust_abi(abi) {
        extern_from(settings, st, items, 0, true)
    } else {
        Err((ErrorKind::ExternBlockAbi, Seq::empty()))
    }
}

// ---- monotonics ----

/// The `type` item `t` of the module
pub open spec fn type_step(st: AppStateV, t: TypeItemV) -> Result<AppStateV, ErrV> {
    match attr_pos(t.attrs, "monotonic"@) {
        None => Ok(st),
        Some(p) => if entry_names(st.monotonics).contains(t.name) {
            Err((ErrorKind::MonotonicAtMostOnce, t.name))
        } else if !t.vis_inherited {
            Err((ErrorKind::ItemVisibility, t.name))
        } else if st.monotonic_types.contains(unspaced_seq(t.ty)) {
            Err((ErrorKind::MonotonicTypeAlreadyUsed, Seq::empty()))
        } else {
            match monotonic_args_spec(t.attrs[p].tokens) {
                Err(e) => Err(e),
                Ok(a) => if st.bindings.contains(a.binds) {
                    Err((ErrorKind::InterruptAlreadyBound, a.binds))
                } else {
                    match timer_of(t, p, a) {
                        Err(e) => Err(e),
                        Ok(m) => Ok(
                            AppStateV {
                                monotonics: st.monotonics.push((t.name, m)),
                                bindings: st.bindings.push(a.binds),
                                monotonic_types: st.monotonic_types.push(unspaced_seq(t.ty)),
                                ..st
                            },
                        ),
                    }
                },
            }
        },
    }
}

// ---- the module ----

/// One item of the module
pub open spec fn item_step(settings: Settings, st: AppStateV, it: ItemV) -> Result<AppStateV, ErrV> {
    match it {
        ItemV::Fn(f) => if f.body is Some {
            fn_step(settings, st, f)
        } else {
            Ok(st)
        },
        ItemV::Struct(s) => struct_step(st, s),
        ItemV::ForeignMod(abi, items) => extern_step(settings, st, abi, items),
        ItemV::Type(t) => type_step(st, t),
        ItemV::Other => Ok(st),
    }
}

/// Is the item `it` the user's own, passed on as it is: a function that is
/// not `init`, `idle` or a task, a `struct` that declares neither resources
/// nor actors, any `type`, or an item of another kind (not an `extern`
/// block)?
pub open spec fn passed_on(it: ItemV) -> bool {
    match it {
        ItemV::Fn(f) => f.body is None || (attr_pos(f.attrs, "init"@) is None && attr_pos(
            f.attrs,
            "idle"@,
        ) is None && attr_pos(f.attrs, "task"@) is None),
        ItemV::Struct(s) => attr_pos(s.attrs, "shared"@) is None && attr_pos(s.attrs, "local"@) is None
            && attr_pos(s.attrs, "actors"@) is None,
        ItemV::ForeignMod(_, _) => false,
        ItemV::Type(_) => true,
        ItemV::Other => true,
    }
}

/// The item `it`, whose tokens are `t`, kept where it is the user's own: a
/// `use` item among the imports, any other among the user's code
pub open spec fn user_step(st: AppStateV, it: ItemV, t: Seq<TokV>) -> AppStateV {
    if !passed_on(it) {
        st
    } else if it is Other && is_use_item(t) {
        AppStateV { user_imports: st.user_imports.push(t), ..st }
    } else {
        AppStateV { user_code: st.user_code.push(t), ..st }
    }
}

/// The items `items[k..]` of the module, whose tokens are `texts[k..]`
pub open spec fn items_step(
    settings: Settings,
    st: AppStateV,
    items: Seq<ItemV>,
    texts: Seq<Seq<TokV>>,
    k: int,
) -> Result<AppStateV, ErrV>
    decreases items.len() - k,
{
    if k < 0 || k >= items.len() {
        Ok(st)
    } else {
        match item_step(settings, st, items[k]) {
            Err(e) => Err(e),
            Ok(st2) => items_step(settings, user_step(st2, items[k], texts[k]), items, texts, k + 1),
        }
    }
}

// ---- reading ----

fn has_string(v: &Vec<String>, x: &String) -> (r: bool)
    ensures
        r == names_view(v@).contains(x@),
{
    let mut j: usize = 0;
    while j < v.len()
        invariant
            j <= v@.len(),
            forall|q: int| 0 <= q < j ==> v@[q]@ != x@,
        decreases v@.len() - j,
    {
        if str_eq(v[j].as_str(), x.as_str()) {
            assert(names_view(v@)[j as int] == x@);
            return true;
        }
        j = j + 1;
    }
    assert(!names_view(v@).contains(x@)) by {
        if names_view(v@).contains(x@) {
            let q = choose|q: int| 0 <= q < v@.len() && names_view(v@)[q] == x@;
            assert(names_view(v@)[q] == v@[q]@);
        }
    }
    false
}

fn has_tokens(v: &Vec<Tokens>, t: &Tokens) -> (r: bool)
    ensures
        r == toks_seq_view(v@).contains(tv(t@)),
{
    let mut j: usize = 0;
    while j < v.len()
        invariant
            j <= v@.len(),
            forall|q: int| 0 <= q < j ==> tv(v@[q]@) != tv(t@),
        decreases v@.len() - j,
    {
        if toks_eq(&v[j], t) {
            assert(toks_seq_view(v@)[j as int] == tv(t@));
            return true;
        }
        j = j + 1;
    }
    assert(!toks_seq_view(v@).contains(tv(t@))) by {
        if toks_seq_view(v@).contains(tv(t@)) {
            let q = choose|q: int| 0 <= q < v@.len() && toks_seq_view(v@)[q] == tv(t@);
            assert(toks_seq_view(v@)[q] == tv(v@[q]@));
        }
    }
    false
}

fn has_key_in<T: View>(m: &NameMap<T>, x: &String) -> (r: bool)
    ensures
        r == entry_names(map_view(m@)).contains(x@),
{
    let ghost names = entry_names(map_view(m@));
    assert forall|j: int| 0 <= j < m@.len() implies #[trigger] names[j] == m@[j].0@ by {
        assert(map_view(m@)[j] == (m@[j].0@, m@[j].1@));
    }
    has_entry(m, x, Ghost(names))
}

fn has_interrupt(m: &NameMap<ExternInterrupt>, x: &String) -> (r: bool)
    ensures
        r == entry_names(interrupts_view(m@)).contains(x@),
{
    let ghost names = entry_names(interrupts_view(m@));
    assert forall|j: int| 0 <= j < m@.len() implies #[trigger] names[j] == m@[j].0@ by {
        assert(interrupts_view(m@)[j] == (m@[j].0@, attrs_view(m@[j].1.attrs@)));
    }
    has_entry(m, x, Ghost(names))
}

/// The function `f` without its attribute at `p`
fn without_attr(f: FnItem, p: usize) -> (r: FnItem)
    requires
        p < f.attrs@.len(),
    ensures
        r@ == (FnItemV { attrs: f@.attrs.remove(p as int), ..f@ }),
{
    let FnItem { attrs, vis_inherited, plain, name, generic, params, ret, where_clause, body } = f;
    let mut attrs = attrs;
    let ghost before = attrs@;
    attrs.remove(p);
    assert(attrs_view(attrs@) =~= attrs_view(before).remove(p as int));
    FnItem { attrs, vis_inherited, plain, name, generic, params, ret, where_clause, body }
}

fn push_name(v: &mut Vec<String>, x: String)
    ensures
        names_view(final(v)@) == names_view(old(v)@).push(x@),
{
    v.push(x);
    assert(names_view(v@) =~= names_view(old(v)@).push(x@));
}

fn push_entry<T: View>(m: &mut NameMap<T>, x: String, t: T)
    ensures
        map_view(final(m)@) == map_view(old(m)@).push((x@, t@)),
{
    let ghost xv = x@;
    let ghost tv2 = t@;
    m.push((x, t));
    assert(map_view(m@) =~= map_view(old(m)@).push((xv, tv2)));
}

/// Reads the task `f` whose `#[task]` attribute stands at `p`
fn read_task(settings: &Settings, st: &mut AppState, f: FnItem, p: usize, foreign: bool) -> (r: Result<
    (),
    Error,
>)
    requires
        p < f.attrs@.len(),
    ensures
        match r {
            Ok(()) => task_step(*settings, old(st)@, f@, p as int, foreign) == Ok::<AppStateV, ErrV>(
                final(st)@,
            ),
            Err(e) => task_step(*settings, old(st)@, f@, p as int, foreign) == Err::<
                AppStateV,
                ErrV,
            >(e@),
        },
{
    if has_key_in(&st.hardware_tasks, &f.name) || has_key_in(&st.software_tasks, &f.name) {
        return Err(error_at(ErrorKind::TaskDefinedMultipleTimes, &f.name));
    }
    if foreign && f.attrs.len() != 1 {
        return Err(error_at(ErrorKind::ExternTaskAttribute, &f.name));
    }
    assert(f@.attrs[p as int] == f.attrs@[p as int]@);
    let args = match task_args(&f.attrs[p].tokens, settings) {
        Err(e) => return Err(e),
        Ok(a) => a,
    };
    let name = f.name.clone();
    let g = without_attr(f, p);
    match args {
        TaskArgs::Hardware(a) => {
            if has_string(&st.bindings, &a.binds) {
                return Err(error_at(ErrorKind::InterruptAlreadyBound, &a.binds));
            }
            if has_string(&st.idents, &name) {
                return Err(error_at(ErrorKind::IdentifierAlreadyUsed, &name));
            }
            let binds = a.binds.clone();
            let t = match parse_hardware_task(a, g) {
                Err(e) => return Err(e),
                Ok(t) => t,
            };
            push_entry(&mut st.hardware_tasks, name.clone(), t);
            push_name(&mut st.bindings, binds);
            push_name(&mut st.idents, name);
            Ok(())
        },
        TaskArgs::Software(a) => {
            if has_string(&st.idents, &name) {
                return Err(error_at(ErrorKind::IdentifierAlreadyUsed, &name));
            }
            let t = match parse_software_task(a, g) {
                Err(e) => return Err(e),
                Ok(t) => t,
            };
            push_entry(&mut st.software_tasks, name.clone(), t);
            push_name(&mut st.idents, name);
            Ok(())
        },
    }
}

/// Reads the `init` function `f`, whose `#[init]` attribute stands at `p`
fn read_init_fn(st: &mut AppState, f: FnItem, p: usize) -> (r: Result<(), Error>)
    requires
        p < f.attrs@.len(),
    ensures
        match r {
            Ok(()) => init_step(old(st)@, f@, p as int) == Ok::<AppStateV, ErrV>(final(st)@),
            Err(e) => init_step(old(st)@, f@, p as int) == Err::<AppStateV, ErrV>(e@),
        },
{
    assert(f@.attrs[p as int] == f.attrs@[p as int]@);
    let a = match init_idle_args(&f.attrs[p].tokens) {
        Err(e) => return Err(e),
        Ok(a) => a,
    };
    if st.init.is_some() {
        return Err(error_at(ErrorKind::InitAtMostOnce, &f.name));
    }
    if has_string(&st.idents, &f.name) {
        return Err(error_at(ErrorKind::IdentifierAlreadyUsed, &f.name));
    }
    let name = f.name.clone();
    let g = without_attr(f, p);
    let i = match parse_init(a, g) {
        Err(e) => return Err(e),
        Ok(i) => i,
    };
    st.init = Some(i);
    push_name(&mut st.idents, name);
    Ok(())
}

/// Reads the `idle` function `f`, whose `#[idle]` attribute stands at `p`
fn read_idle_fn(st: &mut AppState, f: FnItem, p: usize) -> (r: Result<(), Error>)
    requires
        p < f.attrs@.len(),
    ensures
        match r {
            Ok(()) => idle_step(old(st)@, f@, p as int) == Ok::<AppStateV, ErrV>(final(st)@),
            Err(e) => idle_step(old(st)@, f@, p as int) == Err::<AppStateV, ErrV>(e@),
        },
{
    assert(f@.attrs[p as int] == f.attrs@[p as int]@);
    let a = match idle_args(&f.attrs[p].tokens) {
        Err(e) => return Err(e),
        Ok(a) => a,
    };
    if st.idle.is_some() {
        return Err(error_at(ErrorKind::IdleAtMostOnce, &f.name));
    }
    if has_string(&st.idents, &f.name) {
        return Err(error_at(ErrorKind::IdentifierAlreadyUsed, &f.name));
    }
    let name = f.name.clone();
    let g = without_attr(f, p);
    let i = match parse_idle(a, g) {
        Err(e) => return Err(e),
        Ok(i) => i,
    };
    st.idle = Some(i);
    push_name(&mut st.idents, name);
    Ok(())
}

/// Reads the function item `f` of the module
fn read_fn_item(settings: &Settings, st: &mut AppState, f: FnItem) -> (r: Result<(), Error>)
    ensures
        match r {
            Ok(()) => fn_step(*settings, old(st)@, f@) == Ok::<AppStateV, ErrV>(final(st)@),
            Err(e) => fn_step(*settings, old(st)@, f@) == Err::<AppStateV, ErrV>(e@),
        },
{
    match find_attr(&f.attrs, "init") {
        Some(p) => read_init_fn(st, f, p),
        None => match find_attr(&f.attrs, "idle") {
            Some(p) => read_idle_fn(st, f, p),
            None => match find_attr(&f.attrs, "task") {
                Some(p) => read_task(settings, st, f, p, false),
                None => Ok(()),
            },
        },
    }
}

/// Reads the initial value in `#[init(expr)]`
pub(crate) fn read_init_expr(t: &Tokens) -> (r: Result<Tokens, Error>)
    ensures
        match r {
            Ok(x) => init_expr(tv(t@)) == Ok::<Seq<TokV>, ErrV>(tv(x@)),
            Err(e) => init_expr(tv(t@)) == Err::<Seq<TokV>, ErrV>(e@),
        },
{
    match read_group(t, 0, Delim::Parenthesis) {
        None => Err(error_here(ErrorKind::ExpectedParens)),
        Some(c) => {
            if c.len() == 0 {
                Err(error_here(ErrorKind::ExpectedExpression))
            } else if t.len() > 1 {
                Err(error_here(ErrorKind::UnexpectedToken))
            } else {
                Ok(copy_toks(c))
            }
        },
    }
}

/// Reads a late resource from a field of the `#[shared]` struct (`shared`)
/// or of the `#[local]` struct
fn read_shared_local(fd: Field, shared: bool) -> (r: Result<LateResource, Error>)
    ensures
        res_view(r) == shared_local_of(fd@, shared),
{
    if !fd.vis_inherited {
        return Err(error_at(ErrorKind::FieldVisibility, &fd.name));
    }
    let (cfgs, mut attrs) = extract_cfgs(fd.attrs);
    let lock_free = if shared {
        match crate::parse::func::extract_lock_free(&mut attrs) {
            Ok(b) => b,
            Err(e) => return Err(e),
        }
    } else {
        false
    };
    Ok(LateResource { cfgs, attrs, ty: fd.ty, lock_free })
}

/// Reads the field `fd` of the `#[shared]` struct (`shared`) or of the
/// `#[local]` struct
fn read_shared_local_field(st: &mut AppState, fd: Field, shared: bool) -> (r: Result<(), Error>)
    ensures
        match r {
            Ok(()) => shared_local_field_step(old(st)@, fd@, shared) == Ok::<AppStateV, ErrV>(
                final(st)@,
            ),
            Err(e) => shared_local_field_step(old(st)@, fd@, shared) == Err::<AppStateV, ErrV>(e@),
        },
{
    let own = if shared {
        has_key_in(&st.shared_resources, &fd.name)
    } else {
        has_key_in(&st.local_resources, &fd.name)
    };
    if own || has_key_in(&st.resources, &fd.name) {
        return Err(error_at(ErrorKind::ResourceListedMoreThanOnce, &fd.name));
    }
    let name = fd.name.clone();
    let late = match read_shared_local(fd, shared) {
        Err(e) => return Err(e),
        Ok(l) => l,
    };
    if !has_key_in(&st.late_resources, &name) {
        push_entry(&mut st.late_resources, name.clone(), crate::ast::copy_late(&late));
    }
    if shared {
        push_entry(&mut st.shared_resources, name, late);
    } else {
        push_entry(&mut st.local_resources, name, late);
    }
    Ok(())
}

/// Reads the `#[shared]` struct (`shared`) or the `#[local]` struct `s`
#[verifier::rlimit(60)]
fn read_shared_local_struct(st: &mut AppState, s: StructItem, shared: bool) -> (r: Result<(), Error>)
    ensures
        match r {
            Ok(()) => shared_local_struct_step(old(st)@, s@, shared) == Ok::<AppStateV, ErrV>(
                final(st)@,
            ),
            Err(e) => shared_local_struct_step(old(st)@, s@, shared) == Err::<AppStateV, ErrV>(
                e@,
            ),
        },
{
    if shared && st.shared_filled {
        return Err(error_at(ErrorKind::SharedStructAtMostOnce, &s.name));
    }
    if !shared && st.local_filled {
        return Err(error_at(ErrorKind::LocalStructAtMostOnce, &s.name));
    }
    if !s.vis_inherited {
        return Err(error_at(ErrorKind::ItemVisibility, &s.name));
    }
    let ghost sv = s@;
    let sname = s.name.clone();
    let fields = match s.fields {
        None => return Err(error_at(ErrorKind::StructNamedFields, &s.name)),
        Some(fs) => fs,
    };
    let ghost fs = fields_view(fields@);
    let n = fields.len();
    let mut rest = fields;
    let mut k: usize = 0;
    while k < n
        invariant
            n == fs.len(),
            k <= n,
            fields_view(rest@) == fs.subrange(k as int, n as int),
            sv == s@,
            sv.name == sname@,
            shared_local_struct_step(old(st)@, sv, shared) == then_filled(
                shared_local_fields_step(st@, fs, k as int, shared),
                n as int,
                shared,
                sv.name,
            ),
        decreases n - k,
    {
        let ghost r0 = rest@;
        assert(fields_view(r0).len() == r0.len());
        assert(fields_view(r0)[0] == fs[k as int]);
        let fd = rest.remove(0);
        assert(rest@ =~= r0.subrange(1, r0.len() as int));
        assert forall|j: int| 0 <= j < n - k - 1 implies #[trigger] fields_view(rest@)[j] == fs[k
            + 1 + j] by {
            assert(fields_view(rest@)[j] == rest@[j]@);
            assert(rest@[j] == r0[j + 1]);
            assert(fields_view(r0)[j + 1] == r0[j + 1]@);
        }
        assert(fields_view(rest@) =~= fs.subrange(k + 1, n as int));
        assert(fd@ == fs[k as int]);
        let ghost st0 = st@;
        match read_shared_local_field(st, fd, shared) {
            Err(e) => {
                assert(shared_local_fields_step(st0, fs, k as int, shared) == Err::<AppStateV, ErrV>(
                    e@,
                ));
                return Err(e);
            },
            Ok(()) => {
                assert(shared_local_fields_step(st0, fs, k as int, shared)
                    == shared_local_fields_step(st@, fs, k + 1, shared));
            },
        }
        k = k + 1;
    }
    if shared {
        st.shared_filled = st.shared_filled || n > 0;
        st.shared_name = Some(sname);
    } else {
        st.local_filled = st.local_filled || n > 0;
        st.local_name = Some(sname);
    }
    Ok(())
}

/// Reads the `struct` item `s` of the module
fn read_other_struct(st: &mut AppState, s: StructItem) -> (r: Result<(), Error>)
    ensures
        match r {
            Ok(()) => other_struct_step(old(st)@, s@) == Ok::<AppStateV, ErrV>(final(st)@),
            Err(e) => other_struct_step(old(st)@, s@) == Err::<AppStateV, ErrV>(e@),
        },
{
    if find_attr(&s.attrs, "shared").is_some() {
        read_shared_local_struct(st, s, true)
    } else if find_attr(&s.attrs, "local").is_some() {
        read_shared_local_struct(st, s, false)
    } else {
        read_actors_struct(st, s)
    }
}

/// Reads the field `fd` of the `#[actors]` struct
fn read_actor_field(st: &mut AppState, fd: Field) -> (r: Result<(), Error>)
    ensures
        match r {
            Ok(()) => actor_field_step(old(st)@, fd@) == Ok::<AppStateV, ErrV>(final(st)@),
            Err(e) => actor_field_step(old(st)@, fd@) == Err::<AppStateV, ErrV>(e@),
        },
{
    if has_key_in(&st.actors, &fd.name) {
        return Err(error_at(ErrorKind::ResourceListedMoreThanOnce, &fd.name));
    }
    let a = match Actor::parse(&fd) {
        Err(e) => return Err(e),
        Ok(a) => a,
    };
    push_entry(&mut st.actors, fd.name, a);
    Ok(())
}

/// Reads the `struct` item `s` of the module where it has `#[actors]`;
/// passes any other on
#[verifier::rlimit(60)]
fn read_actors_struct(st: &mut AppState, s: StructItem) -> (r: Result<(), Error>)
    ensures
        match r {
            Ok(()) => actors_struct_step(old(st)@, s@) == Ok::<AppStateV, ErrV>(final(st)@),
            Err(e) => actors_struct_step(old(st)@, s@) == Err::<AppStateV, ErrV>(e@),
        },
{
    if find_attr(&s.attrs, "actors").is_none() {
        return Ok(());
    }
    if st.actors.len() > 0 {
        return Err(error_at(ErrorKind::ActorsStructAtMostOnce, &s.name));
    }
    if !s.vis_inherited {
        return Err(error_at(ErrorKind::ItemVisibility, &s.name));
    }
    let ghost sv = s@;
    let sname = s.name.clone();
    let fields = match s.fields {
        None => return Err(error_at(ErrorKind::StructNamedFields, &s.name)),
        Some(fs) => fs,
    };
    let ghost fs = fields_view(fields@);
    let n = fields.len();
    let mut rest = fields;
    let mut k: usize = 0;
    while k < n
        invariant
            n == fs.len(),
            k <= n,
            fields_view(rest@) == fs.subrange(k as int, n as int),
            sv == s@,
            sv.name == sname@,
            actors_struct_step(old(st)@, sv) == then_named_actors(
                actor_fields_step(st@, fs, k as int),
                sv.name,
            ),
        decreases n - k,
    {
        let ghost r0 = rest@;
        assert(fields_view(r0).len() == r0.len());
        assert(fields_view(r0)[0] == fs[k as int]);
        let fd = rest.remove(0);
        assert(rest@ =~= r0.subrange(1, r0.len() as int));
        assert forall|j: int| 0 <= j < n - k - 1 implies #[trigger] fields_view(rest@)[j] == fs[k
            + 1 + j] by {
            assert(fields_view(rest@)[j] == rest@[j]@);
            assert(rest@[j] == r0[j + 1]);
            assert(fields_view(r0)[j + 1] == r0[j + 1]@);
        }
        assert(fields_view(rest@) =~= fs.subrange(k + 1, n as int));
        assert(fd@ == fs[k as int]);
        let ghost st0 = st@;
        match read_actor_field(st, fd) {
            Err(e) => {
                assert(actor_fields_step(st0, fs, k as int) == Err::<AppStateV, ErrV>(e@));
                return Err(e);
            },
            Ok(()) => {
                assert(actor_fields_step(st0, fs, k as int) == actor_fields_step(st@, fs, k + 1));
            },
        }
        k = k + 1;
    }
    st.actors_name = Some(sname);
    Ok(())
}

/// Reads the `struct` item `s` of the module
fn read_struct_item(st: &mut AppState, s: StructItem) -> (r: Result<(), Error>)
    ensures
        match r {
            Ok(()) => struct_step(old(st)@, s@) == Ok::<AppStateV, ErrV>(final(st)@),
            Err(e) => struct_step(old(st)@, s@) == Err::<AppStateV, ErrV>(e@),
        },
{
    read_other_struct(st, s)
}

/// Reads one item of an `extern` block: a task where `rust`, else an interrupt
fn read_extern_item(settings: &Settings, st: &mut AppState, it: Item, rust: bool) -> (r: Result<
    (),
    Error,
>)
    ensures
        match r {
            Ok(()) => (if rust {
                extern_task_step(*settings, old(st)@, plain_item_view(it))
            } else {
                interrupt_step(old(st)@, plain_item_view(it))
            }) == Ok::<AppStateV, ErrV>(final(st)@),
            Err(e) => (if rust {
                extern_task_step(*settings, old(st)@, plain_item_view(it))
            } else {
                interrupt_step(old(st)@, plain_item_view(it))
            }) == Err::<AppStateV, ErrV>(e@),
        },
{
    match it {
        Item::Fn(f) => {
            if f.body.is_some() {
                return Err(error_here(ErrorKind::ItemOutsideApp));
            }
            if rust {
                match find_attr(&f.attrs, "task") {
                    None => Err(error_at(ErrorKind::ExternTaskAttribute, &f.name)),
                    Some(p) => read_task(settings, st, f, p, true),
                }
            } else {
                let name = f.name.clone();
                let x = match parse_interrupt(f) {
                    Err(e) => return Err(e),
                    Ok(x) => x,
                };
                if has_interrupt(&st.extern_interrupts, &name) {
                    return Err(error_at(ErrorKind::InterruptListedMoreThanOnce, &name));
                }
                let ghost xv = (name@, attrs_view(x.attrs@));
                st.extern_interrupts.push((name, x));
                assert(interrupts_view(st.extern_interrupts@) =~= interrupts_view(
                    old(st).extern_interrupts@,
                ).push(xv));
                Ok(())
            }
        },
        _ => Err(error_here(ErrorKind::ItemOutsideApp)),
    }
}

/// Is the ABI of an `extern` block Rust's?
pub fn abi_is_rust(abi: &Option<String>) -> (r: bool)
    ensures
        r == rust_abi(crate::parse::args::opt_str_view(*abi)),
{
    match abi {
        None => true,
        Some(a) => str_eq(a.as_str(), "\"Rust\""),
    }
}

/// Reads an `extern` block of the module
#[verifier::rlimit(60)]
fn read_extern_block(settings: &Settings, st: &mut AppState, abi: Option<String>, items: Vec<Item>) -> (r: Result<
    (),
    Error,
>)
    ensures
        match r {
            Ok(()) => extern_step(
                *settings,
                old(st)@,
                crate::parse::args::opt_str_view(abi),
                plain_items_view(items@),
            ) == Ok::<AppStateV, ErrV>(final(st)@),
            Err(e) => extern_step(
                *settings,
                old(st)@,
                crate::parse::args::opt_str_view(abi),
                plain_items_view(items@),
            ) == Err::<AppStateV, ErrV>(e@),
        },
{
    let ghost abiv = crate::parse::args::opt_str_view(abi);
    let rust = abi_is_rust(&abi);
    if !rust {
        return Err(error_here(ErrorKind::ExternBlockAbi));
    }
    let ghost iv = plain_items_view(items@);
    let n = items.len();
    let mut rest = items;
    let mut k: usize = 0;
    while k < n
        invariant
            n == iv.len(),
            k <= n,
            rest@.len() == n - k,
            forall|j: int| 0 <= j < n - k ==> plain_item_view(#[trigger] rest@[j]) == iv[k + j],
            iv == plain_items_view(items@),
            abiv == crate::parse::args::opt_str_view(abi),
            extern_step(*settings, old(st)@, abiv, iv) == extern_from(
                *settings,
                st@,
                iv,
                k as int,
                rust,
            ),
        decreases n - k,
    {
        let ghost r0 = rest@;
        assert(plain_item_view(r0[0]) == iv[k as int]);
        let it = rest.remove(0);
        assert(rest@ =~= r0.subrange(1, r0.len() as int));
        assert forall|j: int| 0 <= j < n - k - 1 implies plain_item_view(#[trigger] rest@[j])
            == iv[k + 1 + j] by {
            assert(rest@[j] == r0[j + 1]);
        }
        assert(plain_item_view(it) == iv[k as int]);
        let ghost st0 = st@;
        match read_extern_item(settings, st, it, rust) {
            Err(e) => {
                assert(extern_from(*settings, st0, iv, k as int, rust) == Err::<AppStateV, ErrV>(
                    e@,
                ));
                return Err(e);
            },
            Ok(()) => {
                assert(extern_from(*settings, st0, iv, k as int, rust) == extern_from(
                    *settings,
                    st@,
                    iv,
                    k + 1,
                    rust,
                ));
            },
        }
        k = k + 1;
    }
    Ok(())
}

/// The timer declared by `t`, whose `#[monotonic]` attribute stands at
/// `p`, with arguments `a`
pub open spec fn timer_of(t: TypeItemV, p: int, a: crate::ast::MonotonicArgsV) -> Result<MonotonicV, ErrV> {
    if keep_cfgs(t.attrs.remove(p), false).len() > 0 {
        Err((ErrorKind::MonotonicAttributes, Seq::empty()))
    } else {
        Ok(MonotonicV { cfgs: keep_cfgs(t.attrs.remove(p), true), ident: t.name, ty: t.ty, args: a })
    }
}

/// Law: a monotonic timer is read where every attribute of its `type` item
/// other than its `#[monotonic]` is a `#[cfg]`; it keeps those `#[cfg]`s,
/// in order, with the item's name and type and the arguments
pub proof fn law_timer_attrs(t: TypeItemV, p: int, a: crate::ast::MonotonicArgsV)
    ensures
        timer_of(t, p, a) is Ok <==> t.attrs.remove(p).filter(non_cfg_filter()).len() == 0,
        timer_of(t, p, a) matches Ok(m) ==> m.cfgs == t.attrs.remove(p).filter(cfg_filter())
            && m.ident == t.name && m.ty == t.ty && m.args == a,
{
    lemma_keep_cfgs_filter(t.attrs.remove(p));
}

fn read_timer(t: TypeItem, p: usize, a: crate::ast::MonotonicArgs) -> (r: Result<Monotonic, Error>)
    requires
        p < t.attrs@.len(),
    ensures
        res_view(r) == timer_of(t@, p as int, a@),
{
    let TypeItem { attrs, vis_inherited, name, ty } = t;
    let mut attrs = attrs;
    let ghost before = attrs@;
    attrs.remove(p);
    assert(attrs_view(attrs@) =~= attrs_view(before).remove(p as int));
    let (cfgs, others) = extract_cfgs(attrs);
    if others.len() > 0 {
        return Err(error_here(ErrorKind::MonotonicAttributes));
    }
    Ok(Monotonic { cfgs, ident: name, ty, args: a })
}

/// Reads the `type` item `t` of the module
#[verifier::rlimit(60)]
fn read_type_item(st: &mut AppState, t: TypeItem) -> (r: Result<(), Error>)
    ensures
        match r {
            Ok(()) => type_step(old(st)@, t@) == Ok::<AppStateV, ErrV>(final(st)@),
            Err(e) => type_step(old(st)@, t@) == Err::<AppStateV, ErrV>(e@),
        },
{
    let p = match find_attr(&t.attrs, "monotonic") {
        None => return Ok(()),
        Some(p) => p,
    };
    if has_key_in(&st.monotonics, &t.name) {
        return Err(error_at(ErrorKind::MonotonicAtMostOnce, &t.name));
    }
    if !t.vis_inherited {
        return Err(error_at(ErrorKind::ItemVisibility, &t.name));
    }
    let ty2 = unspace_toks(&t.ty);
    if has_tokens(&st.monotonic_types, &ty2) {
        return Err(error_here(ErrorKind::MonotonicTypeAlreadyUsed));
    }
    assert(t@.attrs[p as int] == t.attrs@[p as int]@);
    let a = match monotonic_args(&t.attrs[p].tokens) {
        Err(e) => return Err(e),
        Ok(a) => a,
    };
    if has_string(&st.bindings, &a.binds) {
        return Err(error_at(ErrorKind::InterruptAlreadyBound, &a.binds));
    }
    let ghost tv0 = t@;
    let binds = a.binds.clone();
    let name = t.name.clone();
    let m = match read_timer(t, p, a) {
        Err(e) => return Err(e),
        Ok(m) => m,
    };
    push_entry(&mut st.monotonics, name, m);
    push_name(&mut st.bindings, binds);
    let ghost types0 = st.monotonic_types@;
    st.monotonic_types.push(ty2);
    assert(toks_seq_view(st.monotonic_types@) =~= toks_seq_view(types0).push(unspaced_seq(tv0.ty)));
    Ok(())
}

/// The application that the state `st` describes
pub open spec fn app_of(args: crate::ast::AppArgsV, name: Seq<char>, st: AppStateV) -> crate::ast::AppV {
    crate::ast::AppV {
        args,
        name,
        inits: match st.init {
            Some(i) => seq![
                (
                    0u8,
                    InitV { returns_late_resources: st.late_resources.len() > 0, ..i },
                ),
            ],
            None => seq![],
        },
        idles: match st.idle {
            Some(i) => seq![(0u8, i)],
            None => seq![],
        },
        late_resources: st.late_resources,
        shared_resources: st.shared_resources,
        local_resources: st.local_resources,
        resources: st.resources,
        hardware_tasks: st.hardware_tasks,
        software_tasks: st.software_tasks,
        extern_interrupts: st.extern_interrupts,
        monotonics: st.monotonics,
        actors: st.actors,
        user_imports: st.user_imports,
        user_code: st.user_code,
    }
}

/// What is wrong, if anything, with the whole of what the items gave: the
/// `#[shared]` struct, the `#[local]` struct and `init` must be there, and
/// `init` must return the `#[shared]`, `#[local]` and `#[actors]` structs by
/// their names (the last where, and only where, there is one)
pub open spec fn app_checks(st: AppStateV) -> Option<ErrV> {
    match (st.shared_name, st.local_name, st.init) {
        (None, _, _) => Some((ErrorKind::NoSharedStruct, Seq::empty())),
        (_, None, _) => Some((ErrorKind::NoLocalStruct, Seq::empty())),
        (_, _, None) => Some((ErrorKind::NoInit, Seq::empty())),
        (Some(sh), Some(lo), Some(i)) => if sh != i.user_shared_struct {
            Some((ErrorKind::SharedNameMismatch, sh))
        } else if lo != i.user_local_struct {
            Some((ErrorKind::LocalNameMismatch, lo))
        } else {
            match (st.actors_name, i.user_actors_struct) {
                (None, None) => None,
                (None, Some(b)) => Some((ErrorKind::ActorsStructMissing, b)),
                (Some(a), None) => Some((ErrorKind::ActorsNotReturned, a)),
                (Some(a), Some(b)) => if a != b {
                    Some((ErrorKind::ActorsNameMismatch, a))
                } else {
                    None
                },
            }
        },
    }
}

/// The application named `name`, with arguments `args`, whose module holds
/// `items`, whose tokens are `texts`
pub open spec fn app_spec(
    settings: Settings,
    args: crate::ast::AppArgsV,
    name: Seq<char>,
    items: Seq<ItemV>,
    texts: Seq<Seq<TokV>>,
) -> Result<crate::ast::AppV, ErrV> {
    match items_step(settings, empty_state(), items, texts, 0) {
        Err(e) => Err(e),
        Ok(st) => match app_checks(st) {
            Some(e) => Err(e),
            None => Ok(app_of(args, name, st)),
        },
    }
}

/// Checks the whole of what the items gave (see `app_checks`)
fn check_app_state(st: &AppState) -> (r: Option<Error>)
    ensures
        match r {
            Some(e) => app_checks(st@) == Some(e@),
            None => app_checks(st@) is None,
        },
{
    let sh = match &st.shared_name {
        None => return Some(error_here(ErrorKind::NoSharedStruct)),
        Some(x) => x,
    };
    let lo = match &st.local_name {
        None => return Some(error_here(ErrorKind::NoLocalStruct)),
        Some(x) => x,
    };
    let i = match &st.init {
        None => return Some(error_here(ErrorKind::NoInit)),
        Some(i) => i,
    };
    if !str_eq(sh.as_str(), i.user_shared_struct.as_str()) {
        return Some(error_at(ErrorKind::SharedNameMismatch, sh));
    }
    if !str_eq(lo.as_str(), i.user_local_struct.as_str()) {
        return Some(error_at(ErrorKind::LocalNameMismatch, lo));
    }
    match (&st.actors_name, &i.user_actors_struct) {
        (None, None) => None,
        (None, Some(b)) => Some(error_at(ErrorKind::ActorsStructMissing, b)),
        (Some(a), None) => Some(error_at(ErrorKind::ActorsNotReturned, a)),
        (Some(a), Some(b)) => if !str_eq(a.as_str(), b.as_str()) {
            Some(error_at(ErrorKind::ActorsNameMismatch, a))
        } else {
            None
        },
    }
}

/// Reads one item of the module
#[verifier::rlimit(60)]
fn read_item_of_app(settings: &Settings, st: &mut AppState, it: Item) -> (r: Result<(), Error>)
    ensures
        match r {
            Ok(()) => item_step(*settings, old(st)@, it@) == Ok::<AppStateV, ErrV>(final(st)@),
            Err(e) => item_step(*settings, old(st)@, it@) == Err::<AppStateV, ErrV>(e@),
        },
{
    match it {
        Item::Fn(f) => if f.body.is_some() {
            read_fn_item(settings, st, f)
        } else {
            Ok(())
        },
        Item::Struct(s) => read_struct_item(st, s),
        Item::ForeignMod(abi, items) => {
            read_extern_block(settings, st, abi, items)
        },
        Item::Type(t) => read_type_item(st, t),
        Item::Other => Ok(()),
    }
}

/// Whether the item is the user's own (see `passed_on`)
fn passes_on(it: &Item) -> (r: bool)
    ensures
        r == passed_on(it@),
{
    match it {
        Item::Fn(f) => f.body.is_none() || (find_attr(&f.attrs, "init").is_none() && find_attr(
            &f.attrs,
            "idle",
        ).is_none() && find_attr(&f.attrs, "task").is_none()),
        Item::Struct(s) => find_attr(&s.attrs, "shared").is_none() && find_attr(&s.attrs, "local").is_none()
            && find_attr(&s.attrs, "actors").is_none(),
        Item::ForeignMod(_, _) => false,
        Item::Type(_) => true,
        Item::Other => true,
    }
}

/// Reads the items of the module, whose tokens are `texts`, into an
/// application
pub fn parse_app(
    settings: &Settings,
    args: crate::ast::AppArgs,
    name: String,
    items: Vec<Item>,
    texts: &Vec<Tokens>,
) -> (r: Result<crate::ast::App, Error>)
    requires
        texts@.len() == items@.len(),
    ensures
        res_view(r) == app_spec(
            *settings,
            args@,
            name@,
            crate::parse::item::items_view(items@),
            toks_seq_view(texts@),
        ),
{
    let ghost iv = crate::parse::item::items_view(items@);
    let ghost tx = toks_seq_view(texts@);
    let mut st = AppState {
        init: None,
        idle: None,
        shared_filled: false,
        local_filled: false,
        shared_name: None,
        local_name: None,
        actors_name: None,
        late_resources: Vec::new(),
        shared_resources: Vec::new(),
        local_resources: Vec::new(),
        resources: Vec::new(),
        hardware_tasks: Vec::new(),
        software_tasks: Vec::new(),
        extern_interrupts: Vec::new(),
        monotonics: Vec::new(),
        actors: Vec::new(),
        idents: Vec::new(),
        bindings: Vec::new(),
        monotonic_types: Vec::new(),
        user_imports: Vec::new(),
        user_code: Vec::new(),
    };
    assert(st@ =~= empty_state()) by {
        assert(map_view(st.late_resources@) =~= seq![]);
        assert(map_view(st.shared_resources@) =~= seq![]);
        assert(map_view(st.local_resources@) =~= seq![]);
        assert(map_view(st.resources@) =~= seq![]);
        assert(map_view(st.hardware_tasks@) =~= seq![]);
        assert(map_view(st.software_tasks@) =~= seq![]);
        assert(interrupts_view(st.extern_interrupts@) =~= seq![]);
        assert(map_view(st.monotonics@) =~= seq![]);
        assert(map_view(st.actors@) =~= seq![]);
        assert(names_view(st.idents@) =~= seq![]);
        assert(names_view(st.bindings@) =~= seq![]);
        assert(toks_seq_view(st.monotonic_types@) =~= seq![]);
        assert(toks_seq_view(st.user_imports@) =~= seq![]);
        assert(toks_seq_view(st.user_code@) =~= seq![]);
    }
    let n = items.len();
    let mut rest = items;
    let mut k: usize = 0;
    while k < n
        invariant
            n == iv.len(),
            k <= n,
            rest@.len() == n - k,
            forall|j: int| 0 <= j < n - k ==> (#[trigger] rest@[j])@ == iv[k + j],
            iv == crate::parse::item::items_view(items@),
            tx == toks_seq_view(texts@),
            tx.len() == n,
            items_step(*settings, empty_state(), iv, tx, 0) == items_step(*settings, st@, iv, tx, k as int),
        decreases n - k,
    {
        let ghost r0 = rest@;
        assert(r0[0]@ == iv[k as int]);
        let it = rest.remove(0);
        assert(rest@ =~= r0.subrange(1, r0.len() as int));
        assert forall|j: int| 0 <= j < n - k - 1 implies (#[trigger] rest@[j])@ == iv[k + 1 + j] by {
            assert(rest@[j] == r0[j + 1]);
        }
        let ghost st0 = st@;
        let pass = passes_on(&it);
        let other = match &it {
            Item::Other => true,
            _ => false,
        };
        match read_item_of_app(settings, &mut st, it) {
            Err(e) => {
                assert(items_step(*settings, st0, iv, tx, k as int) == Err::<AppStateV, ErrV>(e@));
                return Err(e);
            },
            Ok(()) => {},
        }
        let ghost st1 = st@;
        let t = copy_toks(&texts[k]);
        assert(tx[k as int] == tv(t@));
        if pass {
            if other && crate::parse::item::read_is_use(&t) {
                let ghost before = st.user_imports@;
                st.user_imports.push(t);
                assert(toks_seq_view(st.user_imports@) =~= toks_seq_view(before).push(tx[k as int]));
            } else {
                let ghost before = st.user_code@;
                st.user_code.push(t);
                assert(toks_seq_view(st.user_code@) =~= toks_seq_view(before).push(tx[k as int]));
            }
        }
        assert(st@ == user_step(st1, iv[k as int], tx[k as int]));
        assert(items_step(*settings, st0, iv, tx, k as int) == items_step(*settings, st@, iv, tx, k + 1));
        k = k + 1;
    }
    let ghost stv = st@;
    match check_app_state(&st) {
        Some(e) => return Err(e),
        None => {},
    }
    let AppState {
        init,
        idle,
        late_resources,
        shared_resources,
        local_resources,
        resources,
        hardware_tasks,
        software_tasks,
        extern_interrupts,
        monotonics,
        actors,
        user_imports,
        user_code,
        ..
    } = st;
    let mut inits: Vec<(u8, Init)> = Vec::new();
    match init {
        Some(i) => {
            let mut i = i;
            i.returns_late_resources = late_resources.len() > 0;
            inits.push((0, i));
        },
        None => {},
    }
    let mut idles: Vec<(u8, Idle)> = Vec::new();
    match idle {
        Some(i) => idles.push((0, i)),
        None => {},
    }
    let app = crate::ast::App {
        args,
        name,
        inits,
        idles,
        late_resources,
        shared_resources,
        local_resources,
        resources,
        hardware_tasks,
        software_tasks,
        extern_interrupts,
        monotonics,
        actors,
        user_imports,
        user_code,
    };
    assert(app@.inits =~= app_of(args@, name@, stv).inits);
    assert(app@.idles =~= app_of(args@, name@, stv).idles);
    Ok(app)
}

// ---- names stay distinct ----

/// No two entries share a name
pub open spec fn distinct_names<T>(m: Seq<(Seq<char>, T)>) -> bool {
    forall|i: int, j: int| 0 <= i < j < m.len() ==> m[i].0 != m[j].0
}

/// The names of each kind of entry are distinct
pub open spec fn state_wf(st: AppStateV) -> bool {
    &&& distinct_names(st.late_resources)
    &&& distinct_names(st.resources)
    &&& distinct_names(st.hardware_tasks)
    &&& distinct_names(st.software_tasks)
    &&& distinct_names(st.extern_interrupts)
    &&& distinct_names(st.monotonics)
    &&& distinct_names(st.actors)
    &&& distinct_names(st.shared_resources)
    &&& distinct_names(st.local_resources)
    &&& late_split(st.late_resources, entry_names(st.shared_resources), entry_names(st.local_resources))
}

/// The late resources are the shared ones and the local ones, by name
pub open spec fn late_split<T>(late: Seq<(Seq<char>, T)>, shared: Seq<Seq<char>>, local: Seq<Seq<char>>) -> bool {
    forall|n: Seq<char>|
        #![trigger entry_names(late).contains(n)]
        #![trigger shared.contains(n)]
        #![trigger local.contains(n)]
        entry_names(late).contains(n) <==> (shared.contains(n) || local.contains(n))
}

proof fn lemma_push_split<T>(
    late: Seq<(Seq<char>, T)>,
    shared: Seq<Seq<char>>,
    local: Seq<Seq<char>>,
    e: (Seq<char>, T),
)
    requires
        late_split(late, shared, local),
    ensures
        late_split(late_with(late, e.0, e.1), shared.push(e.0), local),
        late_split(late_with(late, e.0, e.1), shared, local.push(e.0)),
{
    let l2 = late_with(late, e.0, e.1);
    assert forall|n: Seq<char>| entry_names(l2).contains(n) <==> (entry_names(late).contains(n)
        || n == e.0) by {
        if !entry_names(late).contains(e.0) {
            assert(entry_names(l2) =~= entry_names(late).push(e.0));
            if entry_names(late).push(e.0).contains(n) && n != e.0 {
                let k = choose|k: int| 0 <= k < entry_names(late).push(e.0).len() && entry_names(late).push(e.0)[k] == n;
                assert(entry_names(late)[k] == n);
            }
            if entry_names(late).contains(n) {
                let k = choose|k: int| 0 <= k < entry_names(late).len() && entry_names(late)[k] == n;
                assert(entry_names(late).push(e.0)[k] == n);
            }
            if n == e.0 {
                assert(entry_names(late).push(e.0)[entry_names(late).len() as int] == n);
            }
        }
    }
    assert forall|n: Seq<char>| shared.push(e.0).contains(n) <==> (shared.contains(n) || n == e.0) by {
        if shared.push(e.0).contains(n) && n != e.0 {
            let k = choose|k: int| 0 <= k < shared.push(e.0).len() && shared.push(e.0)[k] == n;
            assert(shared[k] == n);
        }
        if shared.contains(n) {
            let k = choose|k: int| 0 <= k < shared.len() && shared[k] == n;
            assert(shared.push(e.0)[k] == n);
        }
        if n == e.0 {
            assert(shared.push(e.0)[shared.len() as int] == n);
        }
    }
    assert forall|n: Seq<char>| local.push(e.0).contains(n) <==> (local.contains(n) || n == e.0) by {
        if local.push(e.0).contains(n) && n != e.0 {
            let k = choose|k: int| 0 <= k < local.push(e.0).len() && local.push(e.0)[k] == n;
            assert(local[k] == n);
        }
        if local.contains(n) {
            let k = choose|k: int| 0 <= k < local.len() && local[k] == n;
            assert(local.push(e.0)[k] == n);
        }
        if n == e.0 {
            assert(local.push(e.0)[local.len() as int] == n);
        }
    }
    let sh2 = shared.push(e.0);
    assert forall|n: Seq<char>| entry_names(l2).contains(n) <==> (sh2.contains(n) || local.contains(n)) by {
        assert(entry_names(l2).contains(n) <==> (entry_names(late).contains(n) || n == e.0));
        assert(shared.push(e.0).contains(n) <==> (shared.contains(n) || n == e.0));
        assert(entry_names(late).contains(n) <==> (shared.contains(n) || local.contains(n)));
    }
    assert(late_split(l2, sh2, local));
    let lo2 = local.push(e.0);
    assert forall|n: Seq<char>| entry_names(l2).contains(n) <==> (shared.contains(n) || lo2.contains(n)) by {
        assert(entry_names(l2).contains(n) <==> (entry_names(late).contains(n) || n == e.0));
        assert(local.push(e.0).contains(n) <==> (local.contains(n) || n == e.0));
        assert(entry_names(late).contains(n) <==> (shared.contains(n) || local.contains(n)));
    }
    assert(late_split(l2, shared, lo2));
}

proof fn lemma_push_distinct<T>(m: Seq<(Seq<char>, T)>, e: (Seq<char>, T))
    requires
        distinct_names(m),
        !entry_names(m).contains(e.0),
    ensures
        distinct_names(m.push(e)),
{
    assert forall|i: int, j: int| 0 <= i < j < m.push(e).len() implies m.push(e)[i].0 != m.push(
        e,
    )[j].0 by {
        if j == m.len() {
            assert(entry_names(m)[i] == m[i].0);
        }
    }
}

proof fn lemma_task_step_wf(settings: Settings, st: AppStateV, f: FnItemV, p: int, foreign: bool)
    requires
        state_wf(st),
    ensures
        task_step(settings, st, f, p, foreign) matches Ok(st2) ==> state_wf(st2),
{
    if let Ok(st2) = task_step(settings, st, f, p, foreign) {
        let g = FnItemV { attrs: f.attrs.remove(p), ..f };
        match task_args_spec(f.attrs[p].tokens, settings.parse_binds) {
            Ok(TaskArgsV::Hardware(a)) => {
                let t = hardware_task_of(a, g)->Ok_0;
                lemma_push_distinct(st.hardware_tasks, (f.name, t));
            },
            Ok(TaskArgsV::Software(a)) => {
                let t = software_task_of(a, g)->Ok_0;
                lemma_push_distinct(st.software_tasks, (f.name, t));
            },
            _ => {},
        }
    }
}

proof fn lemma_init_step_wf(st: AppStateV, f: FnItemV, p: int)
    requires
        state_wf(st),
    ensures
        init_step(st, f, p) matches Ok(st2) ==> state_wf(st2),
{
    if let Ok(st2) = init_step(st, f, p) {
        assert(st2.late_resources == st.late_resources && st2.resources == st.resources
            && st2.hardware_tasks == st.hardware_tasks && st2.software_tasks == st.software_tasks
            && st2.extern_interrupts == st.extern_interrupts && st2.monotonics == st.monotonics
            && st2.shared_resources == st.shared_resources && st2.local_resources == st.local_resources);
    }
}

proof fn lemma_idle_step_wf(st: AppStateV, f: FnItemV, p: int)
    requires
        state_wf(st),
    ensures
        idle_step(st, f, p) matches Ok(st2) ==> state_wf(st2),
{
    if let Ok(st2) = idle_step(st, f, p) {
        assert(st2.late_resources == st.late_resources && st2.resources == st.resources
            && st2.hardware_tasks == st.hardware_tasks && st2.software_tasks == st.software_tasks
            && st2.extern_interrupts == st.extern_interrupts && st2.monotonics == st.monotonics
            && st2.shared_resources == st.shared_resources && st2.local_resources == st.local_resources);
    }
}

proof fn lemma_fn_step_wf(settings: Settings, st: AppStateV, f: FnItemV)
    requires
        state_wf(st),
    ensures
        fn_step(settings, st, f) matches Ok(st2) ==> state_wf(st2),
{
    match attr_pos(f.attrs, "init"@) {
        Some(p) => lemma_init_step_wf(st, f, p),
        None => match attr_pos(f.attrs, "idle"@) {
            Some(p) => lemma_idle_step_wf(st, f, p),
            None => {
                if let Some(p) = attr_pos(f.attrs, "task"@) {
                    lemma_task_step_wf(settings, st, f, p, false);
                }
            },
        },
    }
}

proof fn lemma_shared_local_fields_step_wf(st: AppStateV, fs: Seq<FieldV>, k: int, shared: bool)
    requires
        state_wf(st),
    ensures
        shared_local_fields_step(st, fs, k, shared) matches Ok(st2) ==> state_wf(st2),
    decreases fs.len() - k,
{
    if 0 <= k < fs.len() {
        if let Ok(st1) = shared_local_field_step(st, fs[k], shared) {
            let e = (fs[k].name, shared_local_of(fs[k], shared)->Ok_0);
            if !entry_names(st.late_resources).contains(e.0) {
                lemma_push_distinct(st.late_resources, e);
            }
            if shared {
                lemma_push_distinct(st.shared_resources, e);
                assert(entry_names(st.shared_resources.push(e)) =~= entry_names(st.shared_resources).push(e.0));
            } else {
                lemma_push_distinct(st.local_resources, e);
                assert(entry_names(st.local_resources.push(e)) =~= entry_names(st.local_resources).push(e.0));
            }
            lemma_push_split(
                st.late_resources,
                entry_names(st.shared_resources),
                entry_names(st.local_resources),
                e,
            );
            lemma_shared_local_fields_step_wf(st1, fs, k + 1, shared);
        }
    }
}

proof fn lemma_actor_fields_step_wf(st: AppStateV, fs: Seq<FieldV>, k: int)
    requires
        state_wf(st),
    ensures
        actor_fields_step(st, fs, k) matches Ok(st2) ==> state_wf(st2),
    decreases fs.len() - k,
{
    if 0 <= k < fs.len() {
        if let Ok(st1) = actor_field_step(st, fs[k]) {
            lemma_push_distinct(st.actors, (fs[k].name, actor_of(fs[k])->Ok_0));
            lemma_actor_fields_step_wf(st1, fs, k + 1);
        }
    }
}

proof fn lemma_extern_from_wf(settings: Settings, st: AppStateV, items: Seq<ItemV>, k: int, rust: bool)
    requires
        state_wf(st),
    ensures
        extern_from(settings, st, items, k, rust) matches Ok(st2) ==> state_wf(st2),
    decreases items.len() - k,
{
    if 0 <= k < items.len() {
        let r = if rust {
            extern_task_step(settings, st, items[k])
        } else {
            interrupt_step(st, items[k])
        };
        if let Ok(st1) = r {
            if let ItemV::Fn(f) = items[k] {
                if rust {
                    if let Some(p) = attr_pos(f.attrs, "task"@) {
                        lemma_task_step_wf(settings, st, f, p, true);
                    }
                } else {
                    lemma_push_distinct(st.extern_interrupts, (f.name, interrupt_of(f)->Ok_0));
                }
            }
            lemma_extern_from_wf(settings, st1, items, k + 1, rust);
        }
    }
}

proof fn lemma_item_step_wf(settings: Settings, st: AppStateV, it: ItemV)
    requires
        state_wf(st),
    ensures
        item_step(settings, st, it) matches Ok(st2) ==> state_wf(st2),
{
    match it {
        ItemV::Fn(f) => {
            lemma_fn_step_wf(settings, st, f);
        },
        ItemV::Struct(s) => {
            if s.fields is Some {
                lemma_actor_fields_step_wf(st, s.fields->Some_0, 0);
                lemma_shared_local_fields_step_wf(st, s.fields->Some_0, 0, true);
                lemma_shared_local_fields_step_wf(st, s.fields->Some_0, 0, false);
            }
        },
        ItemV::ForeignMod(abi, items) => {
            lemma_extern_from_wf(settings, st, items, 0, true);
            lemma_extern_from_wf(settings, st, items, 0, false);
        },
        ItemV::Type(t) => {
            if let Some(p) = attr_pos(t.attrs, "monotonic"@) {
                if let Ok(a) = monotonic_args_spec(t.attrs[p].tokens) {
                    if let Ok(m) = timer_of(t, p, a) {
                        if !entry_names(st.monotonics).contains(t.name) {
                            lemma_push_distinct(st.monotonics, (t.name, m));
                        }
                    }
                }
            }
        },
        ItemV::Other => {},
    }
}

/// Reading the items of the module keeps the names of resources, of tasks,
/// of extern interrupts, of monotonic timers and of actors distinct, kind by
/// kind, and keeps the late resources those of the `#[shared]` struct and
/// those of the `#[local]` struct
pub proof fn law_items_distinct(
    settings: Settings,
    st: AppStateV,
    items: Seq<ItemV>,
    texts: Seq<Seq<TokV>>,
    k: int,
)
    requires
        state_wf(st),
    ensures
        items_step(settings, st, items, texts, k) matches Ok(st2) ==> state_wf(st2),
    decreases items.len() - k,
{
    if 0 <= k < items.len() {
        lemma_item_step_wf(settings, st, items[k]);
        if let Ok(st1) = item_step(settings, st, items[k]) {
            law_items_distinct(settings, user_step(st1, items[k], texts[k]), items, texts, k + 1);
        }
    }
}

} // verus!
