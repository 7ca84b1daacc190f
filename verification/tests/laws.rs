use rtic_syntax::analyze::{Analysis, Location, Ownership};
use rtic_syntax::ast::{Access, App};
use rtic_syntax::error::Error;
use rtic_syntax::{parse2, Context, Settings, P};

fn stream(s: &str) -> proc_macro2::TokenStream {
    s.parse().unwrap()
}

/// The module's body, with an empty `#[shared]` or `#[local]` struct and a
/// plain `init` added where the body has none
fn complete(body: &str) -> String {
    let mut s = body.to_string();
    if !body.contains("#[shared]") {
        s.push_str(" #[shared] struct Shared {}");
    }
    if !body.contains("#[local]") {
        s.push_str(" #[local] struct Local {}");
    }
    if !body.contains("#[init") {
        s.push_str(" #[init] fn init(_: init::Context) -> (Shared, Local, init::Monotonics) {}");
    }
    s
}

fn run(body: &str, settings: Settings) -> Result<(P<App>, P<Analysis>), Error> {
    parse2(stream(""), stream(&format!("mod app {{ {} }}", complete(body))), settings)
}

fn compressing() -> Settings {
    Settings { parse_binds: true, parse_extern_interrupt: false, optimize_priorities: true }
}

#[test]
fn single_accessor_owns_resource() {
    let (_, analysis) = run("
        #[local]
        struct Local { x: u32 }
        #[task(priority = 3, local = [x])]
        fn a(_: a::Context) {}
    ", Settings::default()).unwrap();
    let an = analysis.get();
    assert_eq!(an.ownerships.len(), 1);
    assert_eq!(an.ownerships.get_index(0).unwrap().0, "x");
    assert_eq!(an.ownerships[0], Ownership::Owned { priority: 3 });
    assert_eq!(an.locations.get_index(0), Some((&"x".to_string(), &Location::Owned)));
    assert!(an.ownerships[0].is_owned());
    assert!(!an.ownerships[0].needs_lock(3));
}

#[test]
fn contended_ceiling_is_highest_priority() {
    let (_, analysis) = run("
        #[shared]
        struct Shared { x: u32 }
        #[task(priority = 2, shared = [x])]
        fn a(_: a::Context) {}
        #[task(priority = 5, resources = [x])]
        fn b(_: b::Context) {}
        #[task(priority = 4, resources = [&x])]
        fn c(_: c::Context) {}
    ", Settings::default()).unwrap();
    let o = analysis.get().ownerships[0];
    assert_eq!(o, Ownership::Contended { ceiling: 5 });
    assert!(!o.is_owned());
}

#[test]
fn needs_lock_only_below_ceiling_of_contended() {
    let contended = Ownership::Contended { ceiling: 3 };
    assert!(contended.needs_lock(1));
    assert!(contended.needs_lock(2));
    assert!(!contended.needs_lock(3));
    assert!(!Ownership::Owned { priority: 2 }.needs_lock(1));
    assert!(!Ownership::CoOwned { priority: 2 }.needs_lock(0));
    assert!(Ownership::Owned { priority: 2 }.is_owned());
    assert!(!Ownership::CoOwned { priority: 2 }.is_owned());
}

#[test]
fn shared_resource_at_two_priorities_is_sync_once() {
    let (_, analysis) = run("
        #[shared]
        struct Shared { x: u32, y: u32 }
        #[task(priority = 1, resources = [&x, &y])]
        fn a(_: a::Context) {}
        #[task(priority = 2, resources = [&x, &y])]
        fn b(_: b::Context) {}
    ", Settings::default()).unwrap();
    // both resources have type `u32`: the type is listed once
    assert_eq!(analysis.get().sync_types.len(), 1);
}

#[test]
fn compression_keeps_order_and_is_dense() {
    let (app, _) = run("
        #[task(priority = 9)]
        fn a(_: a::Context) {}
        #[task(priority = 200)]
        fn b(_: b::Context) {}
        #[task(priority = 9)]
        fn c(_: c::Context) {}
        #[task(binds = UART0, priority = 40)]
        fn d(_: d::Context) {}
    ", compressing()).unwrap();
    let app = app.get();
    let sw: Vec<u8> = app.software_tasks.iter().map(|t| t.1.args.priority).collect();
    assert_eq!(sw, vec![1, 3, 1]);
    assert_eq!(app.hardware_tasks[0].1.args.priority, 2);
}

#[test]
fn compression_keeps_resource_accesses() {
    let (app, _) = run("
        #[shared]
        struct Shared { x: u32 }
        #[task(priority = 7, shared = [&x])]
        fn a(_: a::Context) {}
        #[task(priority = 9)]
        fn b(_: b::Context) {}
    ", compressing()).unwrap();
    let app = app.get();
    let accesses = app.resource_accesses();
    assert_eq!(accesses.len(), 1);
    assert_eq!(accesses[0].0, 0);
    assert_eq!(accesses[0].1, Some(1));
    assert_eq!(accesses[0].2, "x");
    assert_eq!(accesses[0].3, Access::Shared);
    assert!(app.task_references().is_empty());
}

#[test]
fn parsed_names_are_distinct_and_in_order() {
    let (app, _) = run("
        #[shared]
        struct Shared { a: u8, c: u8 }
        #[local]
        struct Local { b: u8 }
        #[init]
        fn init(_: init::Context) -> (Shared, Local, init::Monotonics) {}
        #[task]
        fn t2(_: t2::Context) {}
        #[task]
        fn t1(_: t1::Context) {}
    ", Settings::default()).unwrap();
    let app = app.get();
    let late: Vec<&str> = app.late_resources.iter().map(|r| r.0.as_str()).collect();
    assert_eq!(late, vec!["a", "c", "b"]);
    assert_eq!(app.shared_resources.iter().map(|r| r.0.clone()).collect::<Vec<_>>(), vec!["a".to_string(), "c".to_string()]);
    assert_eq!(app.local_resources.iter().map(|r| r.0.clone()).collect::<Vec<_>>(), vec!["b".to_string()]);
    let sw: Vec<&str> = app.software_tasks.iter().map(|t| t.0.as_str()).collect();
    assert_eq!(sw, vec!["t2", "t1"]);
}

#[test]
fn access_kinds() {
    assert!(Access::Exclusive.is_exclusive());
    assert!(!Access::Exclusive.is_shared());
    assert!(Access::Shared.is_shared());
    assert!(!Access::Shared.is_exclusive());
}

#[test]
fn pointer_gives_back_its_value() {
    let p = P::new(42u8);
    assert_eq!(*p.get(), 42);
}

#[test]
fn default_settings_are_all_off() {
    let s = Settings::default();
    assert!(!s.parse_binds);
    assert!(!s.parse_extern_interrupt);
    assert!(!s.optimize_priorities);
}

#[test]
fn contexts() {
    let (app, _) = run("
        #[shared]
        struct Shared { x: u32 }
        #[idle(shared = [x])]
        fn idle(_: idle::Context) -> ! { static mut N: u8 = 0; loop {} }
        #[task(binds = UART0)]
        fn hw(_: hw::Context) {}
        #[task]
        fn sw(_: sw::Context) { static mut M: u8 = 0; }
    ", compressing()).unwrap();
    let app = app.get();
    let hw_name = "hw".to_string();
    let sw_name = "sw".to_string();
    let hw = Context::HardwareTask(&hw_name);
    let sw = Context::SoftwareTask(&sw_name);
    assert_eq!(Context::Init.ident(app), "init");
    assert_eq!(Context::Idle.ident(app), "idle");
    assert_eq!(hw.ident(app), "hw");
    assert!(Context::Init.is_init() && !Context::Init.is_idle());
    assert!(Context::Idle.is_idle() && !Context::Idle.is_init());
    assert!(Context::Init.runs_once() && Context::Idle.runs_once());
    assert!(!hw.runs_once() && !sw.runs_once());
    assert!(Context::Idle.has_locals(app));
    assert!(!Context::Init.has_locals(app));
    assert!(sw.has_locals(app));
    assert!(!hw.has_locals(app));
    assert!(Context::Idle.has_resources(app));
    assert!(!Context::Init.has_resources(app));
    assert!(!hw.has_resources(app));
    assert!(!sw.has_resources(app));
}

#[test]
fn late_resource_keeps_cfgs_and_attributes() {
    let (app, _) = run("
        #[shared]
        struct Shared { #[cfg(x)] #[link_section = \".s\"] r: u16 }
    ", Settings::default()).unwrap();
    let res = &app.get().late_resources[0].1;
    assert_eq!(res.cfgs.len(), 1);
    assert_eq!(res.attrs.len(), 1);
    assert!(matches!(&res.ty[..], [rtic_syntax::tokens::Tok::Ident(t)] if t == "u16"));
}

#[test]
fn path_of_one_segment() {
    let p = rtic_syntax::ast::mk_path("device");
    assert!(!p.leading_colon);
    assert_eq!(p.segments, vec!["device".to_string()]);
}

#[test]
fn ownership_map_keeps_order() {
    let v = vec![
        ("b".to_string(), Ownership::Owned { priority: 2 }),
        ("a".to_string(), Ownership::Contended { ceiling: 3 }),
    ];
    let m = rtic_syntax::names::ownership_map(&v);
    assert_eq!(m.len(), 2);
    assert_eq!(m.get_index(0), Some((&"b".to_string(), &Ownership::Owned { priority: 2 })));
    assert_eq!(m.get_index(1), Some((&"a".to_string(), &Ownership::Contended { ceiling: 3 })));
    let l = rtic_syntax::names::location_map(&vec![("x".to_string(), Location::Owned)]);
    assert_eq!(l.get_index(0), Some((&"x".to_string(), &Location::Owned)));
}
