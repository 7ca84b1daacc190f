use rtic_syntax::analyze::{Analysis, Ownership};
use rtic_syntax::ast::App;
use rtic_syntax::error::{Error, ErrorKind};
use rtic_syntax::stream::all_lits_known;
use rtic_syntax::tokens::{Delim, Tok};
use rtic_syntax::{parse2, Settings, P};

fn stream(s: &str) -> proc_macro2::TokenStream {
    s.parse().unwrap()
}

fn run(args: &str, body: &str, settings: Settings) -> Result<(P<App>, P<Analysis>), Error> {
    parse2(stream(args), stream(&format!("mod app {{ {} }}", body)), settings)
}

fn ok(body: &str) -> (P<App>, P<Analysis>) {
    run("", body, Settings::default()).unwrap()
}

fn err(body: &str) -> (ErrorKind, String) {
    let e = run("", body, Settings::default()).unwrap_err();
    (e.kind, e.at)
}

fn is_ident(ts: &[Tok], name: &str) -> bool {
    matches!(ts, [Tok::Ident(t)] if t == name)
}

const BASE: &str = "
    #[shared]
    struct Shared {}
    #[local]
    struct Local {}
    #[init]
    fn init(_: init::Context) -> (Shared, Local, init::Monotonics) {}
";

const LATE_X: &str = "
    #[shared]
    struct Shared { x: i32 }
    #[local]
    struct Local {}
    #[init]
    fn init(_: init::Context) -> (Shared, Local, init::Monotonics) {}
";

fn with_base(rest: &str) -> String {
    format!("{}\n{}", BASE, rest)
}

#[test]
fn software_task_without_resources() {
    let (app, analysis) = ok(&with_base("
        #[task]
        fn foo(_: foo::Context) {}
    "));
    let app = app.get();
    assert_eq!(app.name, "app");
    assert_eq!(app.inits.len(), 1);
    assert_eq!(app.software_tasks.len(), 1);
    assert_eq!(app.software_tasks[0].0, "foo");
    assert!(analysis.get().ownerships.is_empty());
    assert_eq!(analysis.get().channels.len(), 1);
}

#[test]
fn resource_contended() {
    let (_, analysis) = ok(&format!("{}
        #[task(shared = [x])]
        fn foo(_: foo::Context) {{}}
        #[task(priority = 2, shared = [x])]
        fn bar(_: bar::Context) {{}}
    ", LATE_X));
    let (res, ownership) = analysis.get().ownerships.get_index(0).unwrap();
    assert_eq!(res, "x");
    assert_eq!(*ownership, Ownership::Contended { ceiling: 2 });
    assert!(ownership.needs_lock(1));
    assert!(!ownership.needs_lock(2));
}

#[test]
fn late_resource_of_idle_is_not_send() {
    let (_, analysis) = ok(&format!("{}
        #[idle(shared = [x])]
        fn idle(_: idle::Context) -> ! {{ loop {{}} }}
    ", LATE_X));
    assert_eq!(analysis.get().ownerships[0], Ownership::Owned { priority: 0 });
    assert!(analysis.get().send_types.is_empty());
}

#[test]
fn message_type_is_send() {
    let (_, analysis) = ok(&with_base("
        #[task(priority = 2)]
        fn foo(_: foo::Context) {}
        #[task]
        fn bar(_: bar::Context, _: X) {}
    "));
    let send = &analysis.get().send_types;
    assert_eq!(send.len(), 1);
    assert!(is_ident(&send[0], "X"));
}

#[test]
fn shared_access_at_other_priority_is_sync() {
    let (_, analysis) = ok(&format!("{}
        #[task(shared = [x])]
        fn foo(_: foo::Context) {{}}
        #[task(priority = 2, shared = [&x])]
        fn bar(_: bar::Context) {{}}
    ", LATE_X));
    let sync = &analysis.get().sync_types;
    assert_eq!(sync.len(), 1);
    assert!(is_ident(&sync[0], "i32"));
}

#[test]
fn late_resources_initialized_by_init() {
    let (app, analysis) = ok("
        #[shared]
        struct Shared { b: u8, a: u8 }
        #[local]
        struct Local { c: u8 }
        #[init]
        fn init(_: init::Context) -> (Shared, Local, init::Monotonics) {}
    ");
    let late = &analysis.get().late_resources;
    assert_eq!(late.len(), 1);
    assert_eq!(late[0], vec!["a".to_string(), "b".to_string(), "c".to_string()]);
    let app = app.get();
    assert_eq!(app.shared_resources.iter().map(|r| r.0.clone()).collect::<Vec<_>>(), vec!["b".to_string(), "a".to_string()]);
    assert_eq!(app.local_resources.iter().map(|r| r.0.clone()).collect::<Vec<_>>(), vec!["c".to_string()]);
    assert!(app.resources.is_empty());
    assert!(app.inits[0].1.returns_late_resources);
}

#[test]
fn channels_by_priority() {
    let (_, analysis) = ok(&with_base("
        #[task(priority = 2, capacity = 3)]
        fn b(_: b::Context) {}
        #[task(priority = 2, capacity = 2)]
        fn a(_: a::Context) {}
        #[task]
        fn c(_: c::Context) {}
    "));
    let ch = &analysis.get().channels;
    assert_eq!(ch.len(), 2);
    let prios: Vec<u8> = ch.keys().copied().collect();
    assert_eq!(prios, vec![1, 2]);
    assert_eq!(ch[&1].capacity, 1);
    assert_eq!(ch[&2].capacity, 5);
    assert_eq!(ch[&2].tasks, vec!["a".to_string(), "b".to_string()]);
}

#[test]
fn priorities_are_compressed() {
    let settings = Settings { parse_binds: true, parse_extern_interrupt: false, optimize_priorities: true };
    let (app, _) = run("", &with_base("
        #[task(priority = 6)]
        fn a(_: a::Context) {}
        #[task(binds = UART0, priority = 3)]
        fn b(_: b::Context) {}
        #[task(priority = 1)]
        fn c(_: c::Context) {}
    "), settings).unwrap();
    let app = app.get();
    assert_eq!(app.software_tasks[0].1.args.priority, 3);
    assert_eq!(app.hardware_tasks[0].1.args.priority, 2);
    assert_eq!(app.software_tasks[1].1.args.priority, 1);
}

#[test]
fn priorities_kept_without_optimization() {
    let (app, _) = ok(&with_base("
        #[task(priority = 6)]
        fn a(_: a::Context) {}
    "));
    assert_eq!(app.get().software_tasks[0].1.args.priority, 6);
}

#[test]
fn task_inputs_locals_and_body() {
    let (app, _) = ok(&with_base("
        #[task]
        fn foo(cx: foo::Context, a: u8, (b, c): (u8, u8)) {
            #[cfg(debug_assertions)]
            static mut N: u32 = 0;
            static mut M: [u8; 2] = [0; 2];
            *N += 1;
        }
    "));
    let t = &app.get().software_tasks[0].1;
    assert!(is_ident(&t.context, "cx"));
    assert_eq!(t.inputs.len(), 2);
    assert!(is_ident(&t.inputs[0].1, "u8"));
    assert_eq!(t.locals.len(), 2);
    assert_eq!(t.locals[0].0, "N");
    assert_eq!(t.locals[0].1.cfgs.len(), 1);
    assert!(t.locals[0].1.attrs.is_empty());
    assert_eq!(t.locals[1].0, "M");
    assert_eq!(t.stmts.len(), 6);
}

#[test]
fn extern_tasks_and_monotonics() {
    let settings = Settings { parse_binds: true, parse_extern_interrupt: true, optimize_priorities: false };
    let (app, _) = run("device = pac, dispatchers = [SSI0]", &with_base("
        extern \"Rust\" {
            #[task(binds = UART1)]
            fn ext(cx: ext::Context);
        }
        #[monotonic(binds = SysTick, default = true)]
        type MyMono = DwtSystick<8_000_000>;
    "), settings).unwrap();
    let app = app.get();
    assert_eq!(app.hardware_tasks.len(), 1);
    assert_eq!(app.hardware_tasks[0].0, "ext");
    assert!(app.hardware_tasks[0].1.stmts.is_empty());
    assert!(app.extern_interrupts.is_empty());
    assert_eq!(app.monotonics.len(), 1);
    assert_eq!(app.monotonics[0].1.ident, "MyMono");
    assert!(app.monotonics[0].1.args.default);
    assert_eq!(app.args.extern_interrupts[0].0, "SSI0");
    assert_eq!(app.args.device.as_ref().unwrap().segments, vec!["pac".to_string()]);
}

#[test]
fn user_items_are_left_alone() {
    let (app, _) = ok(&with_base("
        use core::mem;
        struct Helper(u8);
        #[resources]
        struct Resources { x: u8 }
        const N: usize = 4;
        fn helper() -> u8 { 0 }
    "));
    let app = app.get();
    assert!(app.software_tasks.is_empty());
    assert!(app.hardware_tasks.is_empty());
    assert!(app.late_resources.is_empty());
    assert_eq!(app.user_imports.len(), 1);
    assert!(matches!(&app.user_imports[0][..], [Tok::Ident(u), Tok::Ident(c), ..] if u == "use" && c == "core"));
    // the helper struct, the `#[resources]` struct, the constant and the function
    assert_eq!(app.user_code.len(), 4);
    assert!(matches!(&app.user_code[0][..], [Tok::Ident(s), Tok::Ident(h), ..] if s == "struct" && h == "Helper"));
    assert!(matches!(&app.user_code[1][0], Tok::Punct('#', _)));
    assert!(matches!(&app.user_code[3][..], [Tok::Ident(f), Tok::Ident(h), ..] if f == "fn" && h == "helper"));
}

#[test]
fn declared_items_are_not_user_code() {
    let (app, _) = ok(&with_base("
        #[task]
        fn foo(_: foo::Context) {}
        #[monotonic(binds = SysTick)]
        type Mono = Systick<100>;
    "));
    let app = app.get();
    // only the monotonic's type is passed on
    assert_eq!(app.user_code.len(), 1);
    assert!(app.user_imports.is_empty());
}

#[test]
fn module_shape_errors() {
    let e = parse2(stream(""), stream("fn app() {}"), Settings::default()).unwrap_err();
    assert_eq!(e.kind, ErrorKind::ExpectedModule);
    let e = parse2(stream(""), stream("mod app;"), Settings::default()).unwrap_err();
    assert_eq!(e.kind, ErrorKind::ExpectedModule);
    let e = parse2(stream(""), stream("mod fn {}"), Settings::default()).unwrap_err();
    assert_eq!(e.kind, ErrorKind::ExpectedIdent);
    let e = parse2(stream(""), stream("mod app {} x"), Settings::default()).unwrap_err();
    assert_eq!(e.kind, ErrorKind::UnexpectedToken);
    let e = parse2(stream("cores = 1"), stream("mod app {}"), Settings::default()).unwrap_err();
    assert_eq!(e.kind, ErrorKind::UnexpectedArgument);
}

#[test]
fn invalid_items_are_a_syntax_error() {
    let e = run("", "fn f(x) {}", Settings::default()).unwrap_err();
    assert_eq!(e.kind, ErrorKind::Syntax);
    assert!(!e.at.is_empty());
    let e = run("", "#![allow(x)] fn f() {}", Settings::default()).unwrap_err();
    assert_eq!(e.kind, ErrorKind::ExpectedItem);
}

#[test]
fn unsupported_literals_are_refused() {
    let e = run("", &with_base("fn f() { let _ = c\"x\"; }"), Settings::default()).unwrap_err();
    assert_eq!(e.kind, ErrorKind::UnsupportedLiteral);
    let e = run("", &with_base("#[task(priority = c\"x\")] fn a(_: a::Context) {}"), Settings::default()).unwrap_err();
    assert_eq!(e.kind, ErrorKind::UnsupportedLiteral);
}

#[test]
fn missing_structs_and_init() {
    assert_eq!(err(""), (ErrorKind::NoSharedStruct, String::new()));
    assert_eq!(err("#[local] struct Local {} #[init] fn init(_: init::Context) -> (Shared, Local, init::Monotonics) {}"), (ErrorKind::NoSharedStruct, String::new()));
    assert_eq!(err("#[shared] struct Shared {} #[init] fn init(_: init::Context) -> (Shared, Local, init::Monotonics) {}"), (ErrorKind::NoLocalStruct, String::new()));
    assert_eq!(err("#[shared] struct Shared {} #[local] struct Local {}"), (ErrorKind::NoInit, String::new()));
}

#[test]
fn init_must_return_the_structs_by_name() {
    let e = run("", "#[shared] struct S {} #[local] struct L {} #[init] fn init(_: init::Context) -> (S2, L, init::Monotonics) {}", Settings::default()).unwrap_err();
    assert_eq!((e.kind, e.at.as_str()), (ErrorKind::SharedNameMismatch, "S"));
    assert_eq!(e.message(), "This name and the one defined on `#[shared]` are not the same. Should this be `S`?");
    assert_eq!(err("#[shared] struct S {} #[local] struct L {} #[init] fn init(_: init::Context) -> (S, L2, init::Monotonics) {}"), (ErrorKind::LocalNameMismatch, "L".to_string()));
    assert_eq!(err("#[shared] struct S {} #[local] struct L {} #[init] fn init(_: init::Context) -> (S, L, init::Monotonics, A) {}"), (ErrorKind::ActorsStructMissing, "A".to_string()));
    assert_eq!(err("#[shared] struct S {} #[local] struct L {} #[actors] struct A {} #[init] fn init(_: init::Context) -> (S, L, init::Monotonics) {}"), (ErrorKind::ActorsNotReturned, "A".to_string()));
    assert_eq!(err("#[shared] struct S {} #[local] struct L {} #[actors] struct A {} #[init] fn init(_: init::Context) -> (S, L, init::Monotonics, B) {}"), (ErrorKind::ActorsNameMismatch, "A".to_string()));
    let (app, _) = ok("#[shared] struct S {} #[local] struct L {} #[actors] struct A {} #[init] fn init(_: init::Context) -> (S, L, init::Monotonics, A) {}");
    let init = &app.get().inits[0].1;
    assert_eq!(init.user_shared_struct, "S");
    assert_eq!(init.user_local_struct, "L");
    assert_eq!(init.user_actors_struct, Some("A".to_string()));
}

#[test]
fn item_errors() {
    assert_eq!(err(&with_base("#[init] fn init2(_: init2::Context) -> (Shared, Local, init2::Monotonics) {}")), (ErrorKind::InitAtMostOnce, "init2".to_string()));
    assert_eq!(err(&with_base("#[idle] fn idle(_: idle::Context) -> ! {} #[idle] fn i2(_: i2::Context) -> ! {}")), (ErrorKind::IdleAtMostOnce, "i2".to_string()));
    assert_eq!(err(&with_base("#[task] fn a(_: a::Context) {} #[task] fn a(_: a::Context) {}")), (ErrorKind::TaskDefinedMultipleTimes, "a".to_string()));
    assert_eq!(err(&with_base("#[idle] fn a(_: a::Context) -> ! {} #[task] fn a(_: a::Context) {}")), (ErrorKind::IdentifierAlreadyUsed, "a".to_string()));
    assert_eq!(err("#[init] fn init(_: init::Context) -> u8 {}"), (ErrorKind::InitSignature, "init".to_string()));
    assert_eq!(err("#[init] fn init(_: init::Context) {}"), (ErrorKind::InitSignature, "init".to_string()));
    assert_eq!(err("#[init] fn init(_: init::Context) -> init::LateResources {}"), (ErrorKind::InitSignature, "init".to_string()));
    assert_eq!(err("#[init] fn init(_: other::Context) -> (Shared, Local, init::Monotonics) {}"), (ErrorKind::InitSignature, "init".to_string()));
    assert_eq!(err("#[init] pub fn init(_: init::Context) -> (Shared, Local, init::Monotonics) {}"), (ErrorKind::InitSignature, "init".to_string()));
    assert_eq!(err("#[idle] fn idle(_: idle::Context) {}"), (ErrorKind::IdleSignature, "idle".to_string()));
    assert_eq!(err("#[task] fn a(_: a::Context) -> u8 {}"), (ErrorKind::TaskSignature, "a".to_string()));
    assert_eq!(err("#[task] async fn a(_: a::Context) {}"), (ErrorKind::TaskSignature, "a".to_string()));
    assert_eq!(err("#[task] fn a<T>(_: a::Context) {}"), (ErrorKind::TaskSignature, "a".to_string()));
    assert_eq!(err("#[task] fn a(_: a::Context) { static X: u8 = 0; }"), (ErrorKind::OnlyStaticMut, "X".to_string()));
    assert_eq!(err("#[task] fn a(_: a::Context) { static mut X: u8 = 0; static mut X: u8 = 1; }"), (ErrorKind::StaticListedMoreThanOnce, "X".to_string()));
    assert_eq!(err("#[shared] pub struct R { a: u8 }"), (ErrorKind::ItemVisibility, "R".to_string()));
    assert_eq!(err("#[shared] struct R { pub a: u8 }"), (ErrorKind::FieldVisibility, "a".to_string()));
    assert_eq!(err("#[local] struct R { a: u8, a: u8 }"), (ErrorKind::ResourceListedMoreThanOnce, "a".to_string()));
    assert_eq!(err("#[local] struct R(u8);"), (ErrorKind::StructNamedFields, "R".to_string()));
    assert_eq!(err("extern \"C\" { fn A(); }"), (ErrorKind::ExternBlockAbi, String::new()));
    assert_eq!(err("extern \"Rust\" { fn a(_: a::Context); }"), (ErrorKind::ExternTaskAttribute, "a".to_string()));
    assert_eq!(err("extern \"Rust\" { #[task] #[inline] fn a(_: a::Context); }"), (ErrorKind::ExternTaskAttribute, "a".to_string()));
    assert_eq!(err("extern { static X: u8; }"), (ErrorKind::ItemOutsideApp, String::new()));
    assert_eq!(err("#[monotonic(binds = A)] type M = T; #[monotonic(binds = B)] type M = U;"), (ErrorKind::MonotonicAtMostOnce, "M".to_string()));
    assert_eq!(err("#[monotonic(binds = A)] pub type M = T;"), (ErrorKind::ItemVisibility, "M".to_string()));
    assert_eq!(err("#[monotonic(binds = A)] type M = T; #[monotonic(binds = B)] type N = T;"), (ErrorKind::MonotonicTypeAlreadyUsed, String::new()));
    assert_eq!(err("#[monotonic(binds = A)] type M = T; #[monotonic(binds = A)] type N = U;"), (ErrorKind::InterruptAlreadyBound, "A".to_string()));
    assert_eq!(err("#[monotonic(binds = A)] #[inline] type M = T;"), (ErrorKind::MonotonicAttributes, String::new()));
}

#[test]
fn binding_errors() {
    let settings = || Settings { parse_binds: true, parse_extern_interrupt: true, optimize_priorities: false };
    let e = run("", "#[task(binds = A)] fn a(_: a::Context) {} #[task(binds = A)] fn b(_: b::Context) {}", settings()).unwrap_err();
    assert_eq!((e.kind, e.at.as_str()), (ErrorKind::InterruptAlreadyBound, "A"));
    let e = run("", "#[task(binds = A)] fn init(_: init::Context) {}", settings()).unwrap_err();
    assert_eq!((e.kind, e.at.as_str()), (ErrorKind::TaskNamedInitOrIdle, "init"));
    let e = run("", "extern \"C\" { fn A(); }", settings()).unwrap_err();
    assert_eq!((e.kind, e.at.as_str()), (ErrorKind::ExternBlockAbi, ""));
}

#[test]
fn check_errors() {
    assert_eq!(err(&with_base("#[task(shared = [y])] fn a(_: a::Context) {}")), (ErrorKind::ResourceNotDeclared, "y".to_string()));
    assert_eq!(err("#[shared] struct Shared { x: u8 } #[local] struct Local {} #[init(resources = [x])] fn init(_: init::Context) -> (Shared, Local, init::Monotonics) {}"), (ErrorKind::LateResourceAssignedToInit, "x".to_string()));
}

#[test]
fn capacities_of_one_priority_must_fit() {
    assert_eq!(err(&with_base("#[task(capacity = 200)] fn a(_: a::Context) {} #[task(capacity = 100)] fn b(_: b::Context) {}")), (ErrorKind::CapacityOverflow, String::new()));
    ok(&with_base("#[task(capacity = 200)] fn a(_: a::Context) {} #[task(capacity = 100, priority = 2)] fn b(_: b::Context) {}"));
}

#[test]
fn monotonic_types_compare_without_spacing() {
    assert_eq!(
        err(&with_base("#[monotonic(binds = A)] type M = Foo<Bar<u8>>; #[monotonic(binds = B)] type N = Foo<Bar<u8> >;")),
        (ErrorKind::MonotonicTypeAlreadyUsed, String::new())
    );
}

#[test]
fn late_resources_named_by_init() {
    let (_, analysis) = ok("
        #[shared]
        struct Shared { b: u8, a: u8 }
        #[local]
        struct Local { c: u8 }
        #[init(late = [c, a])]
        fn init(_: init::Context) -> (Shared, Local, init::Monotonics) {}
    ");
    let late = &analysis.get().late_resources;
    assert_eq!(late.len(), 1);
    assert_eq!(late[0], vec!["a".to_string(), "c".to_string()]);
}

#[test]
fn literals_must_read_again_as_literals() {
    assert!(all_lits_known(&vec![Tok::Literal("\"ok\"".to_string()), Tok::Literal("1u8".to_string())]));
    assert!(!all_lits_known(&vec![Tok::Literal("\"\\q\"".to_string())]));
    assert!(!all_lits_known(&vec![Tok::Literal("c\"x\"".to_string())]));
    assert!(!all_lits_known(&vec![Tok::Group(
        Delim::Brace,
        vec![Tok::Literal("'\\u{d800}'".to_string())],
    )]));
}
