use rtic_syntax::analyze::{Analysis, Ownership};
use rtic_syntax::ast::{Access, App, TaskLocal};
use rtic_syntax::error::{Error, ErrorKind};
use rtic_syntax::parse::args::{task_args, TaskArgs};
use rtic_syntax::stream::tokens_of;
use rtic_syntax::tokens::Tok;
use rtic_syntax::{parse2, Settings, P};

fn stream(s: &str) -> proc_macro2::TokenStream {
    s.parse().unwrap()
}

fn run(body: &str) -> Result<(P<App>, P<Analysis>), Error> {
    parse2(stream(""), stream(&format!("mod app {{ {} }}", body)), Settings::default())
}

fn err(body: &str) -> (ErrorKind, String) {
    let e = run(body).unwrap_err();
    (e.kind, e.at)
}

const INIT: &str = "#[init] fn init(_: init::Context) -> (Shared, Local, init::Monotonics) {}";

#[test]
fn shared_and_local_fields_are_late_resources() {
    let (app, analysis) = run(&format!("
        #[shared] struct Shared {{ #[lock_free] #[cfg(x)] a: u8, b: u16 }}
        #[local] struct Local {{ c: u32 }}
        {}
        #[task(shared = [a, &b], local = [c, d: u8 = 0])]
        fn t(_: t::Context) {{}}
    ", INIT))
    .unwrap();
    let app = app.get();
    let late: Vec<&str> = app.late_resources.iter().map(|r| r.0.as_str()).collect();
    assert_eq!(late, vec!["a", "b", "c"]);
    assert!(app.late_resources[0].1.lock_free);
    assert_eq!(app.late_resources[0].1.cfgs.len(), 1);
    assert!(app.late_resources[0].1.attrs.is_empty());
    assert!(!app.late_resources[1].1.lock_free);
    assert!(!app.late_resources[2].1.lock_free);
    assert_eq!(app.shared_resources.iter().map(|r| r.0.clone()).collect::<Vec<_>>(), vec!["a".to_string(), "b".to_string()]);
    assert_eq!(app.local_resources.iter().map(|r| r.0.clone()).collect::<Vec<_>>(), vec!["c".to_string()]);
    assert_eq!(app.inits[0].1.user_shared_struct, "Shared");
    assert_eq!(app.inits[0].1.user_local_struct, "Local");
    assert!(app.inits[0].1.returns_late_resources);
    let args = &app.software_tasks[0].1.args;
    let res: Vec<(&str, Access)> = args.resources.iter().map(|r| (r.0.as_str(), r.1)).collect();
    assert_eq!(res, vec![("a", Access::Exclusive), ("b", Access::Shared), ("c", Access::Exclusive)]);
    assert_eq!(args.local_resources.len(), 2);
    assert!(matches!(args.local_resources[0].1, TaskLocal::External));
    match &args.local_resources[1].1 {
        TaskLocal::Declared(l) => assert!(matches!(&l.ty[..], [Tok::Ident(t)] if t == "u8")),
        TaskLocal::External => panic!("expected a declared local"),
    }
    assert_eq!(analysis.get().ownerships.len(), 3);
    assert_eq!(analysis.get().ownerships[2], Ownership::Owned { priority: 1 });
}

#[test]
fn structs_return_without_late_resources() {
    let (app, _) = run(&format!("#[shared] struct Shared {{}} #[local] struct Local {{}} {}", INIT)).unwrap();
    assert!(app.inits[0].1.user_actors_struct.is_none());
    assert!(!app.inits[0].1.returns_late_resources);
}

#[test]
fn shared_and_local_struct_errors() {
    assert_eq!(err(&format!("#[shared] struct S {{ a: u8 }} #[shared] struct T {{ b: u8 }} {}", INIT)), (ErrorKind::SharedStructAtMostOnce, "T".to_string()));
    assert_eq!(err(&format!("#[local] struct S {{ a: u8 }} #[local] struct T {{ b: u8 }} {}", INIT)), (ErrorKind::LocalStructAtMostOnce, "T".to_string()));
    assert_eq!(err(&format!("#[shared] struct Shared {{ a: u8, a: u16 }} #[local] struct Local {{}} {}", INIT)), (ErrorKind::ResourceListedMoreThanOnce, "a".to_string()));
    assert_eq!(err(&format!("#[shared] struct S {{ pub a: u8 }} {}", INIT)), (ErrorKind::FieldVisibility, "a".to_string()));
    assert_eq!(err(&format!("#[local] pub struct L {{ a: u8 }} {}", INIT)), (ErrorKind::ItemVisibility, "L".to_string()));
    assert_eq!(err(&format!("#[shared] struct S(u8); {}", INIT)), (ErrorKind::StructNamedFields, "S".to_string()));
    // a first struct without fields does not count; the last one names the struct
    assert!(run(&format!("#[shared] struct S {{}} #[shared] struct Shared {{ b: u8 }} #[local] struct Local {{}} {}", INIT)).is_ok());
    // `init` must name plain structs and its own monotonics
    assert_eq!(err("#[init] fn init(_: init::Context) -> (Shared, Local, other::Monotonics) {}"), (ErrorKind::InitSignature, "init".to_string()));
    assert_eq!(err("#[init] fn init(_: init::Context) -> (a::Shared, Local, init::Monotonics) {}"), (ErrorKind::InitSignature, "init".to_string()));
}

#[test]
fn shared_and_local_argument_errors() {
    let settings = Settings::default();
    let toks = |s: &str| tokens_of(&stream(s));
    let e = task_args(&toks("(resources = [a], shared = [b])"), &settings).unwrap_err();
    assert_eq!((e.kind, e.at), (ErrorKind::ArgumentAppearsMoreThanOnce, "shared".to_string()));
    let e = task_args(&toks("(shared = [a], local = [a])"), &settings).unwrap_err();
    assert_eq!((e.kind, e.at), (ErrorKind::ResourceAppearsMoreThanOnce, "a".to_string()));
    let e = task_args(&toks("(local = [a], local = [b])"), &settings).unwrap_err();
    assert_eq!((e.kind, e.at), (ErrorKind::ArgumentAppearsMoreThanOnce, "local".to_string()));
    match task_args(&toks("(local = [x: u8 = 1])"), &settings).unwrap() {
        TaskArgs::Software(a) => {
            assert!(a.resources.is_empty());
            assert_eq!(a.local_resources.len(), 1);
        }
        TaskArgs::Hardware(_) => panic!("expected a software task"),
    }
    // `init` takes neither `shared` nor `local`
    assert_eq!(err("#[init(shared = [a])] fn init(_: init::Context) {}"), (ErrorKind::UnexpectedArgument, "shared".to_string()));
    assert_eq!(err("#[init(local = [a])] fn init(_: init::Context) {}"), (ErrorKind::UnexpectedArgument, "local".to_string()));
    // nor does a task take `spawn` or `schedule`
    let e = task_args(&toks("(spawn = [foo])"), &settings).unwrap_err();
    assert_eq!((e.kind, e.at), (ErrorKind::UnexpectedArgument, "spawn".to_string()));
    let e = task_args(&toks("(schedule = [foo])"), &settings).unwrap_err();
    assert_eq!((e.kind, e.at), (ErrorKind::UnexpectedArgument, "schedule".to_string()));
}

#[test]
fn one_name_in_both_structs() {
    let (app, _) = run(&format!("#[shared] struct Shared {{ a: u8 }} #[local] struct Local {{ a: u16, b: u32 }} {}", INIT)).unwrap();
    let app = app.get();
    assert_eq!(app.shared_resources.len(), 1);
    assert_eq!(app.local_resources.len(), 2);
    assert!(matches!(&app.local_resources[0].1.ty[..], [Tok::Ident(t)] if t == "u16"));
    let late: Vec<&str> = app.late_resources.iter().map(|r| r.0.as_str()).collect();
    assert_eq!(late, vec!["a", "b"]);
    assert!(matches!(&app.late_resources[0].1.ty[..], [Tok::Ident(t)] if t == "u8"));
}
