use rtic_syntax::ast::{App, Init, InitArgs, SoftwareTask, SoftwareTaskArgs};
use rtic_syntax::error::ErrorKind;
use rtic_syntax::{check, check_and_analyze, parse, Settings};

fn parsed(body: &str) -> App {
    let args: proc_macro2::TokenStream = "".parse().unwrap();
    let input: proc_macro2::TokenStream = format!("mod app {{ {} }}", body).parse().unwrap();
    parse::app(args, input, &Settings::default()).unwrap()
}

fn with_structs(shared: &str) -> String {
    format!(
        "#[shared] struct Shared {{ {} }} #[local] struct Local {{}} #[init] fn init(_: init::Context) -> (Shared, Local, init::Monotonics) {{}}",
        shared
    )
}

fn init_on(core: u8, name: &str, late: &[&str], returns: bool) -> (u8, Init) {
    (
        core,
        Init {
            args: InitArgs {
                core,
                late: late.iter().map(|s| s.to_string()).collect(),
                resources: vec![],
                local_resources: vec![],
                spawn: vec![],
                schedule: vec![],
            },
            attrs: vec![],
            name: name.to_string(),
            context: vec![],
            returns_late_resources: returns,
            user_shared_struct: "Shared".to_string(),
            user_local_struct: "Local".to_string(),
            user_actors_struct: None,
            locals: vec![],
            stmts: vec![],
        },
    )
}

fn two_cores(inits: Vec<(u8, Init)>) -> App {
    let mut app = parsed(&with_structs("a: u8, b: u8"));
    app.args.cores = 2;
    app.inits = inits;
    app
}

fn kind_at(app: &App) -> (ErrorKind, String) {
    let e = check::app(app).unwrap_err();
    (e.kind, e.at)
}

#[test]
fn split_between_cores() {
    let app = two_cores(vec![init_on(0, "i0", &["a"], true), init_on(1, "i1", &[], true)]);
    assert!(check::app(&app).is_ok());
    let app = two_cores(vec![init_on(0, "i0", &["a"], true), init_on(1, "i1", &["b"], true)]);
    assert!(check::app(&app).is_ok());
}

#[test]
fn late_resource_split_errors() {
    let app = two_cores(vec![init_on(0, "i0", &["a"], true), init_on(1, "i1", &["a"], true)]);
    assert_eq!(kind_at(&app), (ErrorKind::InitializedByCore(0), "a".to_string()));
    let app = two_cores(vec![init_on(0, "i0", &["c"], true)]);
    assert_eq!(kind_at(&app), (ErrorKind::NotALateResource, "c".to_string()));
    let app = two_cores(vec![init_on(0, "i0", &[], true), init_on(1, "i1", &[], true)]);
    assert_eq!(kind_at(&app), (ErrorKind::UnclearSplit(0, 1), "i1".to_string()));
    let app = two_cores(vec![init_on(0, "i0", &["a", "b"], true), init_on(1, "i1", &[], true)]);
    assert_eq!(kind_at(&app), (ErrorKind::NoMoreLateResources, "i1".to_string()));
    let app = two_cores(vec![init_on(0, "i0", &["a"], true)]);
    assert_eq!(kind_at(&app), (ErrorKind::NotBeingInitialized, "b".to_string()));
}

fn task_at(priority: u8) -> SoftwareTask {
    SoftwareTask {
        args: SoftwareTaskArgs {
            core: 0,
            capacity: 1,
            priority,
            resources: vec![],
            local_resources: vec![],
            spawn: vec![],
            schedule: vec![],
        },
        cfgs: vec![],
        attrs: vec![],
        context: vec![],
        inputs: vec![],
        locals: vec![],
        stmts: vec![],
    }
}

#[test]
fn spawned_task_must_be_declared() {
    let mut app = parsed(&with_structs(""));
    let mut t = task_at(1);
    t.args.spawn = vec!["zz".to_string()];
    app.software_tasks.push(("t".to_string(), t));
    assert_eq!(kind_at(&app), (ErrorKind::TaskNotDeclared, "zz".to_string()));
    assert_eq!(check::app(&app).unwrap_err().message(), "the task has NOT been declared");
}

#[test]
fn too_many_priorities_to_compress() {
    let mut app = parsed(&with_structs(""));
    for p in 0..=255u8 {
        app.software_tasks.push((format!("t{}", p), task_at(p)));
    }
    let settings = Settings { parse_binds: false, parse_extern_interrupt: false, optimize_priorities: true };
    let e = check_and_analyze(app, &settings).unwrap_err();
    assert_eq!(e.kind, ErrorKind::TooManyPriorities);

    let mut app = parsed(&with_structs(""));
    for p in 1..=255u8 {
        app.software_tasks.push((format!("t{}", p), task_at(p)));
    }
    let (app, _) = check_and_analyze(app, &settings).unwrap();
    assert_eq!(app.get().software_tasks[254].1.args.priority, 255);
}
