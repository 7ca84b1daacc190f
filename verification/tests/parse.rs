use rtic_syntax::analyze::Ownership;
use rtic_syntax::error::ErrorKind;
use rtic_syntax::{parse2, Settings};

fn stream(s: &str) -> proc_macro2::TokenStream {
    s.parse().unwrap()
}

#[test]
fn resource_owned() {
    let (_app, analysis) = parse2(
        stream(""),
        stream(
            "mod app {
                #[shared]
                struct Shared {
                    x: i32,
                }

                #[local]
                struct Local {}

                #[init]
                fn init(_: init::Context) -> (Shared, Local, init::Monotonics) {}

                #[task(shared = [x])]
                fn foo(_: foo::Context) {}
            }",
        ),
        Settings::default(),
    )
    .unwrap();

    let analysis = analysis.get();
    let (res, ownership) = analysis.ownerships.get_index(0).unwrap();
    assert_eq!(res, "x");
    assert_eq!(*ownership, Ownership::Owned { priority: 1 });
}

#[test]
fn task_args_error() {
    let e = parse2(
        stream(""),
        stream(
            "mod app {
                #[task(priority = 0)]
                fn foo(_: foo::Context) {}
            }",
        ),
        Settings::default(),
    )
    .unwrap_err();
    assert_eq!(e.kind, ErrorKind::LiteralOutOfRange);
    assert_eq!(e.at, "0");
}
