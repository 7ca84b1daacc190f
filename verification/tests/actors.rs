use rtic_syntax::analyze::{Analysis, Spawnee};
use rtic_syntax::ast::App;
use rtic_syntax::error::{Error, ErrorKind};
use rtic_syntax::tokens::Tok;
use rtic_syntax::{parse2, Settings, P};

fn stream(s: &str) -> proc_macro2::TokenStream {
    s.parse().unwrap()
}

/// The name of the last `#[actors]` struct of the body
fn actors_name(body: &str) -> Option<String> {
    let last = body.rsplit("#[actors]").next()?;
    if last.len() == body.len() {
        return None;
    }
    let rest = last.trim_start().strip_prefix("pub ").unwrap_or(last.trim_start());
    let rest = rest.strip_prefix("struct")?.trim_start();
    Some(rest.chars().take_while(|c| c.is_alphanumeric() || *c == '_').collect())
}

/// Runs the body with empty `#[shared]` and `#[local]` structs and an `init`
/// that returns them, and the `#[actors]` struct where there is one
fn run(body: &str) -> Result<(P<App>, P<Analysis>), Error> {
    let ret = match actors_name(body) {
        Some(a) => format!("(Shared, Local, init::Monotonics, {})", a),
        None => "(Shared, Local, init::Monotonics)".to_string(),
    };
    let module = format!(
        "mod app {{ {} #[shared] struct Shared {{}} #[local] struct Local {{}} #[init] fn init(_: init::Context) -> {} {{}} }}",
        body, ret
    );
    parse2(stream(""), stream(&module), Settings::default())
}

/// The text of a token sequence, tokens separated by spaces
fn text(ts: &[Tok]) -> String {
    let mut parts = Vec::new();
    for t in ts {
        parts.push(match t {
            Tok::Ident(s) | Tok::Literal(s) => s.clone(),
            Tok::Punct(c, _) => c.to_string(),
            Tok::Group(_, inner) => format!("( {} )", text(inner)),
        });
    }
    parts.join(" ")
}

fn err(body: &str) -> (ErrorKind, String) {
    let e = run(body).unwrap_err();
    (e.kind, e.at)
}

#[test]
fn actors() {
    let (app, analysis) = parse2(
        stream(""),
        stream(
            "
            mod app {
                #[actors]
                struct Actors {
                    #[priority = 2]
                    #[subscribe(MsgA)]
                    #[subscribe(MsgB, capacity = 2)]
                    a: (),

                    #[subscribe(MsgA)]
                    #[init(1)]
                    b: u32,

                    #[priority = 1]
                    #[subscribe(MsgB, capacity = 3)]
                    c: (),
                }

                #[shared]
                struct Shared {}

                #[local]
                struct Local {}

                #[init]
                fn init(_: init::Context) -> (Shared, Local, init::Monotonics, Actors) {
                    ..
                }
            }
            ",
        ),
        Settings::default(),
    )
    .unwrap();

    let actors = &app.actors;
    assert_eq!(actors.len(), 3);

    {
        let actor = &app.actors[0].1;
        assert_eq!(2, actor.priority);
        assert_eq!(1, actor.subscriptions[0].capacity);
        assert_eq!(2, actor.subscriptions[1].capacity);
        assert!(actor.init.is_none());
    }

    {
        let actor = &app.actors[1].1;

        assert_eq!(1, actor.priority);
        assert_eq!(1, actor.subscriptions[0].capacity);
        assert_eq!(
            Some("1"),
            actor
                .init
                .as_ref()
                .map(|expr| text(expr))
                .as_deref()
        );
    }

    {
        let actor = &app.actors[2].1;

        assert_eq!(1, actor.priority);
        assert_eq!(3, actor.subscriptions[0].capacity);
        assert!(actor.init.is_none());
    }

    let expected = [
        (
            /* priority: */ 1,
            /* capacity */ 4,
            [("b", 0), ("c", 0)],
        ),
        (
            /* priority: */ 2,
            /* capacity */ 3,
            [("a", 0), ("a", 1)],
        ),
    ];
    assert_eq!(analysis.channels.len(), 2);
    for (actual, expected) in analysis.channels.iter().zip(expected) {
        assert_eq!(*actual.0, expected.0);
        assert_eq!(actual.1.capacity, expected.1);
        for (spawnee, expected) in actual.1.spawnees.iter().zip(expected.2) {
            match spawnee {
                Spawnee::Task { .. } => panic!(),
                Spawnee::Actor {
                    name,
                    subscription_index,
                } => {
                    assert_eq!(expected.0, name.to_string());
                    assert_eq!(expected.1, *subscription_index);
                }
            }
        }
    }
}

#[test]
fn tasks_and_actor_subscriptions_share_a_channel() {
    let (_, analysis) = run("
        #[actors]
        struct Actors { #[subscribe(M, capacity = 2)] z: () }
        #[task(capacity = 3)]
        fn t(_: t::Context) {}
    ")
    .unwrap();
    let ch = &analysis.channels;
    assert_eq!(ch.len(), 1);
    assert_eq!(ch[&1].capacity, 5);
    assert_eq!(ch[&1].tasks, vec!["t".to_string()]);
    assert!(matches!(&ch[&1].spawnees[0], Spawnee::Task { name } if name == "t"));
    assert!(matches!(&ch[&1].spawnees[1], Spawnee::Actor { name, subscription_index: 0 } if name == "z"));
}

#[test]
fn actor_subscriptions_count_against_the_capacity() {
    assert_eq!(
        err("#[actors] struct A { #[subscribe(M, capacity = 200)] a: () } #[task(capacity = 100)] fn t(_: t::Context) {}"),
        (ErrorKind::CapacityOverflow, String::new())
    );
    // an actor without subscriptions opens no channel
    let (_, analysis) = run("#[actors] struct A { #[priority = 3] a: () }").unwrap();
    assert!(analysis.channels.is_empty());
}

#[test]
fn actor_capacity_may_be_zero_or_suffixed() {
    let (app, _) = run("#[actors] struct A { /// docs\n #[subscribe(M<u8, u16>, capacity = 0u8)] a: () }").unwrap();
    let s = &app.actors[0].1.subscriptions[0];
    assert_eq!(s.capacity, 0);
    assert_eq!(s.ty.len(), 6);
}

#[test]
fn actor_errors() {
    assert_eq!(err("#[actors] struct A { #[cfg(x)] a: () }"), (ErrorKind::CfgOnActor, "a".to_string()));
    assert_eq!(err("#[actors] struct A { pub a: () }"), (ErrorKind::FieldVisibility, "a".to_string()));
    assert_eq!(err("#[actors] struct A { #[priority = 1] #[priority = 2] a: () }"), (ErrorKind::PriorityAtMostOnce, "priority".to_string()));
    assert_eq!(err("#[actors] struct A { #[init(1)] #[init(2)] a: u8 }"), (ErrorKind::ActorInitAtMostOnce, "init".to_string()));
    assert_eq!(err("#[actors] struct A { #[link_section = \".x\"] a: () }"), (ErrorKind::ActorAttribute, "link_section".to_string()));
    assert_eq!(err("#[actors] struct A { #[priority = 0] a: () }"), (ErrorKind::LiteralOutOfRange, "0".to_string()));
    assert_eq!(err("#[actors] struct A { #[priority = 1u8] a: () }"), (ErrorKind::LiteralMustBeUnsuffixed, "1u8".to_string()));
    assert_eq!(err("#[actors] struct A { #[priority(1)] a: () }"), (ErrorKind::ExpectedEq, String::new()));
    assert_eq!(err("#[actors] struct A { #[subscribe(M, cap = 2)] a: () }"), (ErrorKind::ExpectedCapacity, "cap".to_string()));
    assert_eq!(err("#[actors] struct A { #[subscribe(M, capacity = 256)] a: () }"), (ErrorKind::NotAU8, "256".to_string()));
    assert_eq!(err("#[actors] struct A { #[subscribe(, capacity = 2)] a: () }"), (ErrorKind::ExpectedType, String::new()));
    assert_eq!(err("#[actors] struct A { #[subscribe(M, capacity = 2, x)] a: () }"), (ErrorKind::UnexpectedToken, String::new()));
    assert_eq!(err("#[actors] struct A { #[subscribe] a: () }"), (ErrorKind::ExpectedParens, String::new()));
    assert_eq!(err("#[actors] struct A { a: (), a: u8 }"), (ErrorKind::ResourceListedMoreThanOnce, "a".to_string()));
    assert_eq!(err("#[actors] struct A { a: () } #[actors] struct B { b: () }"), (ErrorKind::ActorsStructAtMostOnce, "B".to_string()));
    assert_eq!(err("#[actors] pub struct A { a: () }"), (ErrorKind::ItemVisibility, "A".to_string()));
    assert_eq!(err("#[actors] struct A(u8);"), (ErrorKind::StructNamedFields, "A".to_string()));
}

#[test]
fn empty_actors_struct_may_come_again() {
    let (app, _) = run("#[actors] struct A {} #[actors] struct B { b: () }").unwrap();
    assert_eq!(app.actors.len(), 1);
    assert_eq!(app.actors[0].0, "b");
}

#[test]
fn capacity_message_names_what_was_found() {
    let e = run("#[actors] struct A { #[subscribe(M, cap = 2)] a: () }").unwrap_err();
    assert_eq!(e.message(), "expected `capacity`, found `cap`");
}
