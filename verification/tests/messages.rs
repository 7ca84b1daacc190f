use rtic_syntax::error::{decimal_string, Error, ErrorKind};

fn message(kind: ErrorKind, at: &str) -> String {
    Error { kind, at: at.to_string() }.message()
}

#[test]
fn decimal_text() {
    assert_eq!(decimal_string(0), "0");
    assert_eq!(decimal_string(7), "7");
    assert_eq!(decimal_string(10), "10");
    assert_eq!(decimal_string(99), "99");
    assert_eq!(decimal_string(100), "100");
    assert_eq!(decimal_string(205), "205");
    assert_eq!(decimal_string(255), "255");
}

#[test]
fn fixed_messages() {
    assert_eq!(message(ErrorKind::ResourceNotDeclared, "x"), "this resource has NOT been declared");
    assert_eq!(message(ErrorKind::ExternBlockAbi, ""), "this `extern` block must use the \"Rust\" ABI");
    assert_eq!(message(ErrorKind::LiteralOutOfRange, "0"), "this literal must be in the range 1...255");
}

#[test]
fn messages_with_names_and_numbers() {
    assert_eq!(
        message(ErrorKind::InitSignature, "init"),
        "this `#[init]` function must have signature `fn(init::Context) -> (Shared resources struct, Local resources struct, init::Monotonics)`"
    );
    assert_eq!(
        message(ErrorKind::TaskSignature, "foo"),
        "the task handler must have type signature `fn(foo::Context, ..)`"
    );
    assert_eq!(message(ErrorKind::InitializedByCore(1), "x"), "this resource is initialized by core 1");
    assert_eq!(
        message(ErrorKind::UnclearSplit(0, 12), "init"),
        "unclear how initialization of late resources is split between cores 0 and 12"
    );
    assert_eq!(message(ErrorKind::Syntax, "expected `;`"), "expected `;`");
    assert_eq!(
        message(ErrorKind::LocalNameMismatch, "Local"),
        "This name and the one defined on `#[local]` are not the same. Should this be `Local`?"
    );
    assert_eq!(
        message(ErrorKind::ActorsNameMismatch, "Actors"),
        "This name and the one defined on `#[actors]` are not the same. Should this be `Actors`?"
    );
    assert_eq!(message(ErrorKind::ActorsStructMissing, "A"), "a `#[actors]` struct named `A` needs to be defined");
    assert_eq!(
        message(ErrorKind::ActorsNotReturned, "A"),
        "`#[init]` return type needs to include `A` as the 4th tuple element "
    );
    assert_eq!(message(ErrorKind::NoInit, ""), "No `#[init]` function defined");
    assert_eq!(message(ErrorKind::NoSharedStruct, ""), "No `#[shared]` resource struct defined");
    assert_eq!(message(ErrorKind::NoLocalStruct, ""), "No `#[local]` resource struct defined");
    assert_eq!(message(ErrorKind::TaskDefinedMultipleTimes, "a"), "the task is defined multiple times");
    assert_eq!(message(ErrorKind::UnsupportedLiteral, ""), "this kind of literal is not supported");
}
