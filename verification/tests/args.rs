use rtic_syntax::ast::Access;
use rtic_syntax::error::ErrorKind;
use rtic_syntax::parse::args::{
    check_literal, idle_args, init_idle_args, monotonic_args, task_args, TaskArgs,
};
use rtic_syntax::stream::tokens_of;
use rtic_syntax::tokens::Tok;
use rtic_syntax::Settings;

fn toks(s: &str) -> Vec<Tok> {
    let stream: proc_macro2::TokenStream = s.parse().unwrap();
    tokens_of(&stream)
}

fn binds_settings() -> Settings {
    Settings { parse_binds: true, parse_extern_interrupt: false, optimize_priorities: false }
}

fn task_err(s: &str) -> (ErrorKind, String) {
    let e = task_args(&toks(s), &binds_settings()).unwrap_err();
    (e.kind, e.at)
}

#[test]
fn task_args_default() {
    match task_args(&toks(""), &Settings::default()).unwrap() {
        TaskArgs::Software(a) => {
            assert_eq!(a.capacity, 1);
            assert_eq!(a.priority, 1);
            assert_eq!(a.core, 0);
            assert!(a.resources.is_empty());
        }
        TaskArgs::Hardware(_) => panic!("expected a software task"),
    }
}

#[test]
fn task_args_software() {
    match task_args(&toks("(capacity = 4, priority = 3, resources = [a, &b])"), &Settings::default()).unwrap() {
        TaskArgs::Software(a) => {
            assert_eq!(a.capacity, 4);
            assert_eq!(a.priority, 3);
            assert_eq!(a.resources.len(), 2);
            assert_eq!(a.resources[0].0, "a");
            assert_eq!(a.resources[0].1, Access::Exclusive);
            assert_eq!(a.resources[1].0, "b");
            assert_eq!(a.resources[1].1, Access::Shared);
            assert!(a.spawn.is_empty());
        }
        TaskArgs::Hardware(_) => panic!("expected a software task"),
    }
}

#[test]
fn task_args_hardware() {
    match task_args(&toks("(binds = UART0, priority = 2)"), &binds_settings()).unwrap() {
        TaskArgs::Hardware(a) => {
            assert_eq!(a.binds, "UART0");
            assert_eq!(a.priority, 2);
        }
        TaskArgs::Software(_) => panic!("expected a hardware task"),
    }
}

#[test]
fn task_args_binds_needs_setting() {
    let e = task_args(&toks("(binds = UART0)"), &Settings::default()).unwrap_err();
    assert_eq!(e.kind, ErrorKind::UnexpectedArgument);
    assert_eq!(e.at, "binds");
}

#[test]
fn task_args_errors() {
    assert_eq!(task_err("(binds = A, capacity = 2)"), (ErrorKind::HardwareTaskCapacity, "capacity".to_string()));
    assert_eq!(task_err("(capacity = 2, binds = A)"), (ErrorKind::HardwareTaskCapacity, "binds".to_string()));
    assert_eq!(task_err("(priority = 1, priority = 2)"), (ErrorKind::ArgumentAppearsMoreThanOnce, "priority".to_string()));
    assert_eq!(task_err("(priority = 1u8)"), (ErrorKind::LiteralMustBeUnsuffixed, "1u8".to_string()));
    assert_eq!(task_err("(priority = 0)"), (ErrorKind::LiteralOutOfRange, "0".to_string()));
    assert_eq!(task_err("(priority = 256)"), (ErrorKind::LiteralOutOfRange, "256".to_string()));
    assert_eq!(task_err("(priority = -1)"), (ErrorKind::LiteralOutOfRange, "-1".to_string()));
    assert_eq!(task_err("(priority = x)"), (ErrorKind::ExpectedIntLiteral, String::new()));
    assert_eq!(task_err("(priority = 1.5)"), (ErrorKind::ExpectedIntLiteral, String::new()));
    assert_eq!(task_err("(speed = 1)"), (ErrorKind::UnexpectedArgument, "speed".to_string()));
    assert_eq!(task_err("(type = 1)"), (ErrorKind::ExpectedIdent, String::new()));
    assert_eq!(task_err("(priority 1)"), (ErrorKind::ExpectedEq, String::new()));
    assert_eq!(task_err("(priority = 1 capacity = 2)"), (ErrorKind::ExpectedComma, String::new()));
    assert_eq!(task_err("= 1"), (ErrorKind::ExpectedParens, String::new()));
    assert_eq!(task_err("(priority = 1) x"), (ErrorKind::UnexpectedToken, String::new()));
    assert_eq!(task_err("(binds = 1)"), (ErrorKind::ExpectedIdent, String::new()));
}

#[test]
fn resource_list_errors() {
    assert_eq!(task_err("(resources = a)"), (ErrorKind::ExpectedBrackets, String::new()));
    assert_eq!(task_err("(resources = [a::b])"), (ErrorKind::ResourceMustBeIdentifier, String::new()));
    assert_eq!(task_err("(resources = [::a])"), (ErrorKind::ResourceMustBeIdentifier, String::new()));
    assert_eq!(task_err("(resources = [&mut a])"), (ErrorKind::IdentifierAppearsMoreThanOnce, String::new()));
    assert_eq!(task_err("(resources = [a + b])"), (ErrorKind::IdentifierAppearsMoreThanOnce, String::new()));
    assert_eq!(task_err("(resources = [a, &a])"), (ErrorKind::ResourceAppearsMoreThanOnce, "a".to_string()));
    assert_eq!(task_err("(resources = [a,,b])"), (ErrorKind::ExpectedExpression, String::new()));
    let late_err = |s: &str| {
        let e = init_idle_args(&toks(s)).unwrap_err();
        (e.kind, e.at)
    };
    assert_eq!(late_err("(late = [a, b, a])"), (ErrorKind::IdentifierAppearsMoreThanOnce, "a".to_string()));
    assert_eq!(late_err("(late = [a b])"), (ErrorKind::ExpectedComma, String::new()));
    assert_eq!(late_err("(late = [a, 1])"), (ErrorKind::ExpectedIdent, String::new()));
    assert_eq!(task_err("(spawn = [a])"), (ErrorKind::UnexpectedArgument, "spawn".to_string()));
}

#[test]
fn resource_list_trailing_comma() {
    match task_args(&toks("(resources = [a, b,])"), &Settings::default()).unwrap() {
        TaskArgs::Software(a) => assert_eq!(a.resources.len(), 2),
        TaskArgs::Hardware(_) => panic!("expected a software task"),
    }
}

#[test]
fn init_and_idle_args() {
    let a = init_idle_args(&toks("(late = [x, y], resources = [z])")).unwrap();
    assert_eq!(a.late, vec!["x".to_string(), "y".to_string()]);
    assert_eq!(a.resources.len(), 1);
    let d = init_idle_args(&toks("")).unwrap();
    assert!(d.late.is_empty() && d.resources.is_empty());
    let e = init_idle_args(&toks("(priority = 1)")).unwrap_err();
    assert_eq!(e.kind, ErrorKind::UnexpectedArgument);
    let i = idle_args(&toks("(shared = [&z])")).unwrap();
    assert_eq!(i.resources[0].0, "z");
    assert_eq!(i.resources[0].1, Access::Shared);
    let e = idle_args(&toks("(schedule = [t])")).unwrap_err();
    assert_eq!((e.kind, e.at.as_str()), (ErrorKind::UnexpectedArgument, "schedule"));
    let e = init_idle_args(&toks("(spawn = [t])")).unwrap_err();
    assert_eq!((e.kind, e.at.as_str()), (ErrorKind::UnexpectedArgument, "spawn"));
    let e = idle_args(&toks("(late = [x])")).unwrap_err();
    assert_eq!(e.kind, ErrorKind::UnexpectedArgument);
    assert_eq!(e.at, "late");
}

#[test]
fn monotonic_arguments() {
    let m = monotonic_args(&toks("(binds = SysTick, default = true)")).unwrap();
    assert_eq!(m.binds, "SysTick");
    assert_eq!(m.priority, 1);
    assert!(m.default);
    let m = monotonic_args(&toks("(binds = SysTick, priority = 3)")).unwrap();
    assert_eq!(m.priority, 3);
    assert!(!m.default);
    assert_eq!(monotonic_args(&toks("(priority = 3)")).unwrap_err().kind, ErrorKind::BindsMissing);
    assert_eq!(monotonic_args(&toks("")).unwrap_err().kind, ErrorKind::ExpectedParens);
    assert_eq!(monotonic_args(&toks("(binds = A, default = 1)")).unwrap_err().kind, ErrorKind::ExpectedBoolLiteral);
    assert_eq!(monotonic_args(&toks("(binds = A, capacity = 1)")).unwrap_err().kind, ErrorKind::UnexpectedArgument);
}

#[test]
fn literal_readings() {
    assert_eq!(check_literal(&Some((String::new(), Some(7))), &"7".to_string()).unwrap(), 7);
    let e = check_literal(&Some(("u8".to_string(), Some(7))), &"7u8".to_string()).unwrap_err();
    assert_eq!((e.kind, e.at.as_str()), (ErrorKind::LiteralMustBeUnsuffixed, "7u8"));
    let e = check_literal(&Some((String::new(), Some(0))), &"0".to_string()).unwrap_err();
    assert_eq!(e.kind, ErrorKind::LiteralOutOfRange);
    let e = check_literal(&Some((String::new(), None)), &"300".to_string()).unwrap_err();
    assert_eq!(e.kind, ErrorKind::LiteralOutOfRange);
    let e = check_literal(&None, &"x".to_string()).unwrap_err();
    assert_eq!(e.kind, ErrorKind::ExpectedIntLiteral);
}

#[test]
fn hex_literal_reads_its_value() {
    match task_args(&toks("(priority = 0x3)"), &Settings::default()).unwrap() {
        TaskArgs::Software(a) => assert_eq!(a.priority, 3),
        TaskArgs::Hardware(_) => panic!("expected a software task"),
    }
}
