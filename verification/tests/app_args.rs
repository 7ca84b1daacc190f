use rtic_syntax::ast::AppArgs;
use rtic_syntax::error::ErrorKind;

fn stream(s: &str) -> proc_macro2::TokenStream {
    s.parse().unwrap()
}

#[test]
fn parse_app_args_true() {
    let s = "peripherals = true";

    let stream: proc_macro2::TokenStream = s.parse().unwrap();
    let result = AppArgs::parse(stream).unwrap();

    assert!(result.peripherals);
}

#[test]
fn parse_app_args_false() {
    let s = "peripherals = false";

    let stream: proc_macro2::TokenStream = s.parse().unwrap();
    let result = AppArgs::parse(stream).unwrap();

    assert!(!result.peripherals);
}

#[test]
fn parse_app_args_default() {
    let s = "";

    let stream: proc_macro2::TokenStream = s.parse().unwrap();
    let result = AppArgs::parse(stream).unwrap();

    assert!(result.peripherals);
}

#[test]
fn app_args_device_and_dispatchers() {
    let a = AppArgs::parse(stream(
        "device = lm3s6965::pac, dispatchers = [#[link_section = \".x\"] UART0, UART1]",
    ))
    .unwrap();
    let d = a.device.unwrap();
    assert!(!d.leading_colon);
    assert_eq!(d.segments, vec!["lm3s6965".to_string(), "pac".to_string()]);
    assert_eq!(a.extern_interrupts.len(), 2);
    assert_eq!(a.extern_interrupts[0].0, "UART0");
    assert_eq!(a.extern_interrupts[0].1.attrs.len(), 1);
    assert_eq!(a.extern_interrupts[1].0, "UART1");
    assert!(a.extern_interrupts[1].1.attrs.is_empty());
    assert_eq!(a.cores, 1);
}

#[test]
fn app_args_errors() {
    let kind = |s: &str| AppArgs::parse(stream(s)).unwrap_err().kind;
    assert_eq!(kind("peripherals = true, peripherals = false"), ErrorKind::ArgumentAppearsMoreThanOnce);
    assert_eq!(kind("cores = 2"), ErrorKind::UnexpectedArgument);
    assert_eq!(kind("device = 1"), ErrorKind::ValueShouldBePath);
    assert_eq!(kind("peripherals = 1"), ErrorKind::ValueShouldBeBool);
    assert_eq!(kind("dispatchers = A"), ErrorKind::ValueShouldBeArray);
    assert_eq!(kind("dispatchers = [a::B]"), ErrorKind::InterruptMustBeIdentifier);
    assert_eq!(kind("dispatchers = [1]"), ErrorKind::InterruptMustBeIdent);
    assert_eq!(kind("dispatchers = [A, A]"), ErrorKind::InterruptListedMoreThanOnce);
    assert_eq!(kind("dispatchers = [A,,B]"), ErrorKind::ValueShouldBeArray);
    assert_eq!(kind("peripherals true"), ErrorKind::ExpectedEq);
    assert_eq!(kind("peripherals = true device = a"), ErrorKind::ExpectedComma);
    assert_eq!(kind("= true"), ErrorKind::ExpectedIdent);
}
