use rtic_syntax::ast::{App, Attribute, Path, TaskLocal};
use rtic_syntax::error::ErrorKind;
use rtic_syntax::parse::args::parse_local_resources;
use rtic_syntax::parse::func::extract_lock_free;
use rtic_syntax::stream::tokens_of;
use rtic_syntax::tokens::Tok;

fn toks(s: &str) -> Vec<Tok> {
    let stream: proc_macro2::TokenStream = s.parse().unwrap();
    tokens_of(&stream)
}

fn local_err(s: &str) -> ErrorKind {
    parse_local_resources(&toks(s)).unwrap_err().kind
}

fn attr(name: &str) -> Attribute {
    Attribute { outer: true, path: Path { leading_colon: false, segments: vec![name.to_string()] }, tokens: vec![] }
}

#[test]
fn local_list_names_and_declarations() {
    let l = parse_local_resources(&toks(
        "a, b: u32 = 0, c: [u8; 4] = [0; 4], d: (u8, u8) = (0, 0), e: *const u8 = core::ptr::null(), f: () = ()",
    ))
    .unwrap();
    let names: Vec<&str> = l.iter().map(|e| e.0.as_str()).collect();
    assert_eq!(names, vec!["a", "b", "c", "d", "e", "f"]);
    assert!(App::is_external(&l[0].1));
    match &l[1].1 {
        TaskLocal::Declared(local) => {
            assert!(matches!(&local.ty[..], [Tok::Ident(t)] if t == "u32"));
            assert!(matches!(&local.expr[..], [Tok::Literal(v)] if v == "0"));
            assert!(local.attrs.is_empty() && local.cfgs.is_empty());
        }
        TaskLocal::External => panic!("expected a declared local"),
    }
    assert!(!App::is_external(&l[4].1));
}

#[test]
fn local_list_repeated_name_keeps_place_and_takes_last_meaning() {
    let l = parse_local_resources(&toks("a, b, a: u8 = 1")).unwrap();
    assert_eq!(l.len(), 2);
    assert_eq!(l[0].0, "a");
    assert!(matches!(l[0].1, TaskLocal::Declared(_)));
    assert_eq!(l[1].0, "b");
    assert!(parse_local_resources(&toks("")).unwrap().is_empty());
}

#[test]
fn local_list_errors() {
    assert_eq!(local_err("x = 1"), ErrorKind::NotAType);
    assert_eq!(local_err("x: &u8 = &0"), ErrorKind::UnsupportedLocalType);
    assert_eq!(local_err("x: (u8) = 0"), ErrorKind::UnsupportedLocalType);
    assert_eq!(local_err("x: dyn Tr = 0"), ErrorKind::UnsupportedLocalType);
    assert_eq!(local_err("a::b"), ErrorKind::ResourceMustBeIdentifier);
    assert_eq!(local_err("a::b: u8 = 0"), ErrorKind::ResourceMustBeIdentifier);
    assert_eq!(local_err("x + 1"), ErrorKind::IdentifierAppearsMoreThanOnce);
    assert_eq!(local_err("x == 1"), ErrorKind::IdentifierAppearsMoreThanOnce);
    assert_eq!(local_err("a,, b"), ErrorKind::ExpectedExpression);
    assert_eq!(local_err("x: u8 ="), ErrorKind::ExpectedExpression);
}

#[test]
fn lock_free_attribute_is_taken_out() {
    let mut attrs = vec![attr("link_section"), attr("lock_free"), attr("lock_free")];
    assert!(extract_lock_free(&mut attrs).unwrap());
    assert_eq!(attrs.len(), 2);
    assert_eq!(attrs[0].path.segments[0], "link_section");
    assert_eq!(attrs[1].path.segments[0], "lock_free");
    let mut none = vec![attr("cfg")];
    assert!(!extract_lock_free(&mut none).unwrap());
    assert_eq!(none.len(), 1);
}

#[test]
fn local_expressions_may_compare_and_shift() {
    let l = parse_local_resources(&toks("x: u32 = 1 << 3, y: u8 = 0, z: bool = 1 < 2, w: u8 = 3")).unwrap();
    let names: Vec<&str> = l.iter().map(|e| e.0.as_str()).collect();
    assert_eq!(names, vec!["x", "y", "z", "w"]);
    match &l[0].1 {
        TaskLocal::Declared(local) => assert_eq!(local.expr.len(), 4),
        TaskLocal::External => panic!("expected a declared local"),
    }
    // a turbofish keeps its commas, and so does a generic type
    let l = parse_local_resources(&toks("m: Map<u8, u16> = Map::<u8, u16>::new(), n: u8 = 0")).unwrap();
    let names: Vec<&str> = l.iter().map(|e| e.0.as_str()).collect();
    assert_eq!(names, vec!["m", "n"]);
}
