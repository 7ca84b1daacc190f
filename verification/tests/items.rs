use rtic_syntax::parse::item::{read_items, Item};
use rtic_syntax::stream::tokens_of;
use rtic_syntax::tokens::Tok;

fn items(s: &str) -> Vec<Item> {
    let stream: proc_macro2::TokenStream = s.parse().unwrap();
    read_items(&tokens_of(&stream)).unwrap().0
}

#[test]
fn function_items() {
    let v = items(
        "#[task(priority = 2)]
         fn foo(cx: foo::Context, x: Vec<(u8, u16)>, y: HashMap<A, B>) -> u8 { 1 }
         pub const fn bar<T>() where T: Copy {}
         fn baz();",
    );
    assert_eq!(v.len(), 3);
    match &v[0] {
        Item::Fn(f) => {
            assert_eq!(f.name, "foo");
            assert_eq!(f.attrs.len(), 1);
            assert_eq!(f.attrs[0].path.segments, vec!["task".to_string()]);
            assert!(f.vis_inherited && f.plain && !f.generic && !f.where_clause);
            assert_eq!(f.params.len(), 3);
            assert!(matches!(&f.ret.as_ref().unwrap()[..], [Tok::Ident(t)] if t == "u8"));
            assert!(f.body.is_some());
        }
        _ => panic!("expected a function"),
    }
    match &v[1] {
        Item::Fn(f) => {
            assert_eq!(f.name, "bar");
            assert!(!f.vis_inherited && !f.plain && f.generic && f.where_clause);
        }
        _ => panic!("expected a function"),
    }
    match &v[2] {
        Item::Fn(f) => assert!(f.body.is_none()),
        _ => panic!("expected a function"),
    }
}

#[test]
fn struct_type_and_other_items() {
    let v = items(
        "use core::mem;
         #[resources]
         struct Resources { #[init(0)] a: u32, pub b: Vec<(u8, u8)>, }
         struct Unit;
         static X: S = S { a: 1 };
         #[monotonic(binds = SysTick)]
         type Mono = Systick<100>;
         impl Foo { fn f() {} }
         extern \"C\" { fn UART0(); static Y: u8; }",
    );
    assert_eq!(v.len(), 7);
    assert!(matches!(v[0], Item::Other));
    match &v[1] {
        Item::Struct(s) => {
            let fields = s.fields.as_ref().unwrap();
            assert_eq!(fields.len(), 2);
            assert_eq!(fields[0].name, "a");
            assert_eq!(fields[0].attrs.len(), 1);
            assert!(fields[0].vis_inherited);
            assert_eq!(fields[1].name, "b");
            assert!(!fields[1].vis_inherited);
        }
        _ => panic!("expected a struct"),
    }
    match &v[2] {
        Item::Struct(s) => assert!(s.fields.is_none()),
        _ => panic!("expected a struct"),
    }
    assert!(matches!(v[3], Item::Other));
    match &v[4] {
        Item::Type(t) => {
            assert_eq!(t.name, "Mono");
            assert_eq!(t.ty.len(), 4);
        }
        _ => panic!("expected a type"),
    }
    assert!(matches!(v[5], Item::Other));
    match &v[6] {
        Item::ForeignMod(abi, its) => {
            assert_eq!(abi.as_deref(), Some("\"C\""));
            assert_eq!(its.len(), 2);
            assert!(matches!(its[0], Item::Fn(_)));
            assert!(matches!(its[1], Item::Other));
        }
        _ => panic!("expected an extern block"),
    }
}

#[test]
fn inner_attribute_is_not_an_item() {
    let stream: proc_macro2::TokenStream = "#![allow(x)] fn f() {}".parse().unwrap();
    let e = read_items(&tokens_of(&stream)).unwrap_err();
    assert_eq!(e.kind, rtic_syntax::error::ErrorKind::ExpectedItem);
}

#[test]
fn const_argument_in_a_signature_is_not_the_body() {
    let v = items("fn f() -> Foo<{ 1 }> { body() } fn g<T: Fn(u8)>(x: T) {}");
    assert_eq!(v.len(), 2);
    match &v[0] {
        Item::Fn(f) => {
            assert_eq!(f.name, "f");
            assert_eq!(f.ret.as_ref().unwrap().len(), 4);
            assert_eq!(f.body.as_ref().unwrap().len(), 2);
        }
        _ => panic!("expected a function"),
    }
    match &v[1] {
        Item::Fn(f) => {
            assert!(f.generic);
            assert_eq!(f.params.len(), 1);
        }
        _ => panic!("expected a function"),
    }
}
