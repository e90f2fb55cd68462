use prost_derive::enumeration::{enumeration, try_enumeration, EnumValue, ImplDecl, ImplItemDecl};
use prost_derive::error::Error;

fn colors() -> ImplDecl {
    ImplDecl {
        generic: false,
        trait_impl: false,
        items: vec![ImplItemDecl::Const(0), ImplItemDecl::Const(1), ImplItemDecl::Const(2)],
    }
}

#[test]
fn default_is_first_constant() {
    let plan = enumeration(&colors());
    assert_eq!(plan.default_value(), EnumValue(0));
}

#[test]
fn validity_follows_declared_constants() {
    let plan = enumeration(&colors());
    assert!(plan.is_valid(EnumValue(1)));
    assert!(plan.is_valid(EnumValue(2)));
    assert!(!plan.is_valid(EnumValue(5)));
    assert!(!plan.is_valid(EnumValue(-1)));
}

#[test]
fn conversion_from_raw_is_unchecked() {
    let plan = enumeration(&colors());
    let v = EnumValue::from_raw(5);
    assert_eq!(v, EnumValue(5));
    assert!(!plan.is_valid(v));
    let w: EnumValue = EnumValue::from(5);
    assert_eq!(w.into_raw(), 5);
    let raw: i32 = i32::from(EnumValue(-3));
    assert_eq!(raw, -3);
}

#[test]
fn default_follows_declaration_not_value() {
    let decl = ImplDecl {
        generic: false,
        trait_impl: false,
        items: vec![ImplItemDecl::Const(7), ImplItemDecl::Const(0)],
    };
    let plan = try_enumeration(&decl).unwrap();
    assert_eq!(plan.default_value(), EnumValue(7));
    assert_eq!(plan.values, vec![7, 0]);
}

#[test]
fn enumeration_errors() {
    let empty = ImplDecl { generic: false, trait_impl: false, items: Vec::new() };
    assert_eq!(try_enumeration(&empty).unwrap_err(), Error::EnumerationEmpty);
    let other = ImplDecl {
        generic: false,
        trait_impl: false,
        items: vec![ImplItemDecl::Const(0), ImplItemDecl::Other, ImplItemDecl::Other],
    };
    assert_eq!(try_enumeration(&other).unwrap_err(), Error::EnumerationNonConst { index: 1 });
    let tr = ImplDecl { generic: false, trait_impl: true, items: vec![ImplItemDecl::Const(0)] };
    assert_eq!(try_enumeration(&tr).unwrap_err(), Error::EnumerationTraitImpl);
    let g = ImplDecl { generic: true, trait_impl: true, items: Vec::new() };
    assert_eq!(try_enumeration(&g).unwrap_err(), Error::Generic);
}
