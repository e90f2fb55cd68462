use prost_derive::error::Error;
use prost_derive::field::{FieldAttrs, FieldError, FieldKind};
use prost_derive::input::{Data, DeriveInput, Fields};
use prost_derive::message::try_message;
use prost_derive::tags::{has_duplicates, max_of, min_of, stable_order, MAX_TAG};

fn implicit(kind: FieldKind) -> FieldAttrs {
    FieldAttrs { ignore: false, kind, tags: Vec::new() }
}

fn explicit(kind: FieldKind, tags: Vec<u32>) -> FieldAttrs {
    FieldAttrs { ignore: false, kind, tags }
}

fn ignored() -> FieldAttrs {
    FieldAttrs { ignore: true, kind: FieldKind::Scalar, tags: Vec::new() }
}

fn record(fields: Vec<FieldAttrs>) -> DeriveInput {
    DeriveInput { generic: false, data: Data::Struct(Fields::Named(fields)) }
}

fn tags_of(input: &DeriveInput) -> Vec<Vec<u32>> {
    let plan = try_message(input).unwrap();
    plan.fields.iter().map(|f| f.tags.clone()).collect()
}

#[test]
fn implicit_tags_count_from_one() {
    let input = record(vec![
        implicit(FieldKind::Scalar),
        implicit(FieldKind::Message),
        implicit(FieldKind::KeyValue),
    ]);
    assert_eq!(tags_of(&input), vec![vec![1], vec![2], vec![3]]);
}

#[test]
fn implicit_tags_skip_past_multi_tag_field() {
    let input = record(vec![
        implicit(FieldKind::Scalar),
        explicit(FieldKind::Oneof, vec![3, 4]),
        implicit(FieldKind::Scalar),
    ]);
    assert_eq!(tags_of(&input), vec![vec![1], vec![3, 4], vec![5]]);
}

#[test]
fn implicit_tag_follows_explicit_one() {
    let input = record(vec![explicit(FieldKind::Scalar, vec![10]), implicit(FieldKind::Scalar)]);
    assert_eq!(tags_of(&input), vec![vec![10], vec![11]]);
}

#[test]
fn ignored_field_takes_no_tag() {
    let input = record(vec![implicit(FieldKind::Scalar), ignored(), implicit(FieldKind::Scalar)]);
    let plan = try_message(&input).unwrap();
    assert_eq!(plan.fields.len(), 2);
    assert_eq!(plan.fields[0].decl, 0);
    assert_eq!(plan.fields[1].decl, 2);
    assert_eq!(plan.fields[1].tags, vec![2]);
}

#[test]
fn duplicate_explicit_tags_fail() {
    let input = record(vec![explicit(FieldKind::Scalar, vec![1]), explicit(FieldKind::Message, vec![1])]);
    assert_eq!(try_message(&input).unwrap_err(), Error::DuplicateTags);
}

#[test]
fn implicit_tag_clashing_with_later_explicit_fails() {
    let input = record(vec![implicit(FieldKind::Scalar), explicit(FieldKind::Scalar, vec![1])]);
    assert_eq!(try_message(&input).unwrap_err(), Error::DuplicateTags);
}

#[test]
fn encode_order_follows_smallest_tag() {
    let input = record(vec![
        explicit(FieldKind::Scalar, vec![7]),
        explicit(FieldKind::Oneof, vec![9, 2]),
        explicit(FieldKind::Scalar, vec![5]),
    ]);
    let plan = try_message(&input).unwrap();
    assert_eq!(plan.encode_order, vec![1, 2, 0]);
    assert!(plan.named);
}

#[test]
fn merge_dispatch_routes_tags_to_owner() {
    let input = record(vec![explicit(FieldKind::Scalar, vec![4]), explicit(FieldKind::Oneof, vec![6, 8])]);
    let plan = try_message(&input).unwrap();
    assert_eq!(plan.merge_target(4), Some(0));
    assert_eq!(plan.merge_target(6), Some(1));
    assert_eq!(plan.merge_target(8), Some(1));
    assert_eq!(plan.merge_target(5), None);
    assert_eq!(plan.merge_target(1), None);
}

#[test]
fn zero_field_record_compiles_to_nothing() {
    for fields in vec![Fields::Unit, Fields::Named(Vec::new()), Fields::Unnamed(Vec::new())] {
        let input = DeriveInput { generic: false, data: Data::Struct(fields) };
        let plan = try_message(&input).unwrap();
        assert!(plan.fields.is_empty());
        assert!(plan.encode_order.is_empty());
        assert_eq!(plan.merge_target(1), None);
    }
}

#[test]
fn positional_fields_are_not_named() {
    let input = DeriveInput {
        generic: false,
        data: Data::Struct(Fields::Unnamed(vec![implicit(FieldKind::Scalar)])),
    };
    let plan = try_message(&input).unwrap();
    assert!(!plan.named);
    assert_eq!(plan.fields[0].tags, vec![1]);
}

#[test]
fn message_rejects_enum_union_and_generics() {
    let e = DeriveInput { generic: false, data: Data::Enum(Vec::new()) };
    assert_eq!(try_message(&e).unwrap_err(), Error::MessageOnEnum);
    let u = DeriveInput { generic: false, data: Data::Union };
    assert_eq!(try_message(&u).unwrap_err(), Error::MessageOnUnion);
    let g = DeriveInput { generic: true, data: Data::Struct(Fields::Unit) };
    assert_eq!(try_message(&g).unwrap_err(), Error::Generic);
}

#[test]
fn field_errors_name_the_field() {
    let missing = record(vec![implicit(FieldKind::Scalar), implicit(FieldKind::Oneof)]);
    assert_eq!(
        try_message(&missing).unwrap_err(),
        Error::InvalidField { index: 1, reason: FieldError::MissingTag }
    );
    let multiple = record(vec![explicit(FieldKind::Scalar, vec![1, 2])]);
    assert_eq!(
        try_message(&multiple).unwrap_err(),
        Error::InvalidField { index: 0, reason: FieldError::MultipleTags }
    );
    let zero = record(vec![explicit(FieldKind::Scalar, vec![0])]);
    assert_eq!(
        try_message(&zero).unwrap_err(),
        Error::InvalidField { index: 0, reason: FieldError::TagOutOfRange }
    );
    let too_large = record(vec![explicit(FieldKind::Scalar, vec![MAX_TAG]), implicit(FieldKind::Scalar)]);
    assert_eq!(
        try_message(&too_large).unwrap_err(),
        Error::InvalidField { index: 1, reason: FieldError::TagOutOfRange }
    );
}

#[test]
fn largest_tag_is_accepted() {
    let input = record(vec![explicit(FieldKind::Scalar, vec![MAX_TAG])]);
    assert_eq!(tags_of(&input), vec![vec![536_870_911]]);
}

#[test]
fn first_field_error_wins_over_duplicates() {
    let input = record(vec![
        explicit(FieldKind::Scalar, vec![1]),
        explicit(FieldKind::Scalar, vec![1]),
        explicit(FieldKind::Scalar, vec![0]),
    ]);
    assert_eq!(
        try_message(&input).unwrap_err(),
        Error::InvalidField { index: 2, reason: FieldError::TagOutOfRange }
    );
}

#[test]
fn tag_helpers() {
    assert_eq!(min_of(&vec![5, 3, 9]), 3);
    assert_eq!(max_of(&vec![5, 3, 9]), 9);
    assert!(has_duplicates(&vec![1, 2, 1]));
    assert!(!has_duplicates(&vec![1, 2, 3]));
    assert!(!has_duplicates(&Vec::new()));
    assert_eq!(stable_order(&vec![3, 1, 3, 2, 1]), vec![1, 4, 3, 0, 2]);
    assert_eq!(stable_order(&Vec::new()), Vec::<usize>::new());
}

#[test]
fn resolve_uses_next_tag_only_when_none_given() {
    let f = implicit(FieldKind::Scalar).resolve(3, 8).unwrap().unwrap();
    assert_eq!((f.decl, f.kind, f.tags), (3, FieldKind::Scalar, vec![8]));
    let g = explicit(FieldKind::Message, vec![2]).resolve(0, 8).unwrap().unwrap();
    assert_eq!(g.tags, vec![2]);
    assert!(ignored().resolve(0, 1).unwrap().is_none());
    assert_eq!(implicit(FieldKind::Scalar).resolve(0, 0).unwrap_err(), FieldError::TagOutOfRange);
}

#[test]
fn resolve_variant_never_infers_a_tag() {
    assert_eq!(implicit(FieldKind::Scalar).resolve_variant(0).unwrap_err(), FieldError::MissingTag);
    let f = explicit(FieldKind::Scalar, vec![4, 5]).resolve_variant(1).unwrap().unwrap();
    assert_eq!((f.decl, f.tags), (1, vec![4, 5]));
    assert!(ignored().resolve_variant(0).unwrap().is_none());
}
