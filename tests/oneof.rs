use prost_derive::error::Error;
use prost_derive::field::{FieldAttrs, FieldError, FieldKind};
use prost_derive::input::{Data, DeriveInput, Fields, VariantDecl};
use prost_derive::oneof::{after_merge, oneof, try_oneof, MergeAction};

fn variant(tags: Vec<u32>) -> VariantDecl {
    VariantDecl { num_fields: 1, attrs: FieldAttrs { ignore: false, kind: FieldKind::Scalar, tags } }
}

fn sum(variants: Vec<VariantDecl>) -> DeriveInput {
    DeriveInput { generic: false, data: Data::Enum(variants) }
}

#[test]
fn oneof_resolves_variant_tags() {
    let plan = oneof(&sum(vec![variant(vec![1]), variant(vec![2])]));
    assert_eq!(plan.variants.len(), 2);
    assert_eq!(plan.variants[0].tags, vec![1]);
    assert_eq!(plan.variants[1].tags, vec![2]);
    assert_eq!(plan.variant_for_tag(2), Some(1));
    assert_eq!(plan.variant_for_tag(3), None);
}

#[test]
fn switching_variant_replaces_the_active_one() {
    let plan = try_oneof(&sum(vec![variant(vec![1]), variant(vec![2])])).unwrap();
    // A is active; a tag-2 fragment makes a fresh B.
    let action = plan.merge_action(Some(0), 2).unwrap();
    assert_eq!(action, MergeAction::Replace(1));
    assert_eq!(after_merge(Some(0), action, true), Some(1));
    // A failed merge leaves A in place.
    assert_eq!(after_merge(Some(0), action, false), Some(0));
}

#[test]
fn repeated_fragments_merge_into_the_same_variant() {
    let plan = try_oneof(&sum(vec![variant(vec![1]), variant(vec![2])])).unwrap();
    let first = plan.merge_action(Some(0), 1).unwrap();
    assert_eq!(first, MergeAction::InPlace(0));
    let active = after_merge(Some(0), first, true);
    let second = plan.merge_action(active, 1).unwrap();
    assert_eq!(second, MergeAction::InPlace(0));
    assert_eq!(after_merge(active, second, true), Some(0));
}

#[test]
fn empty_slot_gets_a_fresh_variant() {
    let plan = try_oneof(&sum(vec![variant(vec![1]), variant(vec![2])])).unwrap();
    let action = plan.merge_action(None, 1).unwrap();
    assert_eq!(action, MergeAction::Replace(0));
    assert_eq!(after_merge(None, action, true), Some(0));
    assert_eq!(after_merge(None, action, false), None);
}

#[test]
fn unknown_tag_has_no_merge_action() {
    let plan = try_oneof(&sum(vec![variant(vec![1]), variant(vec![2])])).unwrap();
    assert_eq!(plan.merge_action(Some(0), 7), None);
}

#[test]
fn duplicate_variant_tags_abort() {
    let err = try_oneof(&sum(vec![variant(vec![3]), variant(vec![3])])).unwrap_err();
    assert_eq!(err, Error::DuplicateVariantTags);
    assert!(err.is_fatal());
    assert!(!Error::DuplicateTags.is_fatal());
}

#[test]
fn variant_with_several_tags_is_rejected() {
    let err = try_oneof(&sum(vec![variant(vec![1]), variant(vec![2, 3])])).unwrap_err();
    assert_eq!(err, Error::VariantMultipleTags { index: 1 });
    assert!(!err.is_fatal());
}

#[test]
fn malformed_variants_are_rejected() {
    let mut two_fields = variant(vec![1]);
    two_fields.num_fields = 2;
    assert_eq!(try_oneof(&sum(vec![two_fields])).unwrap_err(), Error::VariantFieldCount { index: 0 });
    let mut unit = variant(vec![1]);
    unit.num_fields = 0;
    assert_eq!(try_oneof(&sum(vec![variant(vec![1]), unit])).unwrap_err(), Error::VariantFieldCount { index: 1 });
    let mut skipped = variant(vec![1]);
    skipped.attrs.ignore = true;
    assert_eq!(try_oneof(&sum(vec![skipped])).unwrap_err(), Error::IgnoredVariant { index: 0 });
    assert_eq!(
        try_oneof(&sum(vec![variant(Vec::new())])).unwrap_err(),
        Error::InvalidVariant { index: 0, reason: FieldError::MissingTag }
    );
    let mut nested = variant(vec![1]);
    nested.attrs.kind = FieldKind::Oneof;
    assert_eq!(
        try_oneof(&sum(vec![nested])).unwrap_err(),
        Error::InvalidVariant { index: 0, reason: FieldError::NestedOneof }
    );
    assert_eq!(
        try_oneof(&sum(vec![variant(vec![0])])).unwrap_err(),
        Error::InvalidVariant { index: 0, reason: FieldError::TagOutOfRange }
    );
}

#[test]
fn oneof_rejects_struct_union_and_generics() {
    let s = DeriveInput { generic: false, data: Data::Struct(Fields::Unit) };
    assert_eq!(try_oneof(&s).unwrap_err(), Error::OneofOnStruct);
    let u = DeriveInput { generic: false, data: Data::Union };
    assert_eq!(try_oneof(&u).unwrap_err(), Error::OneofOnUnion);
    let g = DeriveInput { generic: true, data: Data::Enum(vec![variant(vec![1])]) };
    assert_eq!(try_oneof(&g).unwrap_err(), Error::Generic);
}

#[test]
fn empty_sum_type_compiles() {
    let plan = try_oneof(&sum(Vec::new())).unwrap();
    assert!(plan.variants.is_empty());
}
