use vstd::prelude::*;
use crate::tags::{all_in_range, max_of, seq_max, tag_in_range, MAX_TAG, MIN_TAG};

verus! {

/// How a field is stored and put on the wire.
#[derive(Clone, Copy, Debug, PartialEq, Eq, Structural)]
pub enum FieldKind {
    Scalar,
    Message,
    /// A map field: one tag, key and value pairs on the wire.
    KeyValue,
    Group,
    /// A field holding a sum type: one tag for each of its variants.
    Oneof,
}

/// What a declared field's attributes say: whether it is excluded, its
/// kind, and the tags written out for it (none when it takes the next free
/// tag).
#[derive(Debug)]
pub struct FieldAttrs {
    pub ignore: bool,
    pub kind: FieldKind,
    pub tags: Vec<u32>,
}

/// Why a field's attributes do not describe a field.
#[derive(Clone, Copy, Debug, PartialEq, Eq, Structural)]
pub enum FieldError {
    /// No tag was given where one is required.
    MissingTag,
    /// Several tags were given to a kind that takes one.
    MultipleTags,
    /// A tag lies outside `MIN_TAG..=MAX_TAG`.
    TagOutOfRange,
    /// A sum type's variant may not itself hold a sum type.
    NestedOneof,
}

/// A resolved field: the position of its declaration, its kind and tags.
#[derive(Debug)]
pub struct Field {
    pub decl: usize,
    pub kind: FieldKind,
    pub tags: Vec<u32>,
}

/// The mathematical value of a resolved field.
pub struct FieldSpec {
    pub decl: nat,
    pub kind: FieldKind,
    pub tags: Seq<u32>,
}

impl View for Field {
    type V = FieldSpec;

    open spec fn view(&self) -> FieldSpec {
        FieldSpec { decl: self.decl as nat, kind: self.kind, tags: self.tags@ }
    }
}

/// The values of a list of resolved fields.
pub open spec fn fields_view(v: Seq<Field>) -> Seq<FieldSpec> {
    v.map_values(|f: Field| f@)
}

/// Resolution of a record field whose implicit tag would be `next_tag`:
/// `None` for an ignored field, else its tags.
pub open spec fn resolve_spec(ignore: bool, kind: FieldKind, tags: Seq<u32>, next_tag: u32) -> Result<
    Option<Seq<u32>>,
    FieldError,
> {
    if ignore {
        Ok(None)
    } else if tags.len() == 0 {
        if kind == FieldKind::Oneof {
            Err(FieldError::MissingTag)
        } else if !tag_in_range(next_tag) {
            Err(FieldError::TagOutOfRange)
        } else {
            Ok(Some(seq![next_tag]))
        }
    } else if kind != FieldKind::Oneof && tags.len() > 1 {
        Err(FieldError::MultipleTags)
    } else if !all_in_range(tags) {
        Err(FieldError::TagOutOfRange)
    } else {
        Ok(Some(tags))
    }
}

/// Resolution of a sum type's variant: its tags are never implicit.
pub open spec fn resolve_variant_spec(ignore: bool, kind: FieldKind, tags: Seq<u32>) -> Result<
    Option<Seq<u32>>,
    FieldError,
> {
    if ignore {
        Ok(None)
    } else if kind == FieldKind::Oneof {
        Err(FieldError::NestedOneof)
    } else if tags.len() == 0 {
        Err(FieldError::MissingTag)
    } else if !all_in_range(tags) {
        Err(FieldError::TagOutOfRange)
    } else {
        Ok(Some(tags))
    }
}

fn check_range(tags: &Vec<u32>) -> (r: bool)
    ensures
        r == all_in_range(tags@),
{
    let mut i: usize = 0;
    while i < tags.len()
        invariant
            0 <= i <= tags@.len(),
            forall|k: int| 0 <= k < i ==> #[trigger] tag_in_range(tags@[k]),
        decreases tags@.len() - i,
    {
        if tags[i] < MIN_TAG || tags[i] > MAX_TAG {
            assert(!tag_in_range(tags@[i as int]));
            return false;
        }
        i = i + 1;
    }
    true
}

impl FieldAttrs {
    /// Resolves a record field declared at position `decl`, whose implicit
    /// tag would be `next_tag`.
    pub fn resolve(&self, decl: usize, next_tag: u32) -> (r: Result<Option<Field>, FieldError>)
        ensures
            match resolve_spec(self.ignore, self.kind, self.tags@, next_tag) {
                Ok(None) => r is Ok && r->Ok_0 is None,
                Ok(Some(tags)) => r is Ok && r->Ok_0 is Some && r->Ok_0->Some_0@ == (FieldSpec {
                    decl: decl as nat,
                    kind: self.kind,
                    tags,
                }),
                Err(e) => r == Err::<Option<Field>, FieldError>(e),
            },
    {
        if self.ignore {
            Ok(None)
        } else if self.tags.len() == 0 {
            if self.kind == FieldKind::Oneof {
                Err(FieldError::MissingTag)
            } else if next_tag < MIN_TAG || next_tag > MAX_TAG {
                Err(FieldError::TagOutOfRange)
            } else {
                let mut tags: Vec<u32> = Vec::new();
                tags.push(next_tag);
                assert(tags@ == seq![next_tag]);
                Ok(Some(Field { decl, kind: self.kind, tags }))
            }
        } else if self.kind != FieldKind::Oneof && self.tags.len() > 1 {
            Err(FieldError::MultipleTags)
        } else if !check_range(&self.tags) {
            Err(FieldError::TagOutOfRange)
        } else {
            Ok(Some(Field { decl, kind: self.kind, tags: self.tags.clone() }))
        }
    }

    /// Resolves the payload of a sum type's variant declared at position
    /// `decl`.
    pub fn resolve_variant(&self, decl: usize) -> (r: Result<Option<Field>, FieldError>)
        ensures
            match resolve_variant_spec(self.ignore, self.kind, self.tags@) {
                Ok(None) => r is Ok && r->Ok_0 is None,
                Ok(Some(tags)) => r is Ok && r->Ok_0 is Some && r->Ok_0->Some_0@ == (FieldSpec {
                    decl: decl as nat,
                    kind: self.kind,
                    tags,
                }),
                Err(e) => r == Err::<Option<Field>, FieldError>(e),
            },
    {
        if self.ignore {
            Ok(None)
        } else if self.kind == FieldKind::Oneof {
            Err(FieldError::NestedOneof)
        } else if self.tags.len() == 0 {
            Err(FieldError::MissingTag)
        } else if !check_range(&self.tags) {
            Err(FieldError::TagOutOfRange)
        } else {
            Ok(Some(Field { decl, kind: self.kind, tags: self.tags.clone() }))
        }
    }
}

/// The tag after the largest of a resolved field's tags.
pub open spec fn tag_after(tags: Seq<u32>) -> u32 {
    (seq_max(tags) + 1) as u32
}

/// The implicit tag of the field declared after one with these tags.
pub fn next_tag_after(tags: &Vec<u32>) -> (r: u32)
    requires
        tags@.len() > 0,
        all_in_range(tags@),
    ensures
        r == tag_after(tags@),
        r as int == seq_max(tags@) + 1,
{
    proof {
        crate::tags::lemma_seq_min_max(tags@);
        let k = choose|k: int| 0 <= k < tags@.len() && tags@[k] == seq_max(tags@);
        assert(tag_in_range(tags@[k]));
    }
    max_of(tags) + 1
}

} // verus!
