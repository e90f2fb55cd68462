use vstd::prelude::*;
use crate::field::FieldAttrs;

verus! {

/// The fields of a declared record.
#[derive(Debug)]
pub enum Fields {
    Named(Vec<FieldAttrs>),
    Unnamed(Vec<FieldAttrs>),
    Unit,
}

/// A declared variant of a sum type: how many fields it holds, and the
/// attributes that describe its payload.
#[derive(Debug)]
pub struct VariantDecl {
    pub num_fields: usize,
    pub attrs: FieldAttrs,
}

/// What kind of type is declared.
#[derive(Debug)]
pub enum Data {
    Struct(Fields),
    Enum(Vec<VariantDecl>),
    Union,
}

/// A type declaration handed to a derive.
#[derive(Debug)]
pub struct DeriveInput {
    /// Whether it has type parameters or a where clause.
    pub generic: bool,
    pub data: Data,
}

impl Fields {
    /// The declared fields' attributes, in declaration order.
    pub open spec fn decls(&self) -> Seq<FieldAttrs> {
        match self {
            Fields::Named(v) => v@,
            Fields::Unnamed(v) => v@,
            Fields::Unit => seq![],
        }
    }
}

} // verus!
