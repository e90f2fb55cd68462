use vstd::prelude::*;
use crate::error::Error;

verus! {

/// An item of the impl block that an enumeration is declared by.
#[derive(Clone, Copy, Debug, PartialEq, Eq, Structural)]
pub enum ImplItemDecl {
    /// An associated constant, with its integer value.
    Const(i32),
    /// Any other item.
    Other,
}

/// An impl block declaring an enumeration's constants.
#[derive(Debug)]
pub struct ImplDecl {
    /// Whether it has type parameters or a where clause.
    pub generic: bool,
    /// Whether it implements a trait.
    pub trait_impl: bool,
    pub items: Vec<ImplItemDecl>,
}

/// A value of an enumeration: a raw integer, which need not be one of the
/// declared constants.
#[derive(Clone, Copy, Debug, PartialEq, Eq, Structural)]
pub struct EnumValue(pub i32);

/// `i` is the first item that is not a constant.
pub open spec fn first_non_const(items: Seq<ImplItemDecl>, i: int) -> bool {
    &&& 0 <= i < items.len()
    &&& items[i] is Other
    &&& forall|j: int| 0 <= j < i ==> (#[trigger] items[j]) is Const
}

/// The values of the declared constants, or why the impl does not declare
/// an enumeration.
pub open spec fn enumeration_spec(decl: ImplDecl) -> Result<Seq<i32>, Error> {
    let items = decl.items@;
    if decl.generic {
        Err(Error::Generic)
    } else if decl.trait_impl {
        Err(Error::EnumerationTraitImpl)
    } else if exists|i: int| first_non_const(items, i) {
        Err(Error::EnumerationNonConst { index: (choose|i: int| first_non_const(items, i)) as usize })
    } else if items.len() == 0 {
        Err(Error::EnumerationEmpty)
    } else {
        Ok(Seq::new(items.len(), |i: int| items[i]->Const_0))
    }
}

/// What an enumeration's validity check, default and conversions are
/// generated from.
#[derive(Debug)]
pub struct EnumerationPlan {
    /// The declared constants' values, in declaration order.
    pub values: Vec<i32>,
}

impl EnumerationPlan {
    /// At least one constant is declared.
    pub open spec fn wf(&self) -> bool {
        self.values@.len() > 0
    }

    /// Whether `v` is one of the declared constants.
    pub fn is_valid(&self, v: EnumValue) -> (r: bool)
        ensures
            r == self.values@.contains(v.0),
    {
        let mut i: usize = 0;
        while i < self.values.len()
            invariant
                0 <= i <= self.values@.len(),
                forall|k: int| 0 <= k < i ==> self.values@[k] != v.0,
            decreases self.values@.len() - i,
        {
            if self.values[i] == v.0 {
                assert(self.values@[i as int] == v.0);
                return true;
            }
            i = i + 1;
        }
        false
    }

    /// The first declared constant.
    pub fn default_value(&self) -> (r: EnumValue)
        requires
            self.wf(),
        ensures
            r.0 == self.values@[0],
    {
        EnumValue(self.values[0])
    }
}

impl EnumValue {
    /// Takes a raw integer as it is, declared constant or not.
    pub fn from_raw(raw: i32) -> (r: EnumValue)
        ensures
            r.0 == raw,
    {
        EnumValue(raw)
    }

    /// The raw integer.
    pub fn into_raw(self) -> (r: i32)
        ensures
            r == self.0,
    {
        self.0
    }
}

impl From<i32> for EnumValue {
    fn from(raw: i32) -> (r: EnumValue) {
        EnumValue(raw)
    }
}

impl vstd::std_specs::convert::FromSpecImpl<i32> for EnumValue {
    open spec fn obeys_from_spec() -> bool {
        true
    }

    open spec fn from_spec(raw: i32) -> EnumValue {
        EnumValue(raw)
    }
}

impl From<EnumValue> for i32 {
    fn from(v: EnumValue) -> (r: i32) {
        v.0
    }
}

impl vstd::std_specs::convert::FromSpecImpl<EnumValue> for i32 {
    open spec fn obeys_from_spec() -> bool {
        true
    }

    open spec fn from_spec(v: EnumValue) -> i32 {
        v.0
    }
}

/// Compiles an enumeration's impl block: no type parameters, no trait,
/// only constants, and at least one; the first is the default.
pub fn try_enumeration(decl: &ImplDecl) -> (r: Result<EnumerationPlan, Error>)
    ensures
        match enumeration_spec(*decl) {
            Ok(vals) => r is Ok && r->Ok_0.values@ == vals && r->Ok_0.wf(),
            Err(e) => r == Err::<EnumerationPlan, Error>(e),
        },
{
    if decl.generic {
        return Err(Error::Generic);
    }
    if decl.trait_impl {
        return Err(Error::EnumerationTraitImpl);
    }
    let ghost items = decl.items@;
    let mut values: Vec<i32> = Vec::new();
    let mut i: usize = 0;
    while i < decl.items.len()
        invariant
            0 <= i <= items.len(),
            items == decl.items@,
            !decl.generic,
            !decl.trait_impl,
            forall|j: int| 0 <= j < i ==> (#[trigger] items[j]) is Const,
            values@ == Seq::new(i as nat, |j: int| items[j]->Const_0),
        decreases items.len() - i,
    {
        match decl.items[i] {
            ImplItemDecl::Const(v) => {
                values.push(v);
                assert(values@ == Seq::new(i as nat + 1, |j: int| items[j]->Const_0));
            },
            ImplItemDecl::Other => {
                proof {
                    assert(first_non_const(items, i as int));
                    let c = choose|k: int| first_non_const(items, k);
                    if c < i {
                        assert(items[c] is Const);
                    } else if c > i {
                        assert(items[i as int] is Const);
                    }
                }
                return Err(Error::EnumerationNonConst { index: i });
            },
        }
        i = i + 1;
    }
    assert(!exists|k: int| first_non_const(items, k));
    if values.len() == 0 {
        return Err(Error::EnumerationEmpty);
    }
    Ok(EnumerationPlan { values })
}

/// `try_enumeration` on an impl block known to declare an enumeration.
pub fn enumeration(decl: &ImplDecl) -> (r: EnumerationPlan)
    requires
        enumeration_spec(*decl) is Ok,
    ensures
        r.values@ == enumeration_spec(*decl)->Ok_0,
        r.wf(),
{
    match try_enumeration(decl) {
        Ok(p) => p,
        Err(_) => {
            assert(false);
            EnumerationPlan { values: Vec::new() }
        },
    }
}

} // verus!
