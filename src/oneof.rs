use vstd::prelude::*;
use crate::error::Error;
use crate::field::{fields_view, resolve_variant_spec, Field, FieldSpec};
use crate::input::{Data, DeriveInput, VariantDecl};
use crate::tags::{all_in_range, has_duplicates, no_dup};

verus! {

/// Resolution of the first `n` declared variants, or the first failure.
pub open spec fn variants_prefix(vs: Seq<VariantDecl>, n: int) -> Result<Seq<FieldSpec>, Error>
    decreases n,
{
    if n <= 0 {
        Ok(seq![])
    } else {
        match variants_prefix(vs, n - 1) {
            Err(e) => Err(e),
            Ok(acc) => {
                let v = vs[n - 1];
                let index = (n - 1) as usize;
                if v.num_fields != 1 {
                    Err(Error::VariantFieldCount { index })
                } else {
                    match resolve_variant_spec(v.attrs.ignore, v.attrs.kind, v.attrs.tags@) {
                        Err(reason) => Err(Error::InvalidVariant { index, reason }),
                        Ok(None) => Err(Error::IgnoredVariant { index }),
                        Ok(Some(tags)) => Ok(
                            acc.push(FieldSpec { decl: index as nat, kind: v.attrs.kind, tags }),
                        ),
                    }
                }
            },
        }
    }
}

/// `i` is the first variant with more than one tag.
pub open spec fn first_multi_tag(fs: Seq<FieldSpec>, i: int) -> bool {
    &&& 0 <= i < fs.len()
    &&& fs[i].tags.len() > 1
    &&& forall|j: int| 0 <= j < i ==> (#[trigger] fs[j]).tags.len() <= 1
}

/// The tag of each variant.
pub open spec fn variant_tags(fs: Seq<FieldSpec>) -> Seq<u32> {
    Seq::new(fs.len(), |i: int| fs[i].tags[0])
}

/// The variants that a sum-type declaration compiles to, or why it does
/// not compile.
pub open spec fn oneof_spec(input: DeriveInput) -> Result<Seq<FieldSpec>, Error> {
    match input.data {
        Data::Struct(_) => Err(Error::OneofOnStruct),
        Data::Union => Err(Error::OneofOnUnion),
        Data::Enum(vs) => if input.generic {
            Err(Error::Generic)
        } else {
            match variants_prefix(vs@, vs@.len() as int) {
                Err(e) => Err(e),
                Ok(fs) => if exists|i: int| first_multi_tag(fs, i) {
                    Err(
                        Error::VariantMultipleTags {
                            index: (choose|i: int| first_multi_tag(fs, i)) as usize,
                        },
                    )
                } else if !no_dup(variant_tags(fs)) {
                    Err(Error::DuplicateVariantTags)
                } else {
                    Ok(fs)
                },
            }
        },
    }
}

/// What a sum-type codec is generated from.
#[derive(Debug)]
pub struct OneofPlan {
    /// The payload of each variant, in declaration order.
    pub variants: Vec<Field>,
}

/// What a merge of one wire fragment does to the active variant.
#[derive(Clone, Copy, Debug, PartialEq, Eq, Structural)]
pub enum MergeAction {
    /// The variant is already active: merge into its payload in place.
    InPlace(usize),
    /// Merge into a fresh default payload of the variant, and make it the
    /// active one if that merge succeeds.
    Replace(usize),
}

/// The active variant once a merge has run, given whether the payload's
/// merge succeeded.
pub open spec fn after_merge_spec(active: Option<usize>, action: MergeAction, ok: bool) -> Option<usize> {
    match action {
        MergeAction::InPlace(i) => active,
        MergeAction::Replace(i) => if ok {
            Some(i)
        } else {
            active
        },
    }
}

impl OneofPlan {
    /// The tag of variant `i`.
    pub open spec fn tag_of(&self, i: int) -> u32 {
        self.variants@[i].tags@[0]
    }

    /// Each variant has one valid tag, and no two share it.
    pub open spec fn wf(&self) -> bool {
        let fs = fields_view(self.variants@);
        &&& forall|i: int|
            0 <= i < fs.len() ==> (#[trigger] fs[i]).tags.len() == 1 && all_in_range(fs[i].tags)
        &&& no_dup(variant_tags(fs))
    }

    /// The variant whose tag is `tag`.
    pub fn variant_for_tag(&self, tag: u32) -> (r: Option<usize>)
        requires
            self.wf(),
        ensures
            r matches Some(i) ==> i < self.variants@.len() && self.tag_of(i as int) == tag,
            r is None ==> forall|i: int| 0 <= i < self.variants@.len() ==> self.tag_of(i) != tag,
    {
        let mut i: usize = 0;
        while i < self.variants.len()
            invariant
                0 <= i <= self.variants@.len(),
                self.wf(),
                forall|k: int| 0 <= k < i ==> self.tag_of(k) != tag,
            decreases self.variants@.len() - i,
        {
            assert(fields_view(self.variants@)[i as int] == self.variants@[i as int]@);
            if self.variants[i].tags[0] == tag {
                return Some(i);
            }
            i = i + 1;
        }
        None
    }

    /// How a fragment with `tag` is merged while `active` is the active
    /// variant: `None` when no variant has that tag, which a caller that
    /// routes tags correctly never meets.
    pub fn merge_action(&self, active: Option<usize>, tag: u32) -> (r: Option<MergeAction>)
        requires
            self.wf(),
        ensures
            (forall|i: int| 0 <= i < self.variants@.len() ==> self.tag_of(i) != tag) ==> r is None,
            forall|i: int|
                0 <= i < self.variants@.len() && self.tag_of(i) == tag ==> r == Some(
                    if active == Some(i as usize) {
                        MergeAction::InPlace(i as usize)
                    } else {
                        MergeAction::Replace(i as usize)
                    },
                ),
    {
        match self.variant_for_tag(tag) {
            None => None,
            Some(i) => {
                proof {
                    let fs = fields_view(self.variants@);
                    assert forall|k: int|
                        0 <= k < self.variants@.len() && self.tag_of(k) == tag implies k == i by {
                        assert(fs[k] == self.variants@[k]@);
                        assert(fs[i as int] == self.variants@[i as int]@);
                        assert(variant_tags(fs)[k] == variant_tags(fs)[i as int]);
                    }
                }
                match active {
                    Some(a) => if a == i {
                        Some(MergeAction::InPlace(i))
                    } else {
                        Some(MergeAction::Replace(i))
                    },
                    None => Some(MergeAction::Replace(i)),
                }
            },
        }
    }
}

/// The active variant once `action` has run and the payload's merge
/// reported `ok`: in-place merges keep the variant, a replacement takes
/// effect only on success.
pub fn after_merge(active: Option<usize>, action: MergeAction, ok: bool) -> (r: Option<usize>)
    ensures
        r == after_merge_spec(active, action, ok),
{
    match action {
        MergeAction::InPlace(_) => active,
        MergeAction::Replace(i) => if ok {
            Some(i)
        } else {
            active
        },
    }
}

proof fn lemma_variants_err(vs: Seq<VariantDecl>, i: int, n: int)
    requires
        0 <= i <= n,
        variants_prefix(vs, i) is Err,
    ensures
        variants_prefix(vs, n) == variants_prefix(vs, i),
    decreases n - i,
{
    if n > i {
        lemma_variants_err(vs, i, n - 1);
    }
}

proof fn lemma_variants_valid(vs: Seq<VariantDecl>, n: int)
    requires
        variants_prefix(vs, n) is Ok,
    ensures
        forall|j: int|
            0 <= j < variants_prefix(vs, n)->Ok_0.len() ==> (#[trigger] variants_prefix(vs, n)->Ok_0[j]).tags.len() > 0
                && all_in_range(variants_prefix(vs, n)->Ok_0[j].tags),
    decreases n,
{
    if n > 0 {
        lemma_variants_valid(vs, n - 1);
        let acc = variants_prefix(vs, n - 1)->Ok_0;
        let fs = variants_prefix(vs, n)->Ok_0;
        assert forall|j: int| 0 <= j < fs.len() implies (#[trigger] fs[j]).tags.len() > 0 && all_in_range(fs[j].tags) by {
            if j < acc.len() {
                assert(fs[j] == acc[j]);
            }
        }
    }
}

/// Compiles a sum-type declaration: each variant holds exactly one field
/// with exactly one explicit tag, and no two variants share a tag.
pub fn try_oneof(input: &DeriveInput) -> (r: Result<OneofPlan, Error>)
    ensures
        match oneof_spec(*input) {
            Ok(fs) => r is Ok && fields_view(r->Ok_0.variants@) == fs && r->Ok_0.wf(),
            Err(e) => r == Err::<OneofPlan, Error>(e),
        },
{
    let decls = match &input.data {
        Data::Enum(v) => v,
        Data::Struct(_) => return Err(Error::OneofOnStruct),
        Data::Union => return Err(Error::OneofOnUnion),
    };
    if input.generic {
        return Err(Error::Generic);
    }
    let mut fields: Vec<Field> = Vec::new();
    let mut i: usize = 0;
    assert(fields_view(fields@) == Seq::<FieldSpec>::empty());
    while i < decls.len()
        invariant
            0 <= i <= decls@.len(),
            input.data == Data::Enum(*decls),
            !input.generic,
            variants_prefix(decls@, i as int) == Ok::<Seq<FieldSpec>, Error>(fields_view(fields@)),
        decreases decls@.len() - i,
    {
        let v = &decls[i];
        if v.num_fields != 1 {
            proof {
                lemma_variants_err(decls@, i as int + 1, decls@.len() as int);
            }
            return Err(Error::VariantFieldCount { index: i });
        }
        match v.attrs.resolve_variant(i) {
            Err(reason) => {
                proof {
                    lemma_variants_err(decls@, i as int + 1, decls@.len() as int);
                }
                return Err(Error::InvalidVariant { index: i, reason });
            },
            Ok(None) => {
                proof {
                    lemma_variants_err(decls@, i as int + 1, decls@.len() as int);
                }
                return Err(Error::IgnoredVariant { index: i });
            },
            Ok(Some(f)) => {
                let ghost before = fields@;
                fields.push(f);
                assert(fields_view(fields@) == fields_view(before).push(f@));
            },
        }
        i = i + 1;
    }
    let ghost fs = fields_view(fields@);
    proof {
        lemma_variants_valid(decls@, decls@.len() as int);
    }
    assert(oneof_spec(*input) == (if exists|i: int| first_multi_tag(fs, i) {
        Err(Error::VariantMultipleTags { index: (choose|i: int| first_multi_tag(fs, i)) as usize })
    } else if !no_dup(variant_tags(fs)) {
        Err(Error::DuplicateVariantTags)
    } else {
        Ok::<Seq<FieldSpec>, Error>(fs)
    }));
    let mut tags: Vec<u32> = Vec::new();
    let mut k: usize = 0;
    while k < fields.len()
        invariant
            0 <= k <= fields@.len(),
            fs == fields_view(fields@),
            input.data == Data::Enum(*decls),
            !input.generic,
            variants_prefix(decls@, decls@.len() as int) == Ok::<Seq<FieldSpec>, Error>(fs),
            forall|j: int| 0 <= j < fs.len() ==> (#[trigger] fs[j]).tags.len() > 0 && all_in_range(fs[j].tags),
            forall|j: int| 0 <= j < k ==> (#[trigger] fs[j]).tags.len() <= 1,
            tags@ == variant_tags(fs).take(k as int),
        decreases fields@.len() - k,
    {
        assert(fs[k as int] == fields@[k as int]@);
        if fields[k].tags.len() > 1 {
            proof {
                assert(first_multi_tag(fs, k as int));
                let c = choose|i: int| first_multi_tag(fs, i);
                if c < k {
                    assert(fs[c].tags.len() <= 1);
                } else if c > k {
                    assert(fs[k as int].tags.len() <= 1);
                }
            }
            return Err(Error::VariantMultipleTags { index: k });
        }
        tags.push(fields[k].tags[0]);
        assert(tags@ == variant_tags(fs).take(k as int + 1));
        k = k + 1;
    }
    assert(tags@ == variant_tags(fs));
    assert(!exists|i: int| first_multi_tag(fs, i));
    if has_duplicates(&tags) {
        return Err(Error::DuplicateVariantTags);
    }
    Ok(OneofPlan { variants: fields })
}

/// `try_oneof` on a declaration known to compile.
pub fn oneof(input: &DeriveInput) -> (r: OneofPlan)
    requires
        oneof_spec(*input) is Ok,
    ensures
        fields_view(r.variants@) == oneof_spec(*input)->Ok_0,
        r.wf(),
{
    match try_oneof(input) {
        Ok(p) => p,
        Err(_) => {
            assert(false);
            OneofPlan { variants: Vec::new() }
        },
    }
}

} // verus!
