use vstd::prelude::*;
use crate::error::Error;
use crate::field::{FieldKind, fields_view, next_tag_after, resolve_spec, tag_after, Field, FieldAttrs, FieldSpec};
use crate::input::{Data, DeriveInput, Fields};
use crate::tags::{MAX_TAG, seq_max, all_in_range, has_duplicates, is_stable_order, min_of, no_dup, seq_min, stable_order};

verus! {

/// Resolution of the first `n` declared fields, in declaration order:
/// the resolved fields and the next implicit tag, or the first failure.
/// Implicit tags start at 1; after each resolved field the next one is its
/// largest tag plus one.
pub open spec fn resolve_prefix(decls: Seq<FieldAttrs>, n: int) -> Result<(Seq<FieldSpec>, u32), Error>
    decreases n,
{
    if n <= 0 {
        Ok((seq![], 1u32))
    } else {
        match resolve_prefix(decls, n - 1) {
            Err(e) => Err(e),
            Ok((acc, next)) => {
                let d = decls[n - 1];
                match resolve_spec(d.ignore, d.kind, d.tags@, next) {
                    Err(reason) => Err(Error::InvalidField { index: (n - 1) as usize, reason }),
                    Ok(None) => Ok((acc, next)),
                    Ok(Some(tags)) => Ok(
                        (
                            acc.push(FieldSpec { decl: (n - 1) as nat, kind: d.kind, tags }),
                            tag_after(tags),
                        ),
                    ),
                }
            },
        }
    }
}

/// Every tag of every field, field after field.
pub open spec fn all_tags(fs: Seq<FieldSpec>) -> Seq<u32>
    decreases fs.len(),
{
    if fs.len() == 0 {
        seq![]
    } else {
        all_tags(fs.drop_last()) + fs.last().tags
    }
}

/// The smallest tag of each field: the key the encoder orders fields by.
pub open spec fn min_keys(fs: Seq<FieldSpec>) -> Seq<u32> {
    Seq::new(fs.len(), |i: int| seq_min(fs[i].tags))
}

/// The fields that a record declaration compiles to, in declaration order,
/// or why it does not compile.
pub open spec fn message_spec(input: DeriveInput) -> Result<Seq<FieldSpec>, Error> {
    match input.data {
        Data::Enum(_) => Err(Error::MessageOnEnum),
        Data::Union => Err(Error::MessageOnUnion),
        Data::Struct(fields) => if input.generic {
            Err(Error::Generic)
        } else {
            let decls = fields.decls();
            match resolve_prefix(decls, decls.len() as int) {
                Err(e) => Err(e),
                Ok((fs, _)) => if no_dup(all_tags(fs)) {
                    Ok(fs)
                } else {
                    Err(Error::DuplicateTags)
                },
            }
        },
    }
}

/// What a record codec is generated from.
#[derive(Debug)]
pub struct MessagePlan {
    /// The resolved fields in declaration order: the order of the debug
    /// representation and of the default constructor.
    pub fields: Vec<Field>,
    /// Positions in `fields`, by ascending smallest tag: the order of
    /// encode, merge, length and clear.
    pub encode_order: Vec<usize>,
    /// Whether the debug representation labels fields by name rather than
    /// by position.
    pub named: bool,
}

/// Every field has at least one tag, and only tags the wire format can
/// carry.
pub open spec fn fields_valid(fs: Seq<FieldSpec>) -> bool {
    forall|i: int| 0 <= i < fs.len() ==> (#[trigger] fs[i]).tags.len() > 0 && all_in_range(fs[i].tags)
}

impl MessagePlan {
    /// Fields are valid, no tag belongs to two of them, and the encode
    /// order is the stable order by smallest tag.
    pub open spec fn wf(&self) -> bool {
        let fs = fields_view(self.fields@);
        &&& fields_valid(fs)
        &&& no_dup(all_tags(fs))
        &&& is_stable_order(min_keys(fs), self.encode_order@)
    }

    /// The field that owns `tag`; `None` sends the tag to the skipper of
    /// unknown fields.
    pub fn merge_target(&self, tag: u32) -> (r: Option<usize>)
        requires
            self.wf(),
        ensures
            r matches Some(i) ==> i < self.fields@.len() && self.fields@[i as int].tags@.contains(tag),
            r is None ==> forall|i: int|
                0 <= i < self.fields@.len() ==> !(#[trigger] self.fields@[i].tags@).contains(tag),
            forall|i: int|
                0 <= i < self.fields@.len() && (#[trigger] self.fields@[i].tags@).contains(tag) ==> r
                    == Some(i as usize),
    {
        let mut i: usize = 0;
        while i < self.fields.len()
            invariant
                0 <= i <= self.fields@.len(),
                self.wf(),
                forall|k: int| 0 <= k < i ==> !(#[trigger] self.fields@[k].tags@).contains(tag),
            decreases self.fields@.len() - i,
        {
            let tags = &self.fields[i].tags;
            let mut j: usize = 0;
            while j < tags.len()
                invariant
                    0 <= j <= tags@.len(),
                    self.wf(),
                    i < self.fields@.len(),
                    tags@ == self.fields@[i as int].tags@,
                    forall|k: int| 0 <= k < i ==> !(#[trigger] self.fields@[k].tags@).contains(tag),
                    forall|b: int| 0 <= b < j ==> tags@[b] != tag,
                decreases tags@.len() - j,
            {
                if tags[j] == tag {
                    assert(tags@[j as int] == tag);
                    proof {
                        assert forall|k: int|
                            0 <= k < self.fields@.len() && (#[trigger] self.fields@[k].tags@).contains(
                                tag,
                            ) implies k == i by {
                            lemma_tag_owner_unique(*self, k, i as int, tag);
                        }
                    }
                    return Some(i);
                }
                j = j + 1;
            }
            assert(!tags@.contains(tag));
            i = i + 1;
        }
        None
    }
}

proof fn lemma_resolved_valid(decls: Seq<FieldAttrs>, n: int)
    requires
        0 <= n <= decls.len(),
        resolve_prefix(decls, n) is Ok,
    ensures
        fields_valid(resolve_prefix(decls, n)->Ok_0.0),
    decreases n,
{
    if n > 0 {
        lemma_resolved_valid(decls, n - 1);
        let (acc, next) = resolve_prefix(decls, n - 1)->Ok_0;
        let d = decls[n - 1];
        if let Ok(Some(tags)) = resolve_spec(d.ignore, d.kind, d.tags@, next) {
            crate::tags::lemma_seq_min_max(tags);
            if d.tags@.len() == 0 {
                assert(all_in_range(tags));
            }
            let fs = resolve_prefix(decls, n)->Ok_0.0;
            assert forall|i: int| 0 <= i < fs.len() implies (#[trigger] fs[i]).tags.len() > 0 && all_in_range(fs[i].tags) by {
                if i < acc.len() {
                    assert(fs[i] == acc[i]);
                }
            }
        }
    }
}

proof fn lemma_resolve_valid(d: FieldAttrs, next: u32)
    ensures
        resolve_spec(d.ignore, d.kind, d.tags@, next) matches Ok(Some(t)) ==> t.len() > 0 && all_in_range(t),
{
    if !d.ignore && d.tags@.len() == 0 && crate::tags::tag_in_range(next) {
        assert(all_in_range(seq![next]));
    }
}

proof fn lemma_prefix_err(decls: Seq<FieldAttrs>, i: int, n: int)
    requires
        0 <= i <= n,
        resolve_prefix(decls, i) is Err,
    ensures
        resolve_prefix(decls, n) == resolve_prefix(decls, i),
    decreases n - i,
{
    if n > i {
        lemma_prefix_err(decls, i, n - 1);
    }
}

proof fn lemma_all_tags_step(fs: Seq<FieldSpec>, k: int)
    requires
        0 <= k < fs.len(),
    ensures
        all_tags(fs.take(k + 1)) == all_tags(fs.take(k)) + fs[k].tags,
{
    assert(fs.take(k + 1).drop_last() == fs.take(k));
    assert(fs.take(k + 1).last() == fs[k]);
}

/// Compiles a record declaration: resolves its fields in declaration
/// order, threading the next implicit tag, orders them by smallest tag and
/// rejects a tag that two fields share.
pub fn try_message(input: &DeriveInput) -> (r: Result<MessagePlan, Error>)
    ensures
        match message_spec(*input) {
            Ok(fs) => r is Ok && fields_view(r->Ok_0.fields@) == fs && r->Ok_0.wf()
                && r->Ok_0.named == (input.data matches Data::Struct(Fields::Named(_))),
            Err(e) => r == Err::<MessagePlan, Error>(e),
        },
{
    let empty: Vec<FieldAttrs> = Vec::new();
    let (decls, named) = match &input.data {
        Data::Enum(_) => return Err(Error::MessageOnEnum),
        Data::Union => return Err(Error::MessageOnUnion),
        Data::Struct(Fields::Named(v)) => (v, true),
        Data::Struct(Fields::Unnamed(v)) => (v, false),
        Data::Struct(Fields::Unit) => (&empty, false),
    };
    assert(input.data matches Data::Struct(f) && decls@ == f.decls());
    if input.generic {
        return Err(Error::Generic);
    }
    let mut fields: Vec<Field> = Vec::new();
    let mut next_tag: u32 = 1;
    let mut i: usize = 0;
    assert(fields_view(fields@) == Seq::<FieldSpec>::empty());
    while i < decls.len()
        invariant
            0 <= i <= decls@.len(),
            input.data matches Data::Struct(f) && decls@ == f.decls(),
            !input.generic,
            resolve_prefix(decls@, i as int) == Ok::<(Seq<FieldSpec>, u32), Error>(
                (fields_view(fields@), next_tag),
            ),
        decreases decls@.len() - i,
    {
        proof {
            lemma_resolve_valid(decls@[i as int], next_tag);
        }
        match decls[i].resolve(i, next_tag) {
            Err(reason) => {
                proof {
                    lemma_prefix_err(decls@, i as int + 1, decls@.len() as int);
                }
                return Err(Error::InvalidField { index: i, reason });
            },
            Ok(None) => {},
            Ok(Some(f)) => {
                next_tag = next_tag_after(&f.tags);
                let ghost before = fields@;
                fields.push(f);
                assert(fields_view(fields@) == fields_view(before).push(f@));
            },
        }
        i = i + 1;
    }
    let ghost fv = fields_view(fields@);
    proof {
        lemma_resolved_valid(decls@, decls@.len() as int);
    }
    let mut keys: Vec<u32> = Vec::new();
    let mut flat: Vec<u32> = Vec::new();
    let mut k: usize = 0;
    while k < fields.len()
        invariant
            0 <= k <= fields@.len(),
            fv == fields_view(fields@),
            fields_valid(fv),
            keys@ == min_keys(fv).take(k as int),
            flat@ == all_tags(fv.take(k as int)),
        decreases fields@.len() - k,
    {
        assert(fv[k as int] == fields@[k as int]@);
        let tags = &fields[k].tags;
        keys.push(min_of(tags));
        assert(keys@ == min_keys(fv).take(k as int + 1));
        proof {
            lemma_all_tags_step(fv, k as int);
        }
        let mut j: usize = 0;
        while j < tags.len()
            invariant
                0 <= j <= tags@.len(),
                flat@ == all_tags(fv.take(k as int)) + tags@.take(j as int),
            decreases tags@.len() - j,
        {
            flat.push(tags[j]);
            assert(tags@.take(j as int + 1) == tags@.take(j as int).push(tags@[j as int]));
            j = j + 1;
        }
        assert(tags@.take(j as int) == tags@);
        k = k + 1;
    }
    assert(keys@ == min_keys(fv));
    assert(fv.take(k as int) == fv);
    let encode_order = stable_order(&keys);
    assert(resolve_prefix(decls@, decls@.len() as int) == Ok::<(Seq<FieldSpec>, u32), Error>((fv, next_tag)));
    assert(message_spec(*input) == (if no_dup(all_tags(fv)) {
        Ok::<Seq<FieldSpec>, Error>(fv)
    } else {
        Err(Error::DuplicateTags)
    }));
    if has_duplicates(&flat) {
        return Err(Error::DuplicateTags);
    }
    Ok(MessagePlan { fields, encode_order, named })
}

proof fn lemma_all_tags_prefix(fs: Seq<FieldSpec>, m: int)
    requires
        0 <= m <= fs.len(),
    ensures
        all_tags(fs.take(m)).len() <= all_tags(fs).len(),
        forall|k: int| 0 <= k < all_tags(fs.take(m)).len() ==> all_tags(fs.take(m))[k] == #[trigger] all_tags(fs)[k],
    decreases fs.len(),
{
    if m == fs.len() {
        assert(fs.take(m) == fs);
    } else {
        lemma_all_tags_prefix(fs.drop_last(), m);
        assert(fs.drop_last().take(m) == fs.take(m));
    }
}

/// Where a field's tag stands in the flattened tag list.
proof fn lemma_tag_position(fs: Seq<FieldSpec>, p: int, a: int)
    requires
        0 <= p < fs.len(),
        0 <= a < fs[p].tags.len(),
    ensures
        all_tags(fs.take(p)).len() + a < all_tags(fs.take(p + 1)).len(),
        all_tags(fs.take(p + 1)).len() <= all_tags(fs).len(),
        all_tags(fs)[all_tags(fs.take(p)).len() + a] == fs[p].tags[a],
{
    lemma_all_tags_step(fs, p);
    lemma_all_tags_prefix(fs, p + 1);
    assert(all_tags(fs.take(p + 1))[all_tags(fs.take(p)).len() + a] == fs[p].tags[a]);
}

/// Two distinct fields that carry the same tag make the flattened tag
/// list repeat a value.
proof fn lemma_shared_tag_dup(fs: Seq<FieldSpec>, p: int, a: int, q: int, b: int)
    requires
        0 <= p < q < fs.len(),
        0 <= a < fs[p].tags.len(),
        0 <= b < fs[q].tags.len(),
        fs[p].tags[a] == fs[q].tags[b],
    ensures
        !no_dup(all_tags(fs)),
{
    lemma_tag_position(fs, p, a);
    lemma_tag_position(fs, q, b);
    lemma_all_tags_prefix(fs.take(q), p + 1);
    assert(fs.take(q).take(p + 1) == fs.take(p + 1));
    let x = all_tags(fs.take(p)).len() + a;
    let y = all_tags(fs.take(q)).len() + b;
    assert(x < y && all_tags(fs)[x] == all_tags(fs)[y]);
}

/// A tag belongs to at most one field of a compiled record, so the merge
/// dispatch hands every fragment a field wrote back to that same field.
pub proof fn lemma_tag_owner_unique(plan: MessagePlan, p: int, q: int, t: u32)
    requires
        plan.wf(),
        0 <= p < plan.fields@.len(),
        0 <= q < plan.fields@.len(),
        plan.fields@[p].tags@.contains(t),
        plan.fields@[q].tags@.contains(t),
    ensures
        p == q,
{
    let fs = fields_view(plan.fields@);
    assert(fs[p] == plan.fields@[p]@);
    assert(fs[q] == plan.fields@[q]@);
    let a = choose|a: int| 0 <= a < fs[p].tags.len() && fs[p].tags[a] == t;
    let b = choose|b: int| 0 <= b < fs[q].tags.len() && fs[q].tags[b] == t;
    if p < q {
        lemma_shared_tag_dup(fs, p, a, q, b);
    } else if q < p {
        lemma_shared_tag_dup(fs, q, b, p, a);
    }
}

proof fn lemma_resolved_contains(decls: Seq<FieldAttrs>, n: int, k: int)
    requires
        0 <= k < n <= decls.len(),
        resolve_prefix(decls, n) is Ok,
        !decls[k].ignore,
        decls[k].tags@.len() > 0,
    ensures
        exists|p: int|
            0 <= p < resolve_prefix(decls, n)->Ok_0.0.len() && (#[trigger] resolve_prefix(decls, n)->Ok_0.0[p]).decl
                == k && resolve_prefix(decls, n)->Ok_0.0[p].tags == decls[k].tags@,
    decreases n,
{
    let fs = resolve_prefix(decls, n)->Ok_0.0;
    let acc = resolve_prefix(decls, n - 1)->Ok_0.0;
    if k == n - 1 {
        assert(fs[acc.len() as int].decl == k);
    } else {
        lemma_resolved_contains(decls, n - 1, k);
        let p = choose|p: int| 0 <= p < acc.len() && (#[trigger] acc[p]).decl == k && acc[p].tags == decls[k].tags@;
        assert(fs[p] == acc[p]);
    }
}

/// A record whose fields `i` and `j` both list tag `t` does not compile.
pub proof fn lemma_shared_tag_rejected(input: DeriveInput, i: int, j: int, t: u32)
    requires
        input.data is Struct,
        0 <= i < j < input.data->Struct_0.decls().len(),
        !input.data->Struct_0.decls()[i].ignore,
        !input.data->Struct_0.decls()[j].ignore,
        input.data->Struct_0.decls()[i].tags@.contains(t),
        input.data->Struct_0.decls()[j].tags@.contains(t),
    ensures
        message_spec(input) is Err,
{
    let decls = input.data->Struct_0.decls();
    let n = decls.len() as int;
    if !input.generic && resolve_prefix(decls, n) is Ok {
        let fs = resolve_prefix(decls, n)->Ok_0.0;
        lemma_resolved_contains(decls, n, i);
        lemma_resolved_contains(decls, n, j);
        let p = choose|p: int| 0 <= p < fs.len() && (#[trigger] fs[p]).decl == i && fs[p].tags == decls[i].tags@;
        let q = choose|q: int| 0 <= q < fs.len() && (#[trigger] fs[q]).decl == j && fs[q].tags == decls[j].tags@;
        let a = choose|a: int| 0 <= a < fs[p].tags.len() && fs[p].tags[a] == t;
        let b = choose|b: int| 0 <= b < fs[q].tags.len() && fs[q].tags[b] == t;
        if p < q {
            lemma_shared_tag_dup(fs, p, a, q, b);
        } else {
            lemma_shared_tag_dup(fs, q, b, p, a);
        }
    }
}

/// The record whose `n` fields all take implicit tags.
pub open spec fn implicit_fields(decls: Seq<FieldAttrs>, n: int) -> Seq<FieldSpec> {
    Seq::new(n as nat, |i: int| FieldSpec { decl: i as nat, kind: decls[i].kind, tags: seq![(i + 1) as u32] })
}

/// No field is ignored, gives a tag, or holds a sum type.
pub open spec fn all_implicit(decls: Seq<FieldAttrs>) -> bool {
    forall|i: int|
        0 <= i < decls.len() ==> !(#[trigger] decls[i]).ignore && decls[i].tags@.len() == 0 && decls[i].kind
            != FieldKind::Oneof
}

proof fn lemma_implicit_prefix(decls: Seq<FieldAttrs>, n: int)
    requires
        0 <= n <= decls.len() <= MAX_TAG,
        all_implicit(decls),
    ensures
        resolve_prefix(decls, n) == Ok::<(Seq<FieldSpec>, u32), Error>((implicit_fields(decls, n), (n + 1) as u32)),
        all_tags(implicit_fields(decls, n)) == Seq::new(n as nat, |i: int| (i + 1) as u32),
    decreases n,
{
    if n > 0 {
        lemma_implicit_prefix(decls, n - 1);
        let d = decls[n - 1];
        assert(!d.ignore && d.tags@.len() == 0 && d.kind != FieldKind::Oneof);
        let tags = seq![n as u32];
        assert(seq_max(tags) == n as u32);
        let fs = implicit_fields(decls, n);
        assert(implicit_fields(decls, n - 1).push(
            FieldSpec { decl: (n - 1) as nat, kind: d.kind, tags },
        ) == fs);
        assert(fs.drop_last() == implicit_fields(decls, n - 1));
        assert(all_tags(fs) == Seq::new(n as nat, |i: int| (i + 1) as u32));
    } else {
        assert(implicit_fields(decls, 0) == Seq::<FieldSpec>::empty());
        assert(Seq::new(0, |i: int| (i + 1) as u32) == Seq::<u32>::empty());
    }
}

/// A record whose fields give no tags, none ignored and none a sum type,
/// compiles, and its fields take tags 1, 2, 3, ... in declaration order.
pub proof fn lemma_implicit_tags_sequential(input: DeriveInput)
    requires
        input.data is Struct,
        !input.generic,
        all_implicit(input.data->Struct_0.decls()),
        input.data->Struct_0.decls().len() <= MAX_TAG,
    ensures
        message_spec(input) is Ok,
        message_spec(input)->Ok_0.len() == input.data->Struct_0.decls().len(),
        forall|i: int|
            0 <= i < message_spec(input)->Ok_0.len() ==> (#[trigger] message_spec(input)->Ok_0[i]).tags == seq![
                (i + 1) as u32,
            ] && message_spec(input)->Ok_0[i].decl == i,
{
    let decls = input.data->Struct_0.decls();
    lemma_implicit_prefix(decls, decls.len() as int);
    let t = Seq::new(decls.len() as nat, |i: int| (i + 1) as u32);
    assert(no_dup(t));
}

/// A record with no fields compiles, to no fields at all: nothing to
/// encode, merge, measure or clear.
pub proof fn lemma_empty_record_compiles(input: DeriveInput)
    requires
        input.data is Struct,
        !input.generic,
        input.data->Struct_0.decls().len() == 0,
    ensures
        message_spec(input) == Ok::<Seq<FieldSpec>, Error>(Seq::empty()),
{
    assert(all_tags(Seq::<FieldSpec>::empty()) == Seq::<u32>::empty());
}

} // verus!
