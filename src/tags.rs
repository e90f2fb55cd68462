use vstd::prelude::*;

verus! {

/// Smallest field number the wire format allows.
pub const MIN_TAG: u32 = 1;

/// Largest field number the wire format allows.
pub const MAX_TAG: u32 = 536_870_911;

/// A tag the wire format can carry.
pub open spec fn tag_in_range(t: u32) -> bool {
    MIN_TAG <= t && t <= MAX_TAG
}

/// Every tag is one the wire format can carry.
pub open spec fn all_in_range(tags: Seq<u32>) -> bool {
    forall|i: int| 0 <= i < tags.len() ==> #[trigger] tag_in_range(tags[i])
}

/// No value occurs twice.
pub open spec fn no_dup(s: Seq<u32>) -> bool {
    forall|i: int, j: int| 0 <= i < j < s.len() ==> s[i] != s[j]
}

/// The smallest element of a non-empty sequence.
pub open spec fn seq_min(s: Seq<u32>) -> u32
    decreases s.len(),
{
    if s.len() <= 1 {
        s[0]
    } else {
        let m = seq_min(s.drop_last());
        if s.last() < m { s.last() } else { m }
    }
}

/// The largest element of a non-empty sequence.
pub open spec fn seq_max(s: Seq<u32>) -> u32
    decreases s.len(),
{
    if s.len() <= 1 {
        s[0]
    } else {
        let m = seq_max(s.drop_last());
        if s.last() > m { s.last() } else { m }
    }
}

/// The smallest and largest elements occur in the sequence and bound it.
pub proof fn lemma_seq_min_max(s: Seq<u32>)
    requires
        s.len() > 0,
    ensures
        s.contains(seq_min(s)),
        s.contains(seq_max(s)),
        forall|i: int| 0 <= i < s.len() ==> seq_min(s) <= #[trigger] s[i] <= seq_max(s),
    decreases s.len(),
{
    if s.len() > 1 {
        lemma_seq_min_max(s.drop_last());
        assert(forall|i: int| 0 <= i < s.len() - 1 ==> s.drop_last()[i] == s[i]);
        if s.last() < seq_min(s.drop_last()) {
            assert(s[s.len() - 1] == s.last());
        } else {
            let k = choose|k: int| 0 <= k < s.len() - 1 && s.drop_last()[k] == seq_min(s.drop_last());
            assert(s[k] == seq_min(s));
        }
        if s.last() > seq_max(s.drop_last()) {
            assert(s[s.len() - 1] == s.last());
        } else {
            let k = choose|k: int| 0 <= k < s.len() - 1 && s.drop_last()[k] == seq_max(s.drop_last());
            assert(s[k] == seq_max(s));
        }
    } else {
        assert(s[0] == seq_min(s));
    }
}

/// Smallest tag of a field.
pub fn min_of(tags: &Vec<u32>) -> (r: u32)
    requires
        tags@.len() > 0,
    ensures
        r == seq_min(tags@),
{
    let mut m: u32 = tags[0];
    let mut i: usize = 1;
    while i < tags.len()
        invariant
            1 <= i <= tags@.len(),
            m == seq_min(tags@.subrange(0, i as int)),
        decreases tags@.len() - i,
    {
        proof {
            assert(tags@.subrange(0, i as int + 1).drop_last() == tags@.subrange(0, i as int));
        }
        if tags[i] < m {
            m = tags[i];
        }
        i = i + 1;
    }
    assert(tags@.subrange(0, i as int) == tags@);
    m
}

/// Largest tag of a field.
pub fn max_of(tags: &Vec<u32>) -> (r: u32)
    requires
        tags@.len() > 0,
    ensures
        r == seq_max(tags@),
{
    let mut m: u32 = tags[0];
    let mut i: usize = 1;
    while i < tags.len()
        invariant
            1 <= i <= tags@.len(),
            m == seq_max(tags@.subrange(0, i as int)),
        decreases tags@.len() - i,
    {
        proof {
            assert(tags@.subrange(0, i as int + 1).drop_last() == tags@.subrange(0, i as int));
        }
        if tags[i] > m {
            m = tags[i];
        }
        i = i + 1;
    }
    assert(tags@.subrange(0, i as int) == tags@);
    m
}

/// Whether some value occurs twice.
pub fn has_duplicates(s: &Vec<u32>) -> (r: bool)
    ensures
        r == !no_dup(s@),
{
    let mut i: usize = 0;
    while i < s.len()
        invariant
            0 <= i <= s@.len(),
            forall|a: int, b: int| 0 <= a < b < s@.len() && a < i ==> s@[a] != s@[b],
        decreases s@.len() - i,
    {
        let mut j: usize = i + 1;
        while j < s.len()
            invariant
                i < s@.len(),
                i + 1 <= j <= s@.len(),
                forall|a: int, b: int| 0 <= a < b < s@.len() && a < i ==> s@[a] != s@[b],
                forall|b: int| i < b < j ==> s@[i as int] != s@[b],
            decreases s@.len() - j,
        {
            if s[i] == s[j] {
                return true;
            }
            j = j + 1;
        }
        i = i + 1;
    }
    false
}

/// `a` comes before `b` when ordered by key, ties broken by position.
pub open spec fn key_before(keys: Seq<u32>, a: int, b: int) -> bool {
    keys[a] < keys[b] || (keys[a] == keys[b] && a < b)
}

/// `order` lists every position of `keys` once, by ascending key, and
/// keeps positions with equal keys in their original order: the result of
/// a stable sort of the positions by key.
pub open spec fn is_stable_order(keys: Seq<u32>, order: Seq<usize>) -> bool {
    &&& order.len() == keys.len()
    &&& forall|p: int| 0 <= p < order.len() ==> #[trigger] order[p] < keys.len()
    &&& forall|j: int| 0 <= j < keys.len() ==> #[trigger] order.contains(j as usize)
    &&& forall|p: int, q: int|
        0 <= p < q < order.len() ==> key_before(keys, order[p] as int, order[q] as int)
}

/// Positions of `keys` in stable ascending order of key.
pub fn stable_order(keys: &Vec<u32>) -> (order: Vec<usize>)
    ensures
        is_stable_order(keys@, order@),
{
    let mut order: Vec<usize> = Vec::new();
    let mut i: usize = 0;
    while i < keys.len()
        invariant
            0 <= i <= keys@.len(),
            order@.len() == i,
            forall|p: int| 0 <= p < order@.len() ==> #[trigger] order@[p] < i,
            forall|j: int| 0 <= j < i ==> #[trigger] order@.contains(j as usize),
            forall|p: int, q: int|
                0 <= p < q < order@.len() ==> key_before(keys@, order@[p] as int, order@[q] as int),
        decreases keys@.len() - i,
    {
        let k = keys[i];
        let mut pos: usize = order.len();
        while pos > 0 && keys[order[pos - 1]] > k
            invariant
                0 <= pos <= order@.len(),
                order@.len() == i,
                i < keys@.len(),
                k == keys@[i as int],
                forall|p: int| 0 <= p < order@.len() ==> #[trigger] order@[p] < i,
                forall|p: int| pos <= p < order@.len() ==> keys@[#[trigger] order@[p] as int] > k,
            decreases pos,
        {
            pos = pos - 1;
        }
        let ghost before = order@;
        order.insert(pos, i);
        proof {
            assert(order@ == before.insert(pos as int, i));
            assert forall|p: int, q: int| 0 <= p < q < order@.len() implies key_before(
                keys@,
                order@[p] as int,
                order@[q] as int,
            ) by {
                if q == pos {
                    assert(order@[p] == before[p]);
                    assert(p == pos - 1 || key_before(keys@, before[p] as int, before[pos - 1] as int));
                } else if p == pos {
                    assert(order@[q] == before[q - 1]);
                } else {
                    let pp = if p < pos { p } else { p - 1 };
                    let qq = if q < pos { q } else { q - 1 };
                    assert(order@[p] == before[pp]);
                    assert(order@[q] == before[qq]);
                }
            }
            assert forall|j: int| 0 <= j < i + 1 implies #[trigger] order@.contains(j as usize) by {
                if j == i {
                    assert(order@[pos as int] == i);
                } else {
                    assert(before.contains(j as usize));
                    let p = choose|p: int| 0 <= p < before.len() && before[p] == j as usize;
                    if p < pos {
                        assert(order@[p] == j as usize);
                    } else {
                        assert(order@[p + 1] == j as usize);
                    }
                }
            }
        }
        i = i + 1;
    }
    order
}

} // verus!
