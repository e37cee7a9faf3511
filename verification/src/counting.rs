//! Keys of ordered collections, sums over maps, and saturating counters.
use std::collections::BTreeMap;
use std::collections::BTreeSet;
use vstd::prelude::*;
use vstd::std_specs::cmp::OrdSpec;
use vstd::std_specs::iter::IteratorSpec;

verus! {

broadcast use {vstd::std_specs::btree::group_btree_axioms, vstd::laws_cmp::group_laws_cmp};

/// `value + amount`, stopping at the largest `u64`.
pub open spec fn saturated64(value: u64, amount: nat) -> u64 {
    if value + amount > u64::MAX {
        u64::MAX
    } else {
        (value + amount) as u64
    }
}

/// `value + amount`, stopping at the largest `u32`.
pub open spec fn saturated32(value: u32, amount: nat) -> u32 {
    if value + amount > u32::MAX {
        u32::MAX
    } else {
        (value + amount) as u32
    }
}

/// Whether `keys` holds exactly the elements of `domain`, in increasing order.
pub open spec fn lists_in_order(keys: Seq<u64>, domain: Set<u64>) -> bool {
    &&& forall|i: int, j: int| 0 <= i < j < keys.len() ==> keys[i] < keys[j]
    &&& forall|k: u64| domain.contains(k) <==> keys.contains(k)
}

/// The sum of `weight` over the values of a finite map.
pub open spec fn sum_over<V>(map: Map<u64, V>, weight: spec_fn(V) -> nat) -> nat
    decreases map.dom().len(),
    when map.dom().finite()
{
    if map.dom().len() == 0 {
        0
    } else {
        let key = map.dom().choose();
        weight(map[key]) + sum_over(map.remove(key), weight)
    }
}

/// Removing a key takes the weight of its value from the sum.
pub proof fn lemma_sum_remove<V>(map: Map<u64, V>, weight: spec_fn(V) -> nat, key: u64)
    requires
        map.dom().finite(),
        map.contains_key(key),
    ensures
        sum_over(map, weight) == weight(map[key]) + sum_over(map.remove(key), weight),
    decreases map.dom().len(),
{
    let picked = map.dom().choose();
    assert(map.dom().contains(key));
    assert(map.dom().len() > 0);
    assert(map.dom().contains(picked));
    if picked != key {
        lemma_sum_remove(map.remove(picked), weight, key);
        lemma_sum_remove(map.remove(key), weight, picked);
        assert(map.remove(picked).remove(key) =~= map.remove(key).remove(picked));
    }
}

/// Setting a key adds the weight of the value to the sum of the other keys.
pub proof fn lemma_sum_insert<V>(map: Map<u64, V>, weight: spec_fn(V) -> nat, key: u64, value: V)
    requires
        map.dom().finite(),
    ensures
        sum_over(map.insert(key, value), weight) == weight(value) + sum_over(
            map.remove(key),
            weight,
        ),
{
    let after = map.insert(key, value);
    lemma_sum_remove(after, weight, key);
    assert(after.remove(key) =~= map.remove(key));
}

/// The keys of `map`, in increasing order.
pub fn keys_in_order<V>(map: &BTreeMap<u64, V>) -> (keys: Vec<u64>)
    ensures
        lists_in_order(keys@, map@.dom()),
        keys@.len() == map@.len(),
{
    let mut keys: Vec<u64> = Vec::new();
    for key in iter: map.keys()
        invariant
            keys@.len() == iter.index(),
            iter.seq() == vstd::std_specs::btree::spec_keys_iter(map).remaining(),
            forall|i: int| 0 <= i < keys@.len() ==> keys@[i] == *iter.seq()[i],
    {
        keys.push(*key);
    }
    proof {
        let all = vstd::std_specs::btree::spec_keys_iter(map).remaining();
        assert(keys@ =~= all.unref());
        assert(all.unref().to_set() == map@.dom());
        assert forall|k: u64| map@.dom().contains(k) <==> keys@.contains(k) by {
            assert(all.unref().to_set().contains(k) <==> all.unref().contains(k));
        }
        assert forall|i: int, j: int| 0 <= i < j < keys@.len() implies keys@[i] < keys@[j] by {
            assert(vstd::laws_cmp::obeys_cmp::<u64>());
            assert(vstd::laws_cmp::obeys_cmp::<&u64>());
            assert(vstd::std_specs::btree::increasing_seq(all));
            assert(OrdSpec::cmp_spec(&all[i], &all[j]) is Less);
        }
    }
    keys
}

/// Whether an element of a set is not greater than any other.
pub open spec fn is_least(keys: Set<u64>, key: u64) -> bool {
    keys.contains(key) && forall|other: u64| #[trigger] keys.contains(other) ==> key <= other
}

/// The smallest element of a finite set that is not empty.
pub open spec fn least(keys: Set<u64>) -> u64 {
    choose|key: u64| is_least(keys, key)
}

/// Whether an element of a set is not less than any other.
pub open spec fn is_greatest(keys: Set<u64>, key: u64) -> bool {
    keys.contains(key) && forall|other: u64| #[trigger] keys.contains(other) ==> key >= other
}

/// The largest element of a finite set that is not empty.
pub open spec fn greatest(keys: Set<u64>) -> u64 {
    choose|key: u64| is_greatest(keys, key)
}

/// A finite set that is not empty has a least element.
pub proof fn lemma_least(keys: Set<u64>)
    requires
        keys.finite(),
        keys.len() > 0,
    ensures
        keys.contains(least(keys)),
        forall|other: u64| #[trigger] keys.contains(other) ==> least(keys) <= other,
    decreases keys.len(),
{
    let some = keys.choose();
    let rest = keys.remove(some);
    let low = if rest.len() > 0 {
        lemma_least(rest);
        if least(rest) < some {
            least(rest)
        } else {
            some
        }
    } else {
        some
    };
    assert forall|other: u64| #[trigger] keys.contains(other) implies low <= other by {
        if other != some {
            assert(rest.contains(other));
        }
    }
    assert(is_least(keys, low));
}

/// The first of the ordered keys is the least, and the last one the greatest.
pub proof fn lemma_ends_of_order(keys: Seq<u64>, domain: Set<u64>)
    requires
        lists_in_order(keys, domain),
        keys.len() > 0,
    ensures
        least(domain) == keys[0],
        greatest(domain) == keys.last(),
        domain.contains(keys[0]),
        domain.contains(keys.last()),
        forall|other: u64| #[trigger]
            domain.contains(other) ==> keys[0] <= other && other <= keys.last(),
{
    assert(keys.contains(keys[0]));
    assert(keys.contains(keys.last()));
    assert forall|other: u64| #[trigger] domain.contains(other) implies keys[0] <= other
        && other <= keys.last() by {
        assert(keys.contains(other));
    }
    assert(is_least(domain, keys[0]));
    assert(is_greatest(domain, keys.last()));
    let low = least(domain);
    let high = greatest(domain);
    assert(is_least(domain, low) && is_greatest(domain, high));
}

/// Whether `keys` holds exactly the elements of `members`, in increasing order.
pub open spec fn lists_members_in_order(keys: Seq<u32>, members: Set<u32>) -> bool {
    &&& forall|i: int, j: int| 0 <= i < j < keys.len() ==> keys[i] < keys[j]
    &&& forall|k: u32| members.contains(k) <==> keys.contains(k)
}

/// The members of `set`, in increasing order.
pub fn members_in_order(set: &BTreeSet<u32>) -> (keys: Vec<u32>)
    ensures
        lists_members_in_order(keys@, set@),
        keys@.len() == set@.len(),
{
    let mut keys: Vec<u32> = Vec::new();
    for key in iter: set.iter()
        invariant
            keys@.len() == iter.index(),
            iter.seq() == vstd::std_specs::btree::spec_btree_keys_iter(set).remaining(),
            forall|i: int| 0 <= i < keys@.len() ==> keys@[i] == *iter.seq()[i],
    {
        keys.push(*key);
    }
    proof {
        let all = vstd::std_specs::btree::spec_btree_keys_iter(set).remaining();
        assert(keys@ =~= all.unref());
        assert forall|k: u32| set@.contains(k) <==> keys@.contains(k) by {
            assert(all.unref().to_set().contains(k) <==> all.unref().contains(k));
        }
        assert forall|i: int, j: int| 0 <= i < j < keys@.len() implies keys@[i] < keys@[j] by {
            assert(vstd::laws_cmp::obeys_cmp::<u32>());
            assert(vstd::laws_cmp::obeys_cmp::<&u32>());
            assert(vstd::std_specs::btree::increasing_seq(all));
            assert(OrdSpec::cmp_spec(&all[i], &all[j]) is Less);
        }
    }
    keys
}

/// A saturating counter counts exactly up to the largest number and stays there.
pub proof fn lemma_saturated(value: u64, amount: nat, small: u32)
    ensures
        saturated64(value, amount) <= value + amount,
        saturated64(value, amount) >= value,
        saturated64(value, amount) < value + amount ==> saturated64(value, amount)
            == 0xffff_ffff_ffff_ffff,
        saturated32(small, amount) <= small + amount,
        saturated32(small, amount) >= small,
        saturated32(small, amount) < small + amount ==> saturated32(small, amount) == 0xffff_ffff,
{
}

/// A finite set that is not empty has a greatest element.
pub proof fn lemma_greatest(keys: Set<u64>)
    requires
        keys.finite(),
        keys.len() > 0,
    ensures
        keys.contains(greatest(keys)),
        forall|other: u64| #[trigger] keys.contains(other) ==> other <= greatest(keys),
    decreases keys.len(),
{
    let some = keys.choose();
    let rest = keys.remove(some);
    let high = if rest.len() > 0 {
        lemma_greatest(rest);
        if greatest(rest) > some {
            greatest(rest)
        } else {
            some
        }
    } else {
        some
    };
    assert forall|other: u64| #[trigger] keys.contains(other) implies other <= high by {
        if other != some {
            assert(rest.contains(other));
        }
    }
    assert(is_greatest(keys, high));
}

} // verus!
