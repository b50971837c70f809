//! Ascending order: the keys of maps, and insertion into lists.

use std::collections::BTreeMap;

use vstd::prelude::*;

verus! {

/// Whether the numbers get larger from each to the next.
pub open spec fn ascending(s: Seq<u32>) -> bool {
    forall|i: int, j: int| 0 <= i < j < s.len() ==> s[i] < s[j]
}

/// The numbers of a set in ascending order.
pub open spec fn in_order(keys: Set<u32>) -> Seq<u32> {
    choose|s: Seq<u32>| ascending(s) && s.to_set() == keys
}

/// Only one ascending list has the given numbers.
pub proof fn lemma_in_order(s: Seq<u32>)
    requires
        ascending(s),
    ensures
        in_order(s.to_set()) == s,
{
    let t = in_order(s.to_set());
    assert(ascending(s) && s.to_set() == s.to_set());
    lemma_ascending_unique(s, t);
}

/// Every finite set of numbers has an ascending list.
pub proof fn lemma_in_order_exists(keys: Set<u32>)
    requires
        keys.finite(),
    ensures
        ascending(in_order(keys)),
        in_order(keys).to_set() == keys,
{
    let s = lemma_ascending_list(keys);
    assert(ascending(s) && s.to_set() == keys);
}

proof fn lemma_ascending_list(keys: Set<u32>) -> (s: Seq<u32>)
    requires
        keys.finite(),
    ensures
        ascending(s),
        s.to_set() == keys,
    decreases keys.len(),
{
    if keys.len() == 0 {
        assert(Seq::<u32>::empty().to_set() =~= keys);
        Seq::empty()
    } else {
        let less = |a: u32, b: u32| a <= b;
        let largest = keys.find_unique_maximal(less);
        keys.find_unique_maximal_ensures(less);
        let shorter = lemma_ascending_list(keys.remove(largest));
        let s = shorter.push(largest);
        assert forall|i: int| 0 <= i < shorter.len() implies #[trigger] shorter[i] < largest by {
            assert(shorter.to_set().contains(shorter[i]));
            let x = shorter[i];
            assert(keys.remove(largest).contains(x));
            if largest < x {
                assert(less(largest, x));
                assert(less(x, largest));
            }
        }
        assert forall|x: u32| s.to_set().contains(x) == keys.contains(x) by {
            if s.contains(x) {
                let i = choose|i: int| 0 <= i < s.len() && s[i] == x;
                if i < shorter.len() {
                    assert(shorter.to_set().contains(shorter[i]));
                }
            }
            if keys.contains(x) {
                if x == largest {
                    assert(s[shorter.len() as int] == x);
                } else {
                    assert(shorter.to_set().contains(x));
                    let i = choose|i: int| 0 <= i < shorter.len() && shorter[i] == x;
                    assert(s[i] == x);
                }
            }
        }
        assert(s.to_set() =~= keys);
        s
    }
}

proof fn lemma_ascending_unique(s: Seq<u32>, t: Seq<u32>)
    requires
        ascending(s),
        ascending(t),
        s.to_set() == t.to_set(),
    ensures
        s == t,
    decreases s.len(),
{
    if s.len() == 0 {
        if t.len() > 0 {
            assert(t.to_set().contains(t[0]));
            assert(s.contains(t[0]));
        }
        assert(s =~= t);
    } else {
        assert(s.to_set().contains(s[0]));
        assert(t.contains(s[0]));
        let a = s.last();
        let b = t.last();
        assert(s.to_set().contains(a));
        assert(t.contains(a));
        assert(t.to_set().contains(b));
        assert(s.contains(b));
        assert(a == b);
        let s1 = s.drop_last();
        let t1 = t.drop_last();
        assert forall|x: u32| s1.to_set().contains(x) == t1.to_set().contains(x) by {
            if s1.contains(x) {
                let i = choose|i: int| 0 <= i < s1.len() && s1[i] == x;
                assert(s[i] == x && x < a);
                assert(s.to_set().contains(x));
                assert(t.contains(x));
                let j = choose|j: int| 0 <= j < t.len() && t[j] == x;
                assert(t1[j] == x);
            }
            if t1.contains(x) {
                let i = choose|i: int| 0 <= i < t1.len() && t1[i] == x;
                assert(t[i] == x && x < b);
                assert(t.to_set().contains(x));
                assert(s.contains(x));
                let j = choose|j: int| 0 <= j < s.len() && s[j] == x;
                assert(s1[j] == x);
            }
        }
        assert(s1.to_set() =~= t1.to_set());
        lemma_ascending_unique(s1, t1);
        assert(s =~= s1.push(a));
        assert(t =~= t1.push(b));
    }
}

/// The order that maps keep their keys in is the ascending one.
proof fn lemma_key_order(s: Seq<u32>)
    requires
        vstd::std_specs::btree::increasing_seq(s),
    ensures
        ascending(s),
{
    broadcast use vstd::laws_cmp::group_laws_cmp;
    broadcast use vstd::std_specs::btree::group_btree_axioms;

    assert(vstd::laws_cmp::obeys_cmp::<u32>());
    assert forall|i: int, j: int| 0 <= i < j < s.len() implies s[i] < s[j] by {
        assert(vstd::std_specs::cmp::OrdSpec::cmp_spec(&s[i], &s[j]) is Less);
    }
}

/// The keys of a map, in ascending order.
pub fn ascending_keys<V>(map: &BTreeMap<u32, V>) -> (result: Vec<u32>)
    ensures
        result@ == in_order(map@.dom()),
        ascending(result@),
        result@.to_set() == map@.dom(),
{
    let mut result: Vec<u32> = Vec::new();
    let pairs = map.iter();
    let ghost listed = vstd::std_specs::iter::IteratorSpec::remaining(&pairs);
    let ghost all = listed.map_values(|pair: (&u32, &V)| *pair.0);
    for pair in it: pairs
        invariant
            it.seq() == listed,
            all == listed.map_values(|pair: (&u32, &V)| *pair.0),
            result@ == all.take(it.index() as int),
    {
        result.push(*pair.0);
        assert(all.take(it.index() + 1) =~= all.take(it.index() as int).push(*pair.0));
    }
    proof {
        lemma_key_order(all);
        assert(all.take(all.len() as int) =~= all);
        assert forall|key: u32| map@.contains_key(key) implies all.contains(key) by {
            assert(listed.contains((&key, &map@[key])));
            let i = choose|i: int| 0 <= i < listed.len() && listed[i] == (&key, &map@[key]);
            assert(all[i] == key);
        }
        assert forall|key: u32| all.contains(key) implies map@.contains_key(key) by {
            let i = choose|i: int| 0 <= i < all.len() && all[i] == key;
            assert(map@.contains_key(*listed[i].0));
        }
        assert(all.to_set() =~= map@.dom());
        lemma_in_order(all);
    }
    result
}

/// The list `s`, which is in order, with `port` put behind every port that is not larger.
pub open spec fn with_port(s: Seq<u16>, port: u16) -> Seq<u16>
    decreases s.len(),
{
    if s.len() == 0 || s.last() <= port {
        s.push(port)
    } else {
        with_port(s.drop_last(), port).push(s.last())
    }
}

/// Whether no port is larger than a later one.
pub open spec fn in_port_order(s: Seq<u16>) -> bool {
    forall|i: int, j: int| 0 <= i <= j < s.len() ==> s[i] <= s[j]
}

/// Putting a port into its place keeps the order and adds exactly that port.
pub proof fn lemma_with_port(s: Seq<u16>, port: u16)
    requires
        in_port_order(s),
    ensures
        in_port_order(with_port(s, port)),
        with_port(s, port).to_multiset() == s.to_multiset().insert(port),
        with_port(s, port).len() == s.len() + 1,
        forall|i: int|
            0 <= i < s.len() + 1 ==> #[trigger] with_port(s, port)[i] == port || s.contains(
                with_port(s, port)[i],
            ),
        forall|i: int|
            0 <= i < s.len() + 1 ==> #[trigger] with_port(s, port)[i] <= port || (s.len() > 0
                && with_port(s, port)[i] <= s.last()),
    decreases s.len(),
{
    broadcast use vstd::seq_lib::group_to_multiset_ensures;

    if s.len() == 0 || s.last() <= port {
        assert forall|i: int| 0 <= i < s.len() + 1 implies #[trigger] s.push(port)[i] == port
            || s.contains(s.push(port)[i]) by {
            if i < s.len() {
                assert(s[i] == s.push(port)[i]);
            }
        }
    } else {
        let shorter = s.drop_last();
        lemma_with_port(shorter, port);
        assert(s =~= shorter.push(s.last()));
        let inner = with_port(shorter, port);
        assert forall|i: int| 0 <= i < inner.len() implies #[trigger] inner[i] <= s.last() by {
            if shorter.len() > 0 {
                assert(shorter.last() == s[s.len() - 2]);
            }
        }
        assert forall|i: int| 0 <= i < inner.len() && #[trigger] inner[i] != port implies s.contains(
            inner[i],
        ) by {
            let k = choose|k: int| 0 <= k < shorter.len() && shorter[k] == inner[i];
            assert(s[k] == inner[i]);
        }
        assert(s[s.len() - 1] == s.last());
        assert(shorter.to_multiset().insert(port).insert(s.last())
            =~= shorter.to_multiset().insert(s.last()).insert(port));
    }
}

/// Puts a port into its place in a list that is in order.
pub fn insert_port(list: &mut Vec<u16>, port: u16)
    ensures
        final(list)@ == with_port(old(list)@, port),
{
    let ghost before = list@;
    let mut i: usize = list.len();
    assert(before.take(i as int) =~= before);
    assert(before.skip(i as int) =~= Seq::empty());
    assert(with_port(before, port) + Seq::<u16>::empty() =~= with_port(before, port));
    while i > 0 && list[i - 1] > port
        invariant
            0 <= i <= list.len(),
            list@ == before,
            with_port(before, port) == with_port(before.take(i as int), port) + before.skip(
                i as int,
            ),
        decreases i,
    {
        proof {
            let shorter = before.take(i as int);
            assert(shorter.drop_last() =~= before.take(i - 1));
            assert(with_port(before.take(i - 1), port).push(shorter.last()) + before.skip(i as int)
                =~= with_port(before.take(i - 1), port) + before.skip(i - 1));
        }
        i -= 1;
    }
    list.insert(i, port);
    assert(list@ =~= before.take(i as int).push(port) + before.skip(i as int));
}

} // verus!
