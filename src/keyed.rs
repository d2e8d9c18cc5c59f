use vstd::prelude::*;

use crate::IsolateId;

verus! {

/// An entry of a small registry kept in registration order.
pub struct Keyed<K, T> {
    pub key: K,
    pub value: T,
}

/// What a registry of entries maps each key to: a later registration of a key
/// shadows earlier ones.
pub open spec fn keyed_map<K: View, T>(s: Seq<Keyed<K, T>>) -> Map<K::V, T>
    decreases s.len(),
{
    if s.len() == 0 {
        Map::empty()
    } else {
        keyed_map(s.drop_last()).insert(s.last().key@, s.last().value)
    }
}

/// The entries whose key is not `k`, in their order.
pub open spec fn without_key<K: View, T>(s: Seq<Keyed<K, T>>, k: K::V) -> Seq<Keyed<K, T>>
    decreases s.len(),
{
    if s.len() == 0 {
        Seq::empty()
    } else if s.last().key@ == k {
        without_key(s.drop_last(), k)
    } else {
        without_key(s.drop_last(), k).push(s.last())
    }
}

/// The entries as (key view, value) pairs, in registration order.
pub open spec fn entry_pairs<K: View, T>(s: Seq<Keyed<K, T>>) -> Seq<(K::V, T)> {
    s.map_values(|e: Keyed<K, T>| (e.key@, e.value))
}

/// The pairs whose key is not `k`, in their order.
pub open spec fn without_name<K, T>(s: Seq<(K, T)>, k: K) -> Seq<(K, T)>
    decreases s.len(),
{
    if s.len() == 0 {
        Seq::empty()
    } else if s.last().0 == k {
        without_name(s.drop_last(), k)
    } else {
        without_name(s.drop_last(), k).push(s.last())
    }
}

/// Dropping the entries of a key drops the pairs of that key.
pub proof fn lemma_without_key_pairs<K: View, T>(s: Seq<Keyed<K, T>>, k: K::V)
    ensures
        entry_pairs(without_key(s, k)) == without_name(entry_pairs(s), k),
    decreases s.len(),
{
    if s.len() > 0 {
        let init = s.drop_last();
        lemma_without_key_pairs(init, k);
        assert(entry_pairs(s).drop_last() =~= entry_pairs(init));
        assert(entry_pairs(s).last() == (s.last().key@, s.last().value));
        if s.last().key@ != k {
            assert(entry_pairs(without_key(init, k).push(s.last())) =~= entry_pairs(
                without_key(init, k),
            ).push((s.last().key@, s.last().value)));
        }
    }
}

/// A key is mapped exactly when some entry holds it.
pub proof fn lemma_keyed_map_dom<K: View, T>(s: Seq<Keyed<K, T>>, k: K::V)
    ensures
        keyed_map(s).contains_key(k) <==> exists|i: int| 0 <= i < s.len() && #[trigger] s[i].key@ == k,
    decreases s.len(),
{
    if s.len() > 0 {
        let init = s.drop_last();
        lemma_keyed_map_dom(init, k);
        if exists|i: int| 0 <= i < init.len() && #[trigger] init[i].key@ == k {
            let i = choose|i: int| 0 <= i < init.len() && #[trigger] init[i].key@ == k;
            assert(s[i].key@ == k);
        }
        if exists|i: int| 0 <= i < s.len() && #[trigger] s[i].key@ == k {
            let i = choose|i: int| 0 <= i < s.len() && #[trigger] s[i].key@ == k;
            if i < s.len() - 1 {
                assert(init[i].key@ == k);
            }
        }
    }
}

/// The last entry holding a key gives its value.
pub proof fn lemma_keyed_map_last<K: View, T>(s: Seq<Keyed<K, T>>, k: K::V, i: int)
    requires
        0 <= i < s.len(),
        s[i].key@ == k,
        forall|j: int| i < j < s.len() ==> #[trigger] s[j].key@ != k,
    ensures
        keyed_map(s).contains_key(k),
        keyed_map(s)[k] == s[i].value,
    decreases s.len(),
{
    if i < s.len() - 1 {
        let init = s.drop_last();
        assert forall|j: int| i < j < init.len() implies #[trigger] init[j].key@ != k by {
            assert(init[j] == s[j]);
        }
        lemma_keyed_map_last(init, k, i);
        assert(s[s.len() - 1].key@ != k);
    }
}

/// Dropping every entry of a key unmaps that key and nothing else.
pub proof fn lemma_without_key_map<K: View, T>(s: Seq<Keyed<K, T>>, k: K::V)
    ensures
        keyed_map(without_key(s, k)) == keyed_map(s).remove(k),
    decreases s.len(),
{
    if s.len() > 0 {
        let init = s.drop_last();
        lemma_without_key_map(init, k);
        if s.last().key@ != k {
            let w = without_key(init, k).push(s.last());
            assert(w.drop_last() =~= without_key(init, k));
        }
        assert(keyed_map(without_key(s, k)) =~= keyed_map(s).remove(k));
    }
}

/// Index of the last entry named `name`, if any.
pub(crate) fn find_named<T>(entries: &Vec<Keyed<String, T>>, name: &str) -> (r: Option<usize>)
    ensures
        match r {
            Some(i) => i < entries@.len() && entries@[i as int].key@ == name@ && keyed_map(
                entries@,
            ).contains_key(name@) && keyed_map(entries@)[name@] == entries@[i as int].value,
            None => !keyed_map(entries@).contains_key(name@),
        },
{
    let wanted = name.to_owned();
    let mut i: usize = entries.len();
    while i > 0
        invariant
            i <= entries@.len(),
            wanted@ == name@,
            forall|j: int| i <= j < entries@.len() ==> #[trigger] entries@[j].key@ != name@,
        decreases i,
    {
        i = i - 1;
        if entries[i].key == wanted {
            proof {
                lemma_keyed_map_last(entries@, name@, i as int);
            }
            return Some(i);
        }
    }
    proof {
        lemma_keyed_map_dom(entries@, name@);
    }
    None
}

/// Index of the last entry of isolate `id`, if any.
pub(crate) fn find_isolate<T>(entries: &Vec<Keyed<IsolateId, T>>, id: IsolateId) -> (r: Option<usize>)
    ensures
        match r {
            Some(i) => i < entries@.len() && entries@[i as int].key == id && keyed_map(
                entries@,
            ).contains_key(id) && keyed_map(entries@)[id] == entries@[i as int].value,
            None => !keyed_map(entries@).contains_key(id),
        },
{
    let mut i: usize = entries.len();
    while i > 0
        invariant
            i <= entries@.len(),
            forall|j: int| i <= j < entries@.len() ==> #[trigger] entries@[j].key != id,
        decreases i,
    {
        i = i - 1;
        if entries[i].key == id {
            proof {
                lemma_keyed_map_last(entries@, id, i as int);
            }
            return Some(i);
        }
    }
    proof {
        lemma_keyed_map_dom(entries@, id);
    }
    None
}

/// Drops every entry named `name`, keeping the others in their order.
pub(crate) fn remove_named<T>(entries: &mut Vec<Keyed<String, T>>, name: &str)
    ensures
        final(entries)@ == without_key(old(entries)@, name@),
{
    let ghost orig = entries@;
    let wanted = name.to_owned();
    proof {
        assert(entries.len() <= usize::MAX);
    }
    let mut i: usize = 0;
    let mut k: usize = 0;
    while i < entries.len()
        invariant
            wanted@ == name@,
            k <= orig.len() <= usize::MAX,
            entries@ == without_key(orig.take(k as int), name@) + orig.skip(k as int),
            i == without_key(orig.take(k as int), name@).len(),
        decreases orig.len() - k,
    {
        proof {
            assert(k < orig.len());
            assert(orig.take(k as int + 1).drop_last() =~= orig.take(k as int));
            assert(orig.take(k as int + 1).last() == orig[k as int]);
            assert(entries@[i as int] == orig.skip(k as int)[0]);
        }
        if entries[i].key == wanted {
            let _removed = entries.remove(i);
        } else {
            i = i + 1;
        }
        proof {
            assert(entries@ =~= without_key(orig.take(k as int + 1), name@) + orig.skip(k as int + 1));
        }
        k = k + 1;
    }
    proof {
        assert(orig.skip(k as int).len() == 0);
        assert(orig.take(k as int) =~= orig);
        assert(entries@ =~= without_key(orig, name@));
    }
}

/// Drops every entry of isolate `id`, keeping the others in their order.
pub(crate) fn remove_isolate<T>(entries: &mut Vec<Keyed<IsolateId, T>>, id: IsolateId)
    ensures
        final(entries)@ == without_key(old(entries)@, id),
{
    let ghost orig = entries@;
    proof {
        assert(entries.len() <= usize::MAX);
    }
    let mut i: usize = 0;
    let mut k: usize = 0;
    while i < entries.len()
        invariant
            k <= orig.len() <= usize::MAX,
            entries@ == without_key(orig.take(k as int), id) + orig.skip(k as int),
            i == without_key(orig.take(k as int), id).len(),
        decreases orig.len() - k,
    {
        proof {
            assert(k < orig.len());
            assert(orig.take(k as int + 1).drop_last() =~= orig.take(k as int));
            assert(orig.take(k as int + 1).last() == orig[k as int]);
            assert(entries@[i as int] == orig.skip(k as int)[0]);
        }
        if entries[i].key == id {
            let _removed = entries.remove(i);
        } else {
            i = i + 1;
        }
        proof {
            assert(entries@ =~= without_key(orig.take(k as int + 1), id) + orig.skip(k as int + 1));
        }
        k = k + 1;
    }
    proof {
        assert(orig.skip(k as int).len() == 0);
        assert(orig.take(k as int) =~= orig);
        assert(entries@ =~= without_key(orig, id));
    }
}

} // verus!
