use vstd::prelude::*;

use crate::bencode::types::equal_bytes;
use vstd::pervasive::VecAdditionalExecFns;

verus! {

/// A table of counts per peer id, as values.
pub open spec fn table_view(t: Seq<(Vec<u8>, u64)>) -> Seq<(Seq<u8>, nat)> {
    t.map_values(|e: (Vec<u8>, u64)| (e.0@, e.1 as nat))
}

/// No peer id occurs twice in the table.
pub open spec fn keys_distinct(t: Seq<(Seq<u8>, nat)>) -> bool {
    forall|i: int, j: int| 0 <= i < j < t.len() ==> #[trigger] t[i].0 != #[trigger] t[j].0
}

/// Whether `k` is the id at some position of the table.
pub open spec fn has_key(t: Seq<(Seq<u8>, nat)>, k: Seq<u8>) -> bool {
    exists|i: int| 0 <= i < t.len() && t[i].0 == k
}

/// The table as a map from peer id to count.
pub open spec fn count_map(t: Seq<(Seq<u8>, nat)>) -> Map<Seq<u8>, nat> {
    Map::new(
        |k: Seq<u8>| has_key(t, k),
        |k: Seq<u8>| t[choose|i: int| 0 <= i < t.len() && t[i].0 == k].1,
    )
}

pub proof fn lemma_count_map_at(t: Seq<(Seq<u8>, nat)>, i: int)
    requires
        keys_distinct(t),
        0 <= i < t.len(),
    ensures
        count_map(t).contains_key(t[i].0),
        count_map(t)[t[i].0] == t[i].1,
{
    assert(has_key(t, t[i].0));
    let j = choose|j: int| 0 <= j < t.len() && t[j].0 == t[i].0;
    if j != i {
        if j < i {
            assert(t[j].0 != t[i].0);
        } else {
            assert(t[i].0 != t[j].0);
        }
    }
}

pub proof fn lemma_count_map_absent(t: Seq<(Seq<u8>, nat)>, k: Seq<u8>)
    requires
        forall|i: int| 0 <= i < t.len() ==> #[trigger] t[i].0 != k,
    ensures
        !count_map(t).contains_key(k),
{
}

/// Setting the count at a position sets it in the map.
pub proof fn lemma_count_map_set(t: Seq<(Seq<u8>, nat)>, i: int, v: nat)
    requires
        keys_distinct(t),
        0 <= i < t.len(),
    ensures
        keys_distinct(t.update(i, (t[i].0, v))),
        count_map(t.update(i, (t[i].0, v))) == count_map(t).insert(t[i].0, v),
{
    let u = t.update(i, (t[i].0, v));
    assert(keys_distinct(u)) by {
        assert forall|a: int, b: int| 0 <= a < b < u.len() implies #[trigger] u[a].0
            != #[trigger] u[b].0 by {
            assert(u[a].0 == t[a].0 && u[b].0 == t[b].0);
        }
    }
    assert forall|k: Seq<u8>| has_key(u, k) == has_key(t, k) by {
        if has_key(t, k) {
            let j = choose|j: int| 0 <= j < t.len() && t[j].0 == k;
            assert(u[j].0 == k);
        }
        if has_key(u, k) {
            let j = choose|j: int| 0 <= j < u.len() && u[j].0 == k;
            assert(t[j].0 == k);
        }
    }
    assert forall|k: Seq<u8>| #[trigger] count_map(u).contains_key(k) implies count_map(u)[k]
        == count_map(t).insert(t[i].0, v)[k] by {
        let j = choose|j: int| 0 <= j < u.len() && u[j].0 == k;
        lemma_count_map_at(u, j);
        lemma_count_map_at(t, j);
    }
    assert(count_map(u) =~= count_map(t).insert(t[i].0, v));
}

/// Adding an entry for a new id adds it to the map.
pub proof fn lemma_count_map_push(t: Seq<(Seq<u8>, nat)>, k: Seq<u8>, v: nat)
    requires
        keys_distinct(t),
        !count_map(t).contains_key(k),
    ensures
        keys_distinct(t.push((k, v))),
        count_map(t.push((k, v))) == count_map(t).insert(k, v),
{
    let u = t.push((k, v));
    assert forall|i: int| 0 <= i < t.len() implies #[trigger] t[i].0 != k by {
        assert(!has_key(t, k));
    }
    assert(keys_distinct(u)) by {
        assert forall|a: int, b: int| 0 <= a < b < u.len() implies #[trigger] u[a].0
            != #[trigger] u[b].0 by {
            assert(u[a].0 == t[a].0);
            if b < t.len() {
                assert(u[b].0 == t[b].0);
            }
        }
    }
    assert forall|x: Seq<u8>| has_key(u, x) == (has_key(t, x) || x == k) by {
        if has_key(t, x) {
            let j = choose|j: int| 0 <= j < t.len() && t[j].0 == x;
            assert(u[j].0 == x);
        }
        if x == k {
            assert(u[t.len() as int].0 == x);
        }
        if has_key(u, x) && x != k {
            let j = choose|j: int| 0 <= j < u.len() && u[j].0 == x;
            assert(t[j].0 == x);
        }
    }
    assert forall|x: Seq<u8>| #[trigger] count_map(u).contains_key(x) implies count_map(u)[x]
        == count_map(t).insert(k, v)[x] by {
        let j = choose|j: int| 0 <= j < u.len() && u[j].0 == x;
        lemma_count_map_at(u, j);
        if j < t.len() {
            lemma_count_map_at(t, j);
        }
    }
    assert(count_map(u) =~= count_map(t).insert(k, v));
}

/// Removing the entry at a position removes its id from the map.
pub proof fn lemma_count_map_remove(t: Seq<(Seq<u8>, nat)>, i: int)
    requires
        keys_distinct(t),
        0 <= i < t.len(),
    ensures
        keys_distinct(t.remove(i)),
        count_map(t.remove(i)) == count_map(t).remove(t[i].0),
{
    let u = t.remove(i);
    let k = t[i].0;
    assert forall|a: int| 0 <= a < u.len() implies #[trigger] u[a] == if a < i {
        t[a]
    } else {
        t[a + 1]
    } by {}
    assert(keys_distinct(u)) by {
        assert forall|a: int, b: int| 0 <= a < b < u.len() implies #[trigger] u[a].0
            != #[trigger] u[b].0 by {
            let a1 = if a < i {
                a
            } else {
                a + 1
            };
            let b1 = if b < i {
                b
            } else {
                b + 1
            };
            assert(u[a].0 == t[a1].0 && u[b].0 == t[b1].0 && a1 < b1);
        }
    }
    assert forall|x: Seq<u8>| has_key(u, x) == (has_key(t, x) && x != k) by {
        if has_key(t, x) && x != k {
            let j = choose|j: int| 0 <= j < t.len() && t[j].0 == x;
            assert(j != i);
            if j < i {
                assert(u[j].0 == x);
            } else {
                assert(u[j - 1].0 == x);
            }
        }
        if has_key(u, x) {
            let j = choose|j: int| 0 <= j < u.len() && u[j].0 == x;
            let j1 = if j < i {
                j
            } else {
                j + 1
            };
            assert(t[j1].0 == x);
            if x == k {
                if j1 < i {
                    assert(t[j1].0 != t[i].0);
                } else {
                    assert(t[i].0 != t[j1].0);
                }
            }
        }
    }
    assert forall|x: Seq<u8>| #[trigger] count_map(u).contains_key(x) implies count_map(u)[x]
        == count_map(t).remove(k)[x] by {
        let j = choose|j: int| 0 <= j < u.len() && u[j].0 == x;
        lemma_count_map_at(u, j);
        let j1 = if j < i {
            j
        } else {
            j + 1
        };
        lemma_count_map_at(t, j1);
    }
    assert(count_map(u) =~= count_map(t).remove(k));
}

/// The position of `peer` in the table, if it is there.
pub fn find_peer(table: &Vec<(Vec<u8>, u64)>, peer: &[u8]) -> (r: Option<usize>)
    ensures
        match r {
            Some(i) => i < table.len() && table@[i as int].0@ == peer@,
            None => forall|i: int| 0 <= i < table.len() ==> #[trigger] table@[i].0@ != peer@,
        },
{
    let mut i: usize = 0;
    while i < table.len()
        invariant
            i <= table.len(),
            forall|j: int| 0 <= j < i ==> #[trigger] table@[j].0@ != peer@,
        decreases table.len() - i,
    {
        if equal_bytes(table[i].0.as_slice(), peer) {
            return Some(i);
        }
        i += 1;
    }
    None
}

/// Sets the count at position `i`.
pub fn set_count(table: &mut Vec<(Vec<u8>, u64)>, i: usize, value: u64)
    requires
        i < old(table).len(),
    ensures
        table_view(final(table)@) == table_view(old(table)@).update(
            i as int,
            (old(table)@[i as int].0@, value as nat),
        ),
{
    let mut entry: (Vec<u8>, u64) = (Vec::new(), 0);
    table.set_and_swap(i, &mut entry);
    let (key, _) = entry;
    table.set(i, (key, value));
    assert(table_view(table@) =~= table_view(old(table)@).update(
        i as int,
        (old(table)@[i as int].0@, value as nat),
    ));
}

} // verus!
