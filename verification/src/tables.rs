use vstd::prelude::*;
use crate::interner::Symbol;

verus! {

/// The latest entry for `key` in an association list.
pub open spec fn assoc<V>(table: Seq<(Symbol, V)>, key: Symbol) -> Option<V>
    decreases table.len(),
{
    if table.len() == 0 {
        None
    } else if table.last().0 == key {
        Some(table.last().1)
    } else {
        assoc(table.drop_last(), key)
    }
}

/// No key occurs twice in an association list.
pub open spec fn keys_unique<V>(table: Seq<(Symbol, V)>) -> bool {
    forall|i: int, j: int| 0 <= i < j < table.len() ==> (#[trigger] table[i]).0 != (#[trigger] table[j]).0
}

/// In a list whose keys are unique, the entry of a key is its only one.
pub proof fn lemma_assoc_unique<V>(table: Seq<(Symbol, V)>, i: int)
    requires
        keys_unique(table),
        0 <= i < table.len(),
    ensures
        assoc(table, table[i].0) == Some(table[i].1),
    decreases table.len(),
{
    if i < table.len() - 1 {
        assert(table.last().0 != table[i].0) by {
            assert(table[i] == table[i]);
            assert(table[table.len() - 1] == table.last());
        }
        let t = table.drop_last();
        assert(keys_unique(t)) by {
            assert forall|a: int, b: int| 0 <= a < b < t.len() implies (#[trigger] t[a]).0 != (#[trigger] t[b]).0 by {
                assert(t[a] == table[a] && t[b] == table[b]);
            }
        }
        assert(t[i] == table[i]);
        lemma_assoc_unique(t, i);
    }
}

/// A key that no entry has is not found.
pub proof fn lemma_assoc_absent<V>(table: Seq<(Symbol, V)>, key: Symbol)
    requires
        forall|i: int| 0 <= i < table.len() ==> (#[trigger] table[i]).0 != key,
    ensures
        assoc(table, key) is None,
    decreases table.len(),
{
    if table.len() > 0 {
        assert(table[table.len() - 1] == table.last());
        let t = table.drop_last();
        assert forall|i: int| 0 <= i < t.len() implies (#[trigger] t[i]).0 != key by {
            assert(t[i] == table[i]);
        }
        lemma_assoc_absent(t, key);
    }
}

/// A key that is not found has no entry.
pub proof fn lemma_assoc_none<V>(table: Seq<(Symbol, V)>, key: Symbol)
    requires
        assoc(table, key) is None,
    ensures
        forall|i: int| 0 <= i < table.len() ==> (#[trigger] table[i]).0 != key,
    decreases table.len(),
{
    if table.len() > 0 {
        let t = table.drop_last();
        lemma_assoc_none(t, key);
        assert forall|i: int| 0 <= i < table.len() implies (#[trigger] table[i]).0 != key by {
            if i < table.len() - 1 {
                assert(table[i] == t[i]);
            }
        }
    }
}

/// Adds an entry for `key` unless there is one already; keys stay unique
/// and the entries already there keep their values.
pub fn insert_if_absent<V>(table: &mut Vec<(Symbol, V)>, key: Symbol, value: V)
    requires
        keys_unique(old(table)@),
    ensures
        keys_unique(final(table)@),
        assoc(old(table)@, key) is Some ==> final(table)@ == old(table)@,
        assoc(old(table)@, key) is None ==> final(table)@ == old(table)@.push((key, value)),
{
    if find_last(table, key).is_none() {
        proof { lemma_assoc_none(table@, key); }
        table.push((key, value));
        proof {
            let t = table@;
            assert forall|a: int, b: int| 0 <= a < b < t.len() implies (#[trigger] t[a]).0 != (#[trigger] t[b]).0 by {
                assert(t[a] == old(table)@[a]);
                if b < t.len() - 1 {
                    assert(t[b] == old(table)@[b]);
                }
            }
        }
    }
}

/// The position of the latest entry for `key`.
pub fn find_last<V>(table: &Vec<(Symbol, V)>, key: Symbol) -> (r: Option<usize>)
    ensures
        r matches Some(i) ==> i < table@.len() && table@[i as int].0 == key
            && assoc(table@, key) == Some(table@[i as int].1),
        r is None ==> assoc(table@, key) is None,
{
    let mut i = table.len();
    assert(table@.take(i as int) =~= table@);
    while i > 0
        invariant
            i <= table@.len(),
            assoc(table@, key) == assoc(table@.take(i as int), key),
        decreases i,
    {
        proof {
            let t = table@.take(i as int);
            assert(t.drop_last() =~= table@.take(i - 1));
        }
        if table[i - 1].0 == key {
            return Some(i - 1);
        }
        i = i - 1;
    }
    None
}

/// The position of the entry for `key`, if there is one.
pub open spec fn key_position<V>(table: Seq<(Symbol, V)>, key: Symbol) -> Option<int> {
    if exists|i: int| 0 <= i < table.len() && table[i].0 == key {
        Some(choose|i: int| 0 <= i < table.len() && table[i].0 == key)
    } else {
        None
    }
}

/// The list after setting the entry of `key`: an existing entry is replaced
/// in place, or a new one goes at the end.
pub open spec fn inserted<V>(table: Seq<(Symbol, V)>, key: Symbol, value: V) -> Seq<(Symbol, V)> {
    match key_position(table, key) {
        Some(i) => table.update(i, (key, value)),
        None => table.push((key, value)),
    }
}

/// Sets the entry of `key` to `value`: the existing entry is replaced in
/// place, or a new one is added at the end.  Keys stay unique.
pub fn table_insert<V>(table: &mut Vec<(Symbol, V)>, key: Symbol, value: V)
    requires
        keys_unique(old(table)@),
    ensures
        keys_unique(final(table)@),
        assoc(final(table)@, key) == Some(value),
        forall|k: Symbol| k != key ==> #[trigger] assoc(final(table)@, k) == assoc(old(table)@, k),
        forall|i: int| 0 <= i < old(table)@.len() && old(table)@[i].0 != key
            ==> final(table)@[i] == #[trigger] old(table)@[i],
        final(table)@.len() >= old(table)@.len(),
        final(table)@.len() <= old(table)@.len() + 1,
        forall|i: int| old(table)@.len() <= i < final(table)@.len() ==> (#[trigger] final(table)@[i]).0 == key,
        forall|i: int| 0 <= i < final(table)@.len() && (#[trigger] final(table)@[i]).0 == key ==> final(table)@[i] == (key, value),
        forall|i: int| 0 <= i < old(table)@.len() ==> (#[trigger] final(table)@[i]).0 == old(table)@[i].0,
        final(table)@ == inserted(old(table)@, key, value),
{
    let n = table.len();
    let mut i: usize = 0;
    while i < n
        invariant
            n == table@.len(),
            i <= n,
            table@ == old(table)@,
            keys_unique(old(table)@),
            forall|k: int| 0 <= k < i ==> (#[trigger] table@[k]).0 != key,
        decreases n - i,
    {
        if table[i].0 == key {
            table.set(i, (key, value));
            proof {
                let j = choose|j: int| 0 <= j < old(table)@.len() && old(table)@[j].0 == key;
                if j != i as int {
                    if j < i {
                        assert(old(table)@[j].0 != old(table)@[i as int].0);
                    } else {
                        assert(old(table)@[i as int].0 != old(table)@[j].0);
                    }
                }
                let t = table@;
                assert(keys_unique(t)) by {
                    assert forall|a: int, b: int| 0 <= a < b < t.len() implies (#[trigger] t[a]).0 != (#[trigger] t[b]).0 by {
                        assert(t[a].0 == old(table)@[a].0 && t[b].0 == old(table)@[b].0);
                    }
                }
                lemma_assoc_unique(t, i as int);
                assert forall|a: int| 0 <= a < t.len() && (#[trigger] t[a]).0 == key implies t[a] == (key, value) by {
                    if a != i {
                        assert(t[a] == old(table)@[a]);
                        assert(old(table)@[a].0 != old(table)@[i as int].0);
                    }
                }
                assert forall|k: Symbol| k != key implies #[trigger] assoc(t, k) == assoc(old(table)@, k) by {
                    lemma_assoc_swap(old(table)@, t, i as int, k);
                }
            }
            return;
        }
        i = i + 1;
    }
    table.push((key, value));
    proof {
        let t = table@;
        assert(key_position(old(table)@, key) is None);
        assert(t.drop_last() =~= old(table)@);
        assert forall|a: int| 0 <= a < t.len() && (#[trigger] t[a]).0 == key implies t[a] == (key, value) by {
            if a < t.len() - 1 {
                assert(t[a] == old(table)@[a]);
            }
        }
        assert(keys_unique(t)) by {
            assert forall|a: int, b: int| 0 <= a < b < t.len() implies (#[trigger] t[a]).0 != (#[trigger] t[b]).0 by {
                if b == t.len() - 1 {
                    assert(t[a] == old(table)@[a]);
                } else {
                    assert(t[a] == old(table)@[a] && t[b] == old(table)@[b]);
                }
            }
        }
    }
}

/// Replacing the value of one entry leaves the other keys' entries alone.
proof fn lemma_assoc_swap<V>(a: Seq<(Symbol, V)>, b: Seq<(Symbol, V)>, i: int, k: Symbol)
    requires
        a.len() == b.len(),
        0 <= i < a.len(),
        a[i].0 == b[i].0,
        a[i].0 != k,
        forall|j: int| 0 <= j < a.len() && j != i ==> a[j] == b[j],
    ensures
        assoc(b, k) == assoc(a, k),
    decreases a.len(),
{
    if a.len() > 0 {
        let n = a.len() - 1;
        if n != i {
            assert(a[n] == b[n]);
        }
        assert(a.last() == a[n] && b.last() == b[n]);
        if a.last().0 != k && n > i {
            lemma_assoc_swap(a.drop_last(), b.drop_last(), i, k);
        } else if a.last().0 != k && n == i {
            assert(a.drop_last() =~= b.drop_last()) by {
                assert forall|j: int| 0 <= j < a.drop_last().len() implies a.drop_last()[j] == b.drop_last()[j] by {
                    assert(a[j] == b[j]);
                }
            }
        }
    }
}

} // verus!
