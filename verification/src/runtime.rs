use vstd::prelude::*;

verus! {

/// The position of the entry for `key`, if there is one.
pub open spec fn position_of(entries: Seq<(u64, u64)>, key: u64) -> Option<int> {
    if exists|i: int| 0 <= i < entries.len() && entries[i].0 == key {
        Some(choose|i: int| 0 <= i < entries.len() && entries[i].0 == key)
    } else {
        None
    }
}

/// The entries after setting the value of `key`: an existing entry keeps
/// its place, a new one goes last.
pub open spec fn set_entry(entries: Seq<(u64, u64)>, key: u64, val: u64) -> Seq<(u64, u64)> {
    match position_of(entries, key) {
        Some(i) => entries.update(i, (key, val)),
        None => entries.push((key, val)),
    }
}

/// The entries after removing the entry of `key`.
pub open spec fn remove_entry(entries: Seq<(u64, u64)>, key: u64) -> Seq<(u64, u64)> {
    match position_of(entries, key) {
        Some(i) => entries.remove(i),
        None => entries,
    }
}

/// The value of `key`, or the null address 0.
pub open spec fn value_of(entries: Seq<(u64, u64)>, key: u64) -> u64 {
    match position_of(entries, key) {
        Some(i) => entries[i].1,
        None => 0,
    }
}

/// The values after inserting `val`.
pub open spec fn insert_value(values: Seq<u64>, val: u64) -> Seq<u64> {
    if values.contains(val) { values } else { values.push(val) }
}

/// No key occurs twice.
pub open spec fn unique_keys(entries: Seq<(u64, u64)>) -> bool {
    forall|i: int, j: int| 0 <= i < j < entries.len() ==> entries[i].0 != entries[j].0
}

/// No value occurs twice.
pub open spec fn unique_values(values: Seq<u64>) -> bool {
    forall|i: int, j: int| 0 <= i < j < values.len() ==> values[i] != values[j]
}

/// `index` as a position in a collection of `len` elements, if it is one.
pub open spec fn in_range(index: i64, len: nat) -> bool {
    0 <= index && index < len
}

/// The map that compiled programs use: from 64-bit keys to object
/// addresses (0 stands for the null address).  Its entries are walked in
/// the order in which their keys were first set.  The entries are kept in
/// a vector, not a hash map, because programs read them by position, and a
/// hash map leaves the order of such reads unspecified.
pub struct PaceMap {
    entries: Vec<(u64, u64)>,
}

impl View for PaceMap {
    type V = Seq<(u64, u64)>;

    closed spec fn view(&self) -> Seq<(u64, u64)> {
        self.entries@
    }
}

impl PaceMap {
    #[verifier::type_invariant]
    closed spec fn inv(self) -> bool {
        unique_keys(self.entries@)
    }

    /// No key occurs twice in the map.
    pub fn keys_are_unique(&self)
        ensures
            unique_keys(self@),
    {
        proof { use_type_invariant(self); }
    }

    fn find(&self, key: u64) -> (r: Option<usize>)
        ensures
            r matches Some(i) ==> position_of(self@, key) == Some(i as int) && i < self@.len(),
            r is None ==> position_of(self@, key) is None,
    {
        proof { use_type_invariant(self); }
        let mut i: usize = 0;
        while i < self.entries.len()
            invariant
                i <= self@.len(),
                self@ == self.entries@,
                unique_keys(self@),
                forall|k: int| 0 <= k < i ==> self@[k].0 != key,
            decreases self@.len() - i,
        {
            if self.entries[i].0 == key {
                proof {
                    let j = choose|j: int| 0 <= j < self@.len() && self@[j].0 == key;
                    assert(j == i);
                }
                return Some(i);
            }
            i = i + 1;
        }
        None
    }
}

/// A new, empty map.
#[allow(non_snake_case)]
pub fn mapInit() -> (m: PaceMap)
    ensures
        m@ == Seq::<(u64, u64)>::empty(),
{
    PaceMap { entries: Vec::new() }
}

/// Sets the value of `key`: an existing entry keeps its place, a new one
/// goes last.
#[allow(non_snake_case)]
pub fn mapSet(map: &mut PaceMap, key: u64, val: u64)
    ensures
        final(map)@ == set_entry(old(map)@, key, val),
{
    proof { use_type_invariant(&*map); }
    match map.find(key) {
        Some(i) => {
            let mut entries = Vec::new();
            std::mem::swap(&mut entries, &mut map.entries);
            entries.set(i, (key, val));
            proof {
                assert forall|a: int, b: int| 0 <= a < b < entries@.len() implies entries@[a].0 != entries@[b].0 by {
                    assert(entries@[a].0 == old(map)@[a].0 && entries@[b].0 == old(map)@[b].0);
                }
            }
            map.entries = entries;
        },
        None => {
            let mut entries = Vec::new();
            std::mem::swap(&mut entries, &mut map.entries);
            entries.push((key, val));
            proof {
                assert forall|a: int, b: int| 0 <= a < b < entries@.len() implies entries@[a].0 != entries@[b].0 by {
                    if b == entries@.len() - 1 {
                        assert(entries@[a] == old(map)@[a]);
                    } else {
                        assert(entries@[a] == old(map)@[a] && entries@[b] == old(map)@[b]);
                    }
                }
            }
            map.entries = entries;
        },
    }
}

/// The value of `key`, or the null address 0 when it has none.
#[allow(non_snake_case)]
pub fn mapGetRaw(map: &PaceMap, key: u64) -> (r: u64)
    ensures
        r == value_of(map@, key),
{
    match map.find(key) {
        Some(i) => map.entries[i].1,
        None => 0,
    }
}

/// Removes the entry of `key`, if there is one; the others keep their
/// order.
#[allow(non_snake_case)]
pub fn mapRemove(map: &mut PaceMap, key: u64)
    ensures
        final(map)@ == remove_entry(old(map)@, key),
{
    proof { use_type_invariant(&*map); }
    match map.find(key) {
        Some(i) => {
            let mut entries = Vec::new();
            std::mem::swap(&mut entries, &mut map.entries);
            let _ = entries.remove(i);
            proof {
                assert forall|a: int, b: int| 0 <= a < b < entries@.len() implies entries@[a].0 != entries@[b].0 by {
                    let oa = if a < i { a } else { a + 1 };
                    let ob = if b < i { b } else { b + 1 };
                    assert(entries@[a] == old(map)@[oa] && entries@[b] == old(map)@[ob]);
                }
            }
            map.entries = entries;
        },
        None => {},
    }
}

/// 1 when `key` has an entry, 0 otherwise.
#[allow(non_snake_case)]
pub fn mapContains(map: &PaceMap, key: u64) -> (r: i64)
    ensures
        r == (if position_of(map@, key) is Some { 1i64 } else { 0i64 }),
{
    if map.find(key).is_some() { 1 } else { 0 }
}

/// Removes every entry.
#[allow(non_snake_case)]
pub fn mapClear(map: &mut PaceMap)
    ensures
        final(map)@ == Seq::<(u64, u64)>::empty(),
{
    map.entries = Vec::new();
}

/// The number of entries.
#[allow(non_snake_case)]
pub fn mapKeysLen(map: &PaceMap) -> (r: i64)
    ensures
        map@.len() <= i64::MAX ==> r == map@.len(),
{
    #[verifier::truncate]
    let r = map.entries.len() as i64;
    r
}

/// The key of the entry at position `index`, or 0 when there is none.
#[allow(non_snake_case)]
pub fn mapKeyAt(map: &PaceMap, index: i64) -> (r: u64)
    ensures
        r == (if in_range(index, map@.len()) { map@[index as int].0 } else { 0u64 }),
{
    if index < 0 || index as u64 >= map.entries.len() as u64 {
        0
    } else {
        map.entries[index as usize].0
    }
}

/// The value of the entry at position `index`, or 0 when there is none.
#[allow(non_snake_case)]
pub fn mapValueAt(map: &PaceMap, index: i64) -> (r: u64)
    ensures
        r == (if in_range(index, map@.len()) { map@[index as int].1 } else { 0u64 }),
{
    if index < 0 || index as u64 >= map.entries.len() as u64 {
        0
    } else {
        map.entries[index as usize].1
    }
}

/// The set of 64-bit values that compiled programs use.  Its values are
/// walked in the order in which they were inserted; like the map, it is a
/// vector so that reads by position have a fixed order.
pub struct PaceSet {
    values: Vec<u64>,
}

impl View for PaceSet {
    type V = Seq<u64>;

    closed spec fn view(&self) -> Seq<u64> {
        self.values@
    }
}

impl PaceSet {
    #[verifier::type_invariant]
    closed spec fn inv(self) -> bool {
        unique_values(self.values@)
    }

    /// No value occurs twice in the set.
    pub fn values_are_unique(&self)
        ensures
            unique_values(self@),
    {
        proof { use_type_invariant(self); }
    }

    fn find(&self, val: u64) -> (r: Option<usize>)
        ensures
            r matches Some(i) ==> i < self@.len() && self@[i as int] == val,
            r is None ==> !self@.contains(val),
    {
        let mut i: usize = 0;
        while i < self.values.len()
            invariant
                i <= self@.len(),
                self@ == self.values@,
                forall|k: int| 0 <= k < i ==> self@[k] != val,
            decreases self@.len() - i,
        {
            if self.values[i] == val {
                return Some(i);
            }
            i = i + 1;
        }
        None
    }
}

/// A new, empty set.
#[allow(non_snake_case)]
pub fn setInit() -> (s: PaceSet)
    ensures
        s@ == Seq::<u64>::empty(),
{
    PaceSet { values: Vec::new() }
}

/// Adds `val` at the end unless it is in the set already.
#[allow(non_snake_case)]
pub fn setInsert(set: &mut PaceSet, val: u64)
    ensures
        final(set)@ == insert_value(old(set)@, val),
{
    proof { use_type_invariant(&*set); }
    if set.find(val).is_none() {
        let mut values = Vec::new();
        std::mem::swap(&mut values, &mut set.values);
        values.push(val);
        proof {
            assert forall|a: int, b: int| 0 <= a < b < values@.len() implies values@[a] != values@[b] by {
                assert(values@[a] == old(set)@[a]);
                if b < values@.len() - 1 {
                    assert(values@[b] == old(set)@[b]);
                }
            }
        }
        set.values = values;
    }
}

/// Removes `val`, if it is in the set; the others keep their order.
#[allow(non_snake_case)]
pub fn setRemove(set: &mut PaceSet, val: u64)
    ensures
        old(set)@.contains(val) ==> exists|i: int| 0 <= i < old(set)@.len() && old(set)@[i] == val
            && final(set)@ == old(set)@.remove(i),
        !old(set)@.contains(val) ==> final(set)@ == old(set)@,
        !final(set)@.contains(val),
{
    proof { use_type_invariant(&*set); }
    match set.find(val) {
        Some(i) => {
            let mut values = Vec::new();
            std::mem::swap(&mut values, &mut set.values);
            let _ = values.remove(i);
            proof {
                let o = old(set)@;
                assert forall|a: int, b: int| 0 <= a < b < values@.len() implies values@[a] != values@[b] by {
                    let oa = if a < i { a } else { a + 1 };
                    let ob = if b < i { b } else { b + 1 };
                    assert(values@[a] == o[oa] && values@[b] == o[ob]);
                }
                assert(!values@.contains(val)) by {
                    if values@.contains(val) {
                        let j = choose|j: int| 0 <= j < values@.len() && values@[j] == val;
                        let oj = if j < i { j } else { j + 1 };
                        assert(o[oj] == o[i as int]);
                    }
                }
            }
            set.values = values;
        },
        None => {},
    }
}

/// 1 when `val` is in the set, 0 otherwise.
#[allow(non_snake_case)]
pub fn setContains(set: &PaceSet, val: u64) -> (r: i64)
    ensures
        r == (if set@.contains(val) { 1i64 } else { 0i64 }),
{
    if set.find(val).is_some() { 1 } else { 0 }
}

/// Removes every value.
#[allow(non_snake_case)]
pub fn setClear(set: &mut PaceSet)
    ensures
        final(set)@ == Seq::<u64>::empty(),
{
    set.values = Vec::new();
}

/// The number of values.
#[allow(non_snake_case)]
pub fn setLen(set: &PaceSet) -> (r: i64)
    ensures
        set@.len() <= i64::MAX ==> r == set@.len(),
{
    #[verifier::truncate]
    let r = set.values.len() as i64;
    r
}

/// The number of values (as `setLen`).
#[allow(non_snake_case)]
pub fn setValuesLen(set: &PaceSet) -> (r: i64)
    ensures
        set@.len() <= i64::MAX ==> r == set@.len(),
{
    setLen(set)
}

/// The value at position `index`, or 0 when there is none.
#[allow(non_snake_case)]
pub fn setValueAt(set: &PaceSet, index: i64) -> (r: u64)
    ensures
        r == (if in_range(index, set@.len()) { set@[index as int] } else { 0u64 }),
{
    if index < 0 || index as u64 >= set.values.len() as u64 {
        0
    } else {
        set.values[index as usize]
    }
}

/// The header of a reference-counted object: how many references there
/// are and the size of the object's payload.
pub struct ArcHeader {
    pub ref_count: usize,
    pub size: usize,
}

/// The count after one more reference; it wraps around, as the atomic
/// counter does.
pub open spec fn retained(count: usize) -> usize {
    if count == usize::MAX { 0 } else { (count + 1) as usize }
}

/// The count after one reference less; it wraps around, as the atomic
/// counter does.
pub open spec fn released(count: usize) -> usize {
    if count == 0 { usize::MAX } else { (count - 1) as usize }
}

/// Takes one more reference to the object.
pub fn pace_retain(header: &mut ArcHeader)
    ensures
        final(header).ref_count == retained(old(header).ref_count),
        final(header).size == old(header).size,
{
    header.ref_count = header.ref_count.wrapping_add(1);
}

/// Gives up one reference to the object; the result says whether it was
/// the last, so that the object must be finalized and freed.
pub fn pace_release(header: &mut ArcHeader) -> (last: bool)
    ensures
        last == (old(header).ref_count == 1),
        final(header).ref_count == released(old(header).ref_count),
        final(header).size == old(header).size,
{
    let previous = header.ref_count;
    header.ref_count = previous.wrapping_sub(1);
    previous == 1
}

/// The bytes that a string builder has collected.
pub struct PaceStringBuilder {
    bytes: Vec<u8>,
}

impl View for PaceStringBuilder {
    type V = Seq<u8>;

    closed spec fn view(&self) -> Seq<u8> {
        self.bytes@
    }
}

impl PaceStringBuilder {
    /// The collected bytes.
    pub fn bytes(&self) -> (b: &Vec<u8>)
        ensures
            b@ == self@,
    {
        &self.bytes
    }
}

/// A new, empty string builder.
#[allow(non_snake_case)]
pub fn paceStringBuilderNew() -> (b: PaceStringBuilder)
    ensures
        b@ == Seq::<u8>::empty(),
{
    PaceStringBuilder { bytes: Vec::new() }
}

/// Appends the bytes of a string to the builder.
#[allow(non_snake_case)]
pub fn paceStringBuilderAppend(builder: &mut PaceStringBuilder, s: &[u8])
    ensures
        final(builder)@ == old(builder)@ + s@,
{
    let mut i: usize = 0;
    while i < s.len()
        invariant
            i <= s@.len(),
            builder@ == old(builder)@ + s@.take(i as int),
        decreases s@.len() - i,
    {
        builder.bytes.push(s[i]);
        i = i + 1;
        assert(builder@ =~= old(builder)@ + s@.take(i as int));
    }
    assert(s@.take(s@.len() as int) =~= s@);
}

} // verus!
