use pace_compiler::runtime::{
    mapClear, mapContains, mapGetRaw, mapInit, mapKeyAt, mapKeysLen, mapRemove, mapSet, mapValueAt, pace_release,
    pace_retain, paceStringBuilderAppend, paceStringBuilderNew, setClear, setContains, setInit, setInsert, setLen,
    setRemove, setValueAt, setValuesLen, ArcHeader,
};

#[test]
fn map_reads_back_what_was_set() {
    let mut m = mapInit();
    mapSet(&mut m, 7, 700);
    mapSet(&mut m, 9, 900);
    assert_eq!(mapGetRaw(&m, 7), 700);
    assert_eq!(mapGetRaw(&m, 9), 900);
    assert_eq!(mapGetRaw(&m, 8), 0);
    mapSet(&mut m, 7, 701);
    assert_eq!(mapGetRaw(&m, 7), 701);
    assert_eq!(mapKeysLen(&m), 2);
}

#[test]
fn map_walks_keys_in_insertion_order() {
    let mut m = mapInit();
    mapSet(&mut m, 30, 3);
    mapSet(&mut m, 10, 1);
    mapSet(&mut m, 20, 2);
    mapSet(&mut m, 30, 33);
    assert_eq!(mapKeyAt(&m, 0), 30);
    assert_eq!(mapValueAt(&m, 0), 33);
    assert_eq!(mapKeyAt(&m, 2), 20);
    assert_eq!(mapValueAt(&m, 1), 1);
    assert_eq!(mapKeyAt(&m, 3), 0);
    assert_eq!(mapKeyAt(&m, -1), 0);
    assert_eq!(mapValueAt(&m, 5), 0);
}

#[test]
fn map_remove_and_clear() {
    let mut m = mapInit();
    mapSet(&mut m, 1, 11);
    mapSet(&mut m, 2, 22);
    mapSet(&mut m, 3, 33);
    mapRemove(&mut m, 2);
    assert_eq!(mapContains(&m, 2), 0);
    assert_eq!(mapContains(&m, 3), 1);
    assert_eq!(mapGetRaw(&m, 2), 0);
    assert_eq!(mapKeyAt(&m, 1), 3);
    mapRemove(&mut m, 42);
    assert_eq!(mapKeysLen(&m), 2);
    mapClear(&mut m);
    assert_eq!(mapKeysLen(&m), 0);
    assert_eq!(mapContains(&m, 1), 0);
}

#[test]
fn set_insert_is_idempotent() {
    let mut s = setInit();
    setInsert(&mut s, 5);
    setInsert(&mut s, 6);
    setInsert(&mut s, 5);
    assert_eq!(setLen(&s), 2);
    assert_eq!(setValuesLen(&s), 2);
    assert_eq!(setContains(&s, 5), 1);
    assert_eq!(setContains(&s, 7), 0);
    assert_eq!(setValueAt(&s, 0), 5);
    assert_eq!(setValueAt(&s, 1), 6);
    assert_eq!(setValueAt(&s, 2), 0);
    assert_eq!(setValueAt(&s, -3), 0);
}

#[test]
fn set_remove_and_clear() {
    let mut s = setInit();
    setInsert(&mut s, 1);
    setInsert(&mut s, 2);
    setInsert(&mut s, 3);
    setRemove(&mut s, 2);
    assert_eq!(setContains(&s, 2), 0);
    assert_eq!(setValueAt(&s, 1), 3);
    setRemove(&mut s, 9);
    assert_eq!(setLen(&s), 2);
    setClear(&mut s);
    assert_eq!(setLen(&s), 0);
}

#[test]
fn reference_counts_wrap_like_the_atomic_counter() {
    let mut h = ArcHeader { ref_count: 1, size: 16 };
    pace_retain(&mut h);
    assert_eq!(h.ref_count, 2);
    assert!(!pace_release(&mut h));
    assert!(pace_release(&mut h));
    assert_eq!(h.ref_count, 0);
    assert!(!pace_release(&mut h));
    assert_eq!(h.ref_count, usize::MAX);
    pace_retain(&mut h);
    assert_eq!(h.ref_count, 0);
    assert_eq!(h.size, 16);
}

#[test]
fn string_builder_collects_bytes() {
    let mut b = paceStringBuilderNew();
    paceStringBuilderAppend(&mut b, b"Hello, ");
    paceStringBuilderAppend(&mut b, b"");
    paceStringBuilderAppend(&mut b, b"Pace");
    assert_eq!(b.bytes().as_slice(), b"Hello, Pace");
}
