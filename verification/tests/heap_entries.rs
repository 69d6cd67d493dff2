//! Slot storage: allocation, freeing and reuse of slot ids.
//!
//! `allocate` takes `&mut self`, so the borrow checker does not let a reference into
//! the storage live across it; these tests read the earlier slots again after each
//! allocation and check that they still hold their values.

use std::collections::HashSet;

use monty::heap_entries::{HeapEntries, PAGE_SIZE};

#[derive(Debug)]
struct Str(String);

fn dummy(label: &str) -> Str {
    Str(label.to_owned())
}

#[test]
fn allocate_while_reference_alive() {
    let mut entries = HeapEntries::with_capacity(16);
    let id_a = entries.allocate(dummy("a"));
    let id_b = entries.allocate(dummy("b"));

    assert!(format!("{:?}", entries.get(id_a)).contains("Str"));
    assert!(format!("{:?}", entries.get(id_b)).contains("Str"));
    assert_eq!(entries.get(id_a).0, "a");
    assert_eq!(entries.get(id_b).0, "b");
}

#[test]
fn allocate_triggers_new_page_while_reference_alive() {
    let mut entries = HeapEntries::with_capacity(PAGE_SIZE);

    for i in 0..PAGE_SIZE {
        entries.allocate(dummy(&format!("fill-{i}")));
    }
    assert_eq!(entries.len(), PAGE_SIZE);

    let overflow_id = entries.allocate(dummy("overflow"));

    assert!(format!("{:?}", entries.get(0)).contains("Str"));
    assert_eq!(entries.get(0).0, "fill-0");
    assert!(format!("{:?}", entries.get(overflow_id)).contains("Str"));
    assert_eq!(overflow_id, PAGE_SIZE);
}

#[test]
fn free_list_reuse_while_reference_alive() {
    let mut entries = HeapEntries::with_capacity(16);
    let id_a = entries.allocate(dummy("a"));
    let id_b = entries.allocate(dummy("b"));
    let _id_c = entries.allocate(dummy("c"));

    // Free slot b: take its value out, then hand the id back.
    *entries.get_mut(id_b) = None;
    entries.free(id_b);

    let id_reused = entries.allocate(dummy("reused"));
    assert_eq!(id_reused, id_b); // should reuse the freed slot

    assert!(format!("{:?}", entries.get(id_a)).contains("Str"));
    assert_eq!(entries.get(id_a).0, "a");
    assert!(format!("{:?}", entries.get(id_reused)).contains("reused"));
}

#[test]
fn multiple_live_references_during_allocation() {
    let mut entries = HeapEntries::with_capacity(PAGE_SIZE * 2);

    for i in 0..PAGE_SIZE * 2 {
        entries.allocate(dummy(&format!("v-{i}")));
    }

    let new_id = entries.allocate(dummy("new"));

    assert!(format!("{:?}", entries.get(0)).contains("Str"));
    assert!(format!("{:?}", entries.get(PAGE_SIZE)).contains("Str"));
    assert!(format!("{:?}", entries.get(new_id)).contains("Str"));
    assert_eq!(entries.get(0).0, "v-0");
    assert_eq!(entries.get(PAGE_SIZE).0, format!("v-{PAGE_SIZE}"));
}

#[test]
fn allocate_into_freed_slot_does_not_alias_other_slots() {
    let mut entries = HeapEntries::with_capacity(16);

    let ids: Vec<_> = (0..8).map(|i| entries.allocate(dummy(&format!("v-{i}")))).collect();

    // Free even-indexed slots.
    for &id in ids.iter().step_by(2) {
        *entries.get_mut(id) = None;
        entries.free(id);
    }

    // Reallocate into freed slots.
    for i in 0..4 {
        entries.allocate(dummy(&format!("realloc-{i}")));
    }

    // The odd-indexed (live) slots are unchanged.
    for &id in ids.iter().skip(1).step_by(2) {
        let r = entries.get(id);
        assert!(format!("{r:?}").contains("Str"));
        assert_eq!(r.0, format!("v-{id}"));
    }
    assert_eq!(entries.len(), 8);
}

#[test]
fn retain_then_allocate_reuses_freed_slots() {
    let mut entries = HeapEntries::with_capacity(16);

    for i in 0..6 {
        entries.allocate(dummy(&format!("v-{i}")));
    }

    // Retain only even-indexed entries.
    entries.retain(|i, _| i % 2 == 0);

    for i in [1, 3, 5] {
        assert!(!entries.is_allocated(i));
    }

    let r1 = entries.allocate(dummy("new-1"));
    let r2 = entries.allocate(dummy("new-2"));
    let r3 = entries.allocate(dummy("new-3"));

    let reused: HashSet<usize> = [r1, r2, r3].into_iter().collect();
    assert!(reused.contains(&1) || reused.contains(&3) || reused.contains(&5));
    assert_eq!(reused.len(), 3);

    for i in 0..6 {
        assert!(entries.is_allocated(i), "slot {i} should be occupied");
    }
}

#[test]
fn most_recently_freed_slot_is_reused_first() {
    let mut entries = HeapEntries::with_capacity(4);
    for i in 0..4 {
        entries.allocate(dummy(&format!("v-{i}")));
    }
    for id in [2, 0] {
        *entries.get_mut(id) = None;
        entries.free(id);
    }
    assert_eq!(entries.free_len(), 2);
    assert_eq!(entries.allocate(dummy("x")), 0);
    assert_eq!(entries.allocate(dummy("y")), 2);
    assert_eq!(entries.allocate(dummy("z")), 4);
    assert_eq!(entries.free_len(), 0);
}

#[test]
fn from_entries_lists_empty_slots_for_reuse() {
    let mut entries = HeapEntries::from_entries(vec![Some(dummy("a")), None, Some(dummy("c")), None]);
    assert_eq!(entries.len(), 4);
    assert_eq!(entries.free_len(), 2);
    // Empty slots are listed in increasing order and the last one is reused first.
    assert_eq!(entries.allocate(dummy("d")), 3);
    assert_eq!(entries.allocate(dummy("e")), 1);
    assert_eq!(entries.allocate(dummy("f")), 4);
}
