use std::sync::atomic::{AtomicBool, AtomicUsize, Ordering};
use std::sync::Arc;

use snap7::server::area;
use snap7::server::store::{CpuState, DataStore, EVENT_READ, EVENT_WRITE};

#[test]
fn read_unset_returns_zeros() {
    let store = DataStore::new();
    let data = store.read_bytes(1, 0, 4);
    assert_eq!(data, vec![0, 0, 0, 0]);
}

#[test]
fn write_then_read_roundtrip() {
    let mut store = DataStore::new();
    store.write_bytes(1, 0, &[0xDE, 0xAD, 0xBE, 0xEF]);
    let data = store.read_bytes(1, 0, 4);
    assert_eq!(data, vec![0xDE, 0xAD, 0xBE, 0xEF]);
}

#[test]
fn write_to_different_dbs_isolated() {
    let mut store = DataStore::new();
    store.write_bytes(1, 0, &[0xAA]);
    store.write_bytes(2, 0, &[0xBB]);
    assert_eq!(store.read_bytes(1, 0, 1), vec![0xAA]);
    assert_eq!(store.read_bytes(2, 0, 1), vec![0xBB]);
}

#[test]
fn read_area_uses_area_code() {
    let mut store = DataStore::new();
    store.write_area(area::MARKERS, 0, 10, &[0x99]);
    let pa = store.read_area(area::PROCESS_OUTPUTS, 0, 10, 1);
    assert_eq!(pa, vec![0x00]);
    let mk = store.read_area(area::MARKERS, 0, 10, 1);
    assert_eq!(mk, vec![0x99]);
}

#[test]
fn register_area_roundtrip() {
    let mut store = DataStore::new();
    assert!(!store.is_area_registered(0x81));
    store.register_area(0x81, 1024);
    assert!(store.is_area_registered(0x81));
    store.unregister_area(0x81);
    assert!(!store.is_area_registered(0x81));
}

#[test]
fn cpu_state_defaults_to_stop() {
    let store = DataStore::new();
    assert_eq!(store.cpu_state(), CpuState::Stop);
}

#[test]
fn cpu_state_transitions() {
    let mut store = DataStore::new();
    store.set_cpu_state(CpuState::Run);
    assert_eq!(store.cpu_state(), CpuState::Run);
    store.set_cpu_state(CpuState::Stop);
    assert_eq!(store.cpu_state(), CpuState::Stop);
}

#[test]
fn write_callback_invoked() {
    let mut store = DataStore::new();
    let fired = Arc::new(AtomicBool::new(false));
    let f = fired.clone();
    store.on_write(move |_| {
        f.store(true, Ordering::SeqCst);
    });
    store.write_bytes(1, 0, &[0x01]);
    assert!(fired.load(Ordering::SeqCst));
}

#[test]
fn event_callback_invoked() {
    let mut store = DataStore::new();
    let fired = Arc::new(AtomicBool::new(false));
    let f = fired.clone();
    store.on_event(move |e| {
        if e == "cpu_start" {
            f.store(true, Ordering::SeqCst);
        }
    });
    store.set_cpu_state(CpuState::Run);
    assert!(fired.load(Ordering::SeqCst));
}

#[test]
fn get_status_reflects_cpu_state() {
    let store = DataStore::new();
    let status = store.get_status();
    assert_eq!(status.cpu_state, CpuState::Stop);
    assert_eq!(status.clients_count, 0);
    assert!(status.server_running);
}

#[test]
fn lock_area_blocks_writes() {
    let mut store = DataStore::new();
    store.write_bytes(1, 0, &[0xAA]);
    store.lock_area(area::DATA_BLOCK);
    store.write_bytes(1, 0, &[0xFF]);
    let data = store.read_bytes(1, 0, 1);
    assert_eq!(data, vec![0xAA]);
    store.unlock_area(area::DATA_BLOCK);
    store.write_bytes(1, 0, &[0xFF]);
    let data = store.read_bytes(1, 0, 1);
    assert_eq!(data, vec![0xFF]);
}

#[test]
fn event_mask_and_queue() {
    let mut store = DataStore::new();
    store.set_mask(0xFFFF_FFFF);
    assert_eq!(store.get_mask(), 0xFFFF_FFFF);
    store.clear_events();
    assert!(store.pick_event().is_none());
}

#[test]
fn write_then_read_law_on_values() {
    let mut store = DataStore::new();
    store.write_bytes(7, 100, &[1, 2, 3]);
    store.write_bytes(7, 200, &[9]);
    assert_eq!(store.read_bytes(7, 100, 3), vec![1, 2, 3]);
    assert_eq!(store.read_bytes(7, 99, 5), vec![0, 1, 2, 3, 0]);
    assert_eq!(store.read_bytes(8, 100, 3), vec![0, 0, 0]);
}

#[test]
fn events_are_queued_under_the_mask() {
    let mut store = DataStore::new();
    store.set_mask(EVENT_WRITE);
    store.write_bytes(1, 4, &[1, 2]);
    let _ = store.read_area(area::DATA_BLOCK, 1, 4, 2);
    let ev = store.pick_event().expect("a write event");
    assert_eq!(ev.area, area::DATA_BLOCK);
    assert_eq!(ev.db_number, 1);
    assert_eq!(ev.start, 4);
    assert_eq!(ev.length, 2);
    assert_eq!(ev.event, "write");
    assert!(store.pick_event().is_none());
    store.set_mask(EVENT_READ | EVENT_WRITE);
    let _ = store.read_area(area::DATA_BLOCK, 1, 4, 2);
    assert!(store.pick_event().is_some());
}

#[test]
fn clients_are_counted() {
    let mut store = DataStore::new();
    store.client_connected();
    store.client_connected();
    store.client_disconnected();
    assert_eq!(store.get_status().clients_count, 1);
    store.client_disconnected();
    store.client_disconnected();
    assert_eq!(store.get_status().clients_count, 0);
}

#[test]
fn read_callback_sees_each_read() {
    let mut store = DataStore::new();
    let n = Arc::new(AtomicUsize::new(0));
    let m = n.clone();
    store.on_read(move |_| {
        m.fetch_add(1, Ordering::SeqCst);
    });
    let _ = store.read_area(area::MARKERS, 0, 0, 1);
    let _ = store.read_area(area::MARKERS, 0, 1, 1);
    assert_eq!(n.load(Ordering::SeqCst), 2);
}

#[test]
fn registered_areas_are_listed_in_order() {
    let mut store = DataStore::new();
    store.register_area(0x83, 16);
    store.register_area(0x81, 16);
    assert_eq!(store.registered_areas(), vec![0x81, 0x83]);
}
