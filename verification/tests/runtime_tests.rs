//! Runtime model behavior: loading, symbol resolution, group caching,
//! checked-mode assertion discipline.

use weaklink::errors::LinkError;
use weaklink::group::{Group, GroupStatus};
use weaklink::library::Library;
use weaklink::loading::DylibHandle;

fn names(list: &[&str]) -> Vec<String> {
    list.iter().map(|s| s.to_string()).collect()
}

fn ten_adds() -> Vec<String> {
    (0..10).map(|n| format!("add_{}", n)).collect()
}

/// The fake address at which the exporter's `add_<n>` lives.
fn addr_of(n: u32) -> usize {
    0x1000 + (n as usize) * 16
}

#[test]
fn load_from_publishes_handle_once() {
    let mut lib = Library::new(names(&[]), ten_adds());
    assert!(lib.handle().is_none());
    let h = lib.load_outcome(Some(DylibHandle(0x5000))).unwrap();
    assert_eq!(h.0, 0x5000);
    assert_eq!(lib.handle().unwrap().0, 0x5000);
    // A second load attempt fails with "already loaded".
    let r = lib.load_outcome(Some(DylibHandle(0x6000)));
    assert!(matches!(r, Err(LinkError::AlreadyLoaded)));
    assert_eq!(lib.handle().unwrap().0, 0x5000);
}

#[test]
fn implicit_load_via_candidates() {
    // The client sets the dylib-name list and omits the explicit load: the
    // driver walks the candidates and publishes the first success.
    let mut lib = Library::new(names(&["libexporter.so"]), ten_adds());
    assert!(lib.handle().is_none());
    assert_eq!(lib.dylib_name_count(), 1);
    assert_eq!(lib.dylib_name(0), "libexporter.so");
    // Simulate the platform loader succeeding on the first candidate.
    lib.load_outcome(Some(DylibHandle(0x7000))).unwrap();
    assert!(lib.handle().is_some());
}

#[test]
fn load_failure_reported() {
    let mut lib = Library::new(names(&["libmissing.so"]), ten_adds());
    let r = lib.load_outcome(None);
    assert!(matches!(r, Err(LinkError::LibraryNotFound)));
    assert!(lib.handle().is_none());
}

#[test]
fn eager_happy_path() {
    // Exporter exports add_0..add_9; the client resolves the base group
    // eagerly, and every slot holds its address.
    let mut lib = Library::new(names(&[]), ten_adds());
    lib.load_outcome(Some(DylibHandle(0x5000))).unwrap();
    let base = Group::new("base", (0..10).collect());
    let pending = base.pending_lookups(&lib);
    assert_eq!(pending, (0..10).collect::<Vec<u32>>());
    let lookups: Vec<(u32, usize)> = pending.iter().map(|&i| (i, addr_of(i))).collect();
    base.resolve_uncached(&mut lib, &lookups).unwrap();
    for i in 0..10u32 {
        assert_eq!(lib.cached_symbol(i), Some(addr_of(i)));
    }
}

#[test]
fn lazy_binding_first_call_resolves() {
    // With lazy binding, the first call through a stub enters the resolver;
    // the slot is then warm and later calls go direct.
    let mut lib = Library::new(names(&[]), ten_adds());
    lib.load_outcome(Some(DylibHandle(0x5000))).unwrap();
    assert_eq!(lib.cached_symbol(3), None);
    assert_eq!(lib.symbol_name(3), "add_3");
    // First call: the driver looks the name up and commits the address.
    let a = lib.resolve_symbol_with(3, addr_of(3)).unwrap();
    assert_eq!(a, addr_of(3));
    // Later calls take the cached address; the lookup outcome is ignored.
    let b = lib.resolve_symbol_with(3, 0xBAD).unwrap();
    assert_eq!(b, addr_of(3));
    assert_eq!(lib.cached_symbol(3), Some(addr_of(3)));
}

#[test]
fn missing_symbol_reports_name() {
    let mut lib = Library::new(names(&[]), names(&["foo", "get_bar"]));
    lib.load_outcome(Some(DylibHandle(0x5000))).unwrap();
    match lib.resolve_symbol_with(1, 0) {
        Err(LinkError::SymbolMissing(name)) => assert_eq!(name, "get_bar"),
        other => panic!("unexpected outcome: {:?}", other),
    }
    assert_eq!(lib.cached_symbol(1), None);
}

#[test]
fn group_caching_after_success() {
    // After a successful resolve, later calls succeed without any platform
    // lookup: nothing is pending and empty lookups are enough.
    let mut lib = Library::new(names(&[]), ten_adds());
    lib.load_outcome(Some(DylibHandle(0x5000))).unwrap();
    let mut base = Group::new("base", (0..10).collect());
    let lookups: Vec<(u32, usize)> = (0..10).map(|i| (i, addr_of(i))).collect();
    let token = base.resolve(&mut lib, &lookups).unwrap();
    token.release(&mut lib);
    assert_eq!(base.status(), GroupStatus::Resolved);
    assert!(base.pending_lookups(&lib).is_empty());
    let token = base.resolve(&mut lib, &Vec::new()).unwrap();
    token.release(&mut lib);
}

#[test]
fn missing_group_fails_and_caches_failure() {
    // A group with an absent symbol goes Failed on the first resolve;
    // repeating the call returns the cached failure without a retry.
    let mut lib = Library::new(names(&[]), names(&["foo", "get_bar"]));
    lib.load_outcome(Some(DylibHandle(0x5000))).unwrap();
    let mut missing = Group::new("missing", vec![0, 1]);
    // The exporter exposes neither symbol.
    let r = missing.resolve(&mut lib, &vec![(0, 0), (1, 0)]);
    assert!(matches!(r, Err(LinkError::SymbolMissing(_))));
    assert_eq!(missing.status(), GroupStatus::Failed);
    assert!(missing.pending_lookups(&lib).is_empty());
    // The cached failure, with no lookups at all.
    let r = missing.resolve(&mut lib, &Vec::new());
    match r {
        Err(LinkError::GroupResolutionFailed(name)) => assert_eq!(name, "missing"),
        other => panic!("unexpected outcome: {:?}", other.map(|_| ())),
    }
    // mark_failed keeps it failing.
    missing.mark_failed();
    assert!(missing.resolve(&mut lib, &Vec::new()).is_err());
}

#[test]
fn partial_group_failure_stops_at_first_missing() {
    let mut lib = Library::new(names(&[]), names(&["a", "b", "c"]));
    lib.load_outcome(Some(DylibHandle(0x5000))).unwrap();
    let mut g = Group::new("g", vec![0, 1, 2]);
    // `b` is absent; `a` gets committed before the failure, `c` is never
    // reached.
    let r = g.resolve(&mut lib, &vec![(0, 0x100), (1, 0), (2, 0x300)]);
    match r {
        Err(LinkError::SymbolMissing(name)) => assert_eq!(name, "b"),
        other => panic!("unexpected outcome: {:?}", other.map(|_| ())),
    }
    assert_eq!(lib.cached_symbol(0), Some(0x100));
    assert_eq!(lib.cached_symbol(1), None);
    assert_eq!(lib.cached_symbol(2), None);
}

#[test]
fn checked_mode_scoped_assertion() {
    // Scoped checked mode: inside the token's scope the group's symbols
    // pass the admission check; after release they do not; a permanent
    // promotion admits them for good.
    let mut lib = Library::new(names(&[]), ten_adds());
    lib.load_outcome(Some(DylibHandle(0x5000))).unwrap();
    lib.init_checked_state();
    let mut base = Group::new("base", (0..10).collect());
    let lookups: Vec<(u32, usize)> = (0..10).map(|i| (i, addr_of(i))).collect();

    assert!(!lib.check_asserted(5));
    let token = base.resolve(&mut lib, &lookups).unwrap();
    for i in 0..10u32 {
        assert!(lib.check_asserted(i));
    }
    token.release(&mut lib);
    assert!(!lib.check_asserted(5));

    // A second resolve returns success from cache and re-asserts.
    let token = base.resolve(&mut lib, &Vec::new()).unwrap();
    assert!(lib.check_asserted(5));
    token.mark_permanent(&mut lib);
    // The promotion outlives every scope.
    assert!(lib.check_asserted(5));
    assert!(lib.check_asserted(9));
}

#[test]
fn checked_mode_keeps_real_table_cold() {
    // In checked mode the real synthetic table stays zero, so every call
    // through a stub re-enters the lazy resolver; the shadow table caches
    // the addresses.
    let mut lib = Library::new(names(&[]), ten_adds());
    lib.load_outcome(Some(DylibHandle(0x5000))).unwrap();
    lib.init_checked_state();
    let a = lib.resolve_symbol_with(0, addr_of(0)).unwrap();
    assert_eq!(a, addr_of(0));
    // The shadow slot is warm...
    assert_eq!(lib.cached_symbol(0), Some(addr_of(0)));
    // ...and the admission check still gates the call.
    assert!(!lib.check_asserted(0));
}

#[test]
fn lazy_binding_warms_every_slot() {
    // With lazy binding the client calls the stubs without an explicit
    // resolve; after one call per symbol, every slot is non-zero.
    let mut lib = Library::new(names(&[]), ten_adds());
    lib.load_outcome(Some(DylibHandle(0x5000))).unwrap();
    for i in 0..10u32 {
        lib.resolve_symbol_with(i, addr_of(i)).unwrap();
    }
    for i in 0..10u32 {
        assert_eq!(lib.cached_symbol(i), Some(addr_of(i)));
    }
}

#[test]
fn if_resolved_runs_closure_and_restores_counters() {
    let mut lib = Library::new(names(&[]), ten_adds());
    lib.load_outcome(Some(DylibHandle(0x5000))).unwrap();
    lib.init_checked_state();
    let mut base = Group::new("base", (0..10).collect());
    let lookups: Vec<(u32, usize)> = (0..10).map(|i| (i, addr_of(i))).collect();
    let r = base.if_resolved(&mut lib, &lookups, || 45u32);
    assert_eq!(r.unwrap(), 45);
    assert_eq!(base.status(), GroupStatus::Resolved);
    // The scoped assertions ended with the call.
    assert!(!lib.check_asserted(5));

    let mut missing = Group::new("missing", vec![0]);
    missing.mark_failed();
    let r = missing.if_resolved(&mut lib, &Vec::new(), || 1u32);
    assert!(r.is_err());
}

#[test]
fn non_checked_mode_admits_everything() {
    let lib = Library::new(names(&[]), ten_adds());
    assert!(lib.check_asserted(0));
    assert!(lib.check_asserted(9));
}
