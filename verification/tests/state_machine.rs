use cronos::address::Address;
use cronos::config::{AdminConfigUpdate, Config, ConfigSettings};
use cronos::errors::CronosError;
use cronos::registry::{Node, Registry, RegistryPage, PAGE_LIMIT};
use cronos::snapshot::{Snapshot, SnapshotStatus};

fn addr(n: u64) -> Address {
    Address { lo: n as u128, hi: 0 }
}

fn fresh_registry() -> Registry {
    let mut reg = Registry {
        bump: 0,
        is_locked: false,
        mint: addr(0),
        node_count: 0,
        page_count: 0,
        snapshot_count: 0,
    };
    reg.new(255, addr(9)).unwrap();
    reg
}

fn fresh_page() -> RegistryPage {
    RegistryPage { bump: 0, id: 0, nodes: Vec::new() }
}

fn fresh_snapshot() -> Snapshot {
    Snapshot {
        bump: 0,
        id: 0,
        node_count: 0,
        page_count: 0,
        nodes: Vec::new(),
        status: SnapshotStatus::InProgress,
    }
}

fn register_n(reg: &mut Registry, page: &mut RegistryPage, n: u64) {
    for _ in 0..n {
        let mut node = Node { authority: addr(0), bump: 0 };
        let id = 1000 + reg.node_count;
        reg.new_node(addr(id), &mut node, 254, addr(id), page).unwrap();
    }
}

#[test]
fn registry_initialize_once() {
    let mut reg = fresh_registry();
    assert_eq!(reg.bump, 255);
    assert_eq!(reg.node_count, 0);
    assert!(!reg.is_locked);
    assert_eq!(reg.new(255, addr(9)), Err(CronosError::AccountAlreadyInitialized));
}

#[test]
fn page_ordering() {
    let mut reg = fresh_registry();
    let mut page0 = fresh_page();
    // node_count == page_count * PAGE_LIMIT == 0: page 0 opens
    reg.new_page(&mut page0, 253).unwrap();
    assert_eq!(page0.id, 0);
    // opening page 1 before page 0 fills fails for every deficit
    for _ in 0..PAGE_LIMIT as u64 {
        let mut page1 = fresh_page();
        assert_eq!(reg.new_page(&mut page1, 253), Err(CronosError::PageRangeInvalid));
        register_n(&mut reg, &mut page0, 1);
    }
    // at node_count == 10 it succeeds
    assert_eq!(reg.node_count, PAGE_LIMIT as u64);
    let mut page1 = fresh_page();
    reg.new_page(&mut page1, 253).unwrap();
    assert_eq!(page1.id, 1);
    assert_eq!(reg.page_count, 2);
}

#[test]
fn page_full() {
    let mut reg = fresh_registry();
    let mut page0 = fresh_page();
    reg.new_page(&mut page0, 253).unwrap();
    register_n(&mut reg, &mut page0, PAGE_LIMIT as u64);
    let mut node = Node { authority: addr(0), bump: 0 };
    assert_eq!(
        reg.new_node(addr(1), &mut node, 254, addr(1), &mut page0),
        Err(CronosError::PageFull)
    );
    assert_eq!(reg.node_count, PAGE_LIMIT as u64);
}

#[test]
fn lock_exclusivity() {
    let mut reg = fresh_registry();
    let mut page0 = fresh_page();
    reg.new_page(&mut page0, 253).unwrap();
    let mut snap = fresh_snapshot();
    reg.new_snapshot(&mut snap, 252).unwrap();
    assert!(reg.is_locked);
    // no registration succeeds while locked
    let mut node = Node { authority: addr(0), bump: 0 };
    assert_eq!(
        reg.new_node(addr(1), &mut node, 254, addr(1), &mut page0),
        Err(CronosError::RegistryLocked)
    );
    let mut page1 = fresh_page();
    assert_eq!(reg.new_page(&mut page1, 253), Err(CronosError::RegistryLocked));
    // rotation succeeds only while locked
    reg.unlock().unwrap();
    let mut none = None;
    let mut snap2 = snap.clone();
    assert_eq!(
        reg.rotate_snapshot(7, &mut none, &mut snap2),
        Err(CronosError::RegistryMustBeLocked)
    );
    reg.lock().unwrap();
    snap.capture_page(&page0).unwrap();
    let mut none = None;
    reg.rotate_snapshot(7, &mut none, &mut snap).unwrap();
    assert!(!reg.is_locked);
}

#[test]
fn snapshot_completeness() {
    let mut reg = fresh_registry();
    let mut page0 = fresh_page();
    reg.new_page(&mut page0, 253).unwrap();
    register_n(&mut reg, &mut page0, 3);
    let mut snap = fresh_snapshot();
    reg.new_snapshot(&mut snap, 252).unwrap();
    // not capturing the page leaves node_count == 0 != 3
    let mut none = None;
    assert_eq!(
        reg.rotate_snapshot(7, &mut none, &mut snap),
        Err(CronosError::SnapshotIncomplete)
    );
    // capture makes the counts match and rotation goes through
    snap.capture_page(&page0).unwrap();
    assert_eq!(snap.node_count, 3);
    assert_eq!(snap.page_count, 1);
    let mut none = None;
    reg.rotate_snapshot(7, &mut none, &mut snap).unwrap();
    assert_eq!(snap.status, SnapshotStatus::Current);
}

#[test]
fn snapshot_sequencing() {
    let mut reg = fresh_registry();
    let mut page0 = fresh_page();
    reg.new_page(&mut page0, 253).unwrap();
    // first rotation, no prior current snapshot
    let mut snap1 = fresh_snapshot();
    reg.new_snapshot(&mut snap1, 252).unwrap();
    snap1.capture_page(&page0).unwrap();
    let mut none = None;
    reg.rotate_snapshot(100, &mut none, &mut snap1).unwrap();
    assert_eq!(reg.snapshot_count, 1);
    // second rotation must supply the current snapshot
    let mut snap2 = fresh_snapshot();
    reg.new_snapshot(&mut snap2, 252).unwrap();
    snap2.capture_page(&page0).unwrap();
    let mut none = None;
    assert_eq!(
        reg.rotate_snapshot(200, &mut none, &mut snap2),
        Err(CronosError::SnapshotNotCurrent)
    );
    // supplying a non-current snapshot fails too
    let mut wrong = Some(fresh_snapshot());
    assert_eq!(
        reg.rotate_snapshot(200, &mut wrong, &mut snap2),
        Err(CronosError::SnapshotNotCurrent)
    );
    // supplying the actual current snapshot archives it
    let mut cur = Some(snap1);
    reg.rotate_snapshot(200, &mut cur, &mut snap2).unwrap();
    assert_eq!(cur.unwrap().status, SnapshotStatus::Archived { ts: 200 });
    assert_eq!(snap2.status, SnapshotStatus::Current);
    assert_eq!(reg.snapshot_count, 2);
    assert!(!reg.is_locked);
}

#[test]
fn end_to_end_scenario() {
    let mut reg = fresh_registry();
    let mut page0 = fresh_page();
    reg.new_page(&mut page0, 253).unwrap();
    register_n(&mut reg, &mut page0, 10);
    assert_eq!(page0.nodes.len(), 10);
    let mut page1 = fresh_page();
    reg.new_page(&mut page1, 253).unwrap();
    register_n(&mut reg, &mut page1, 1);
    assert_eq!(reg.node_count, 11);
    let mut snap = fresh_snapshot();
    reg.new_snapshot(&mut snap, 252).unwrap();
    snap.capture_page(&page0).unwrap();
    snap.capture_page(&page1).unwrap();
    assert_eq!(snap.node_count, 11);
    assert_eq!(snap.page_count, 2);
    let mut none = None;
    reg.rotate_snapshot(42, &mut none, &mut snap).unwrap();
    assert_eq!(reg.snapshot_count, 1);
    assert!(!reg.is_locked);
    assert_eq!(snap.status, SnapshotStatus::Current);
    assert_eq!(snap.nodes.len(), 11);
}

#[test]
fn config_update_admin_gate() {
    let mut config = Config {
        admin: addr(1),
        bump: 251,
        node_fee: 0,
        program_fee: 0,
        registry_address: addr(2),
    };
    let settings = ConfigSettings { admin: addr(3), node_fee: 5, program_fee: 7 };
    assert_eq!(
        config.update(addr(99), settings),
        Err(CronosError::NotAuthorizedAdmin)
    );
    assert_eq!(config.node_fee, 0);
    config.update(addr(1), settings).unwrap();
    assert_eq!(config.admin, addr(3));
    assert_eq!(config.node_fee, 5);
    assert_eq!(config.program_fee, 7);
    assert_eq!(config.registry_address, addr(2));
}

#[test]
fn config_update_handler() {
    let config = Config {
        admin: addr(1),
        bump: 251,
        node_fee: 0,
        program_fee: 0,
        registry_address: addr(2),
    };
    let mut ctx = AdminConfigUpdate { admin: addr(1), config };
    let settings = ConfigSettings { admin: addr(1), node_fee: 11, program_fee: 13 };
    cronos::config::handler(&mut ctx, settings).unwrap();
    assert_eq!(ctx.config.node_fee, 11);
    let mut bad = AdminConfigUpdate { admin: addr(8), config: ctx.config };
    assert_eq!(
        cronos::config::handler(&mut bad, settings),
        Err(CronosError::NotAuthorizedAdmin)
    );
}
