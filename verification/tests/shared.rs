use authority_fabric::limits::Limits;
use authority_fabric::router::PeerId;
use authority_fabric::shared::{RegionErr, RegionId, RegionTable, Rights, SharedRegion};

fn lim() -> Limits {
    Limits::default()
}

#[test]
fn rights_attenuation_rule() {
    assert!(Rights::ReadWrite.can_derive(Rights::ReadOnly));
    assert!(Rights::ReadWrite.can_derive(Rights::ReadWrite));
    assert!(Rights::ReadOnly.can_derive(Rights::ReadOnly));
    assert!(!Rights::ReadOnly.can_derive(Rights::ReadWrite));
}

#[test]
fn authority_graph_write_exclusivity_and_derive() {
    let mut t = RegionTable::new();
    let p = PeerId(1);
    let c = PeerId(2);
    let rid = RegionId([9u8; 16]);
    t.create_region(rid, 4096, p, &lim()).unwrap();
    // Second writer rejected.
    assert_eq!(
        t.authorize(rid, Rights::ReadWrite, Rights::ReadWrite),
        Err(RegionErr::SecondWriterDenied)
    );
    // p derives RO for c (attenuation allowed from RW).
    t.derive_read_only(rid, p, &lim()).unwrap();
    // c (RO) cannot escalate to RW.
    assert_eq!(
        t.authorize(rid, Rights::ReadOnly, Rights::ReadWrite),
        Err(RegionErr::EscalationDenied)
    );
    // c may duplicate RO.
    assert!(t.authorize(rid, Rights::ReadOnly, Rights::ReadOnly).is_ok());
    // Non-holder rejected.
    assert_eq!(
        t.derive_read_only(RegionId([3u8; 16]), c, &lim()),
        Err(RegionErr::UnknownRegion)
    );
    let a = t.accounting();
    assert_eq!(a.writable_authorities, 1);
    assert_eq!(a.readonly_authorities, 1);
    // Drop both authorities of p (writable, then the derived readonly) ->
    // region freed and backing reclaimed.
    t.drop_authority(rid, p);
    t.drop_authority(rid, p);
    assert_eq!(t.accounting().regions, 0);
    assert_eq!(t.accounting().total_backing_bytes, 0);
}

#[test]
fn ten_k_capability_churn_returns_to_baseline() {
    let mut t = RegionTable::new();
    let p = PeerId(1);
    let c = PeerId(2);
    let base = t.accounting();
    for i in 0..10_000u64 {
        let mut id = [0u8; 16];
        id[..8].copy_from_slice(&i.to_le_bytes());
        let rid = RegionId(id);
        t.create_region(rid, 4096, p, &lim()).unwrap();
        t.derive_read_only(rid, p, &lim()).unwrap();
        t.transfer_writable(rid, p, c).unwrap();
        t.drop_authority(rid, c);
        t.drop_authority(rid, p);
    }
    let after = t.accounting();
    assert_eq!(after.regions, base.regions);
    assert_eq!(after.total_backing_bytes, base.total_backing_bytes);
    assert_eq!(after.writable_authorities, 0);
    assert_eq!(after.readonly_authorities, 0);
}

#[test]
fn read_only_cannot_map_writable() {
    let reg = SharedRegion::create(4096, &lim()).unwrap();
    let ro = reg.derive_read_only();
    assert!(ro.map_read_write().is_err());
}

#[test]
fn writer_is_never_minted_again() {
    let mut t = RegionTable::new();
    let (p, c) = (PeerId(1), PeerId(2));
    let rid = RegionId([9u8; 16]);
    t.create_region(rid, 4096, p, &lim()).unwrap();
    t.grant_read_only(rid, c, &lim()).unwrap();
    t.peer_gone(p);
    assert_eq!(t.writable_holder(rid), None);
    assert!(t.region_exists(rid));
    assert!(t.is_readonly_holder(rid, c));
    assert_eq!(t.transfer_writable(rid, c, p), Err(RegionErr::NotHolder));
    t.drop_authority(rid, c);
    assert!(!t.region_exists(rid));
    assert_eq!(t.size_of(rid), None);
}

#[test]
fn every_refusal_of_the_graph() {
    let l = Limits { max_regions: 1, max_region_capabilities: 2, ..lim() };
    let mut t = RegionTable::new();
    let (p, c, d) = (PeerId(1), PeerId(2), PeerId(3));
    let rid = RegionId([9u8; 16]);
    assert_eq!(t.create_region(rid, 0, p, &l), Err(RegionErr::SizeExceeded));
    t.create_region(rid, 4096, p, &l).unwrap();
    assert_eq!(
        t.create_region(RegionId([8u8; 16]), 4096, p, &l),
        Err(RegionErr::CapacityExceeded)
    );
    assert_eq!(t.derive_read_only(rid, c, &l), Err(RegionErr::NotHolder));
    assert_eq!(t.grant_read_only(rid, p, &l), Err(RegionErr::SecondWriterDenied));
    t.grant_read_only(rid, c, &l).unwrap();
    assert_eq!(t.grant_read_only(rid, d, &l), Err(RegionErr::CapacityExceeded));
    assert_eq!(t.transfer_read_only(rid, d, p), Err(RegionErr::NotHolder));
    t.transfer_read_only(rid, c, d).unwrap();
    assert!(t.is_readonly_holder(rid, d) && !t.is_readonly_holder(rid, c));
    // There and back again.
    t.transfer_writable(rid, p, c).unwrap();
    t.transfer_writable(rid, c, p).unwrap();
    assert_eq!(t.writable_holder(rid), Some(p));
}
