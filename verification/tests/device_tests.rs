use fsct_roon::device_manager::{DeviceChangeEvent, FsctDeviceManager};
use fsct_roon::player::DeviceInfo;
use uuid::Uuid;

fn mk_info(id: u128, name: &str) -> DeviceInfo {
    DeviceInfo {
        id,
        name: Some(name.to_string()),
        manufacturer: Some("MFR".into()),
        vendor_id: 0x1234,
        product_id: 0x5678,
        serial_number: Some("SN".into()),
    }
}

#[test]
fn populates_from_ids_and_updates() {
    let id1 = Uuid::new_v4().as_u128();
    let id2 = Uuid::new_v4().as_u128();
    let d1 = mk_info(id1, "A");
    let d2 = mk_info(id2, "B");
    let mut mgr = FsctDeviceManager::new();

    mgr.upsert_from_ids(vec![(id1, Some(d1.clone())), (id2, Some(d2.clone()))]);
    let mut all = mgr.get_all();
    all.sort_by_key(|d| d.name.clone());
    assert_eq!(all.len(), 2);
    assert_eq!(all[0].id, id1);
    assert_eq!(all[1].id, id2);

    // remove id2
    mgr.handle_event(DeviceChangeEvent::Removed(id2), None);
    let all = mgr.get_all();
    assert_eq!(all.len(), 1);
    assert_eq!(all[0].id, id1);

    // add id2 back
    mgr.handle_event(DeviceChangeEvent::Added(id2), Some(d2.clone()));
    let all = mgr.get_all();
    assert_eq!(all.len(), 2);
}

#[test]
fn failed_lookups_change_nothing() {
    let mut mgr = FsctDeviceManager::new();
    mgr.upsert_from_ids(vec![(1, None), (2, Some(mk_info(2, "B")))]);
    assert_eq!(mgr.get_all().len(), 1);
    mgr.handle_event(DeviceChangeEvent::Added(3), None);
    assert_eq!(mgr.get_all().len(), 1);
}
