use fsct_roon::config::{DeviceMapping, DeviceMappings, FsctDevice, RoonOutput};
use fsct_roon::mapping::persistence::MappingPersistence;
use fsct_roon::mapping::service::MappingService;
use fsct_roon::mapping::Mappings;
use uuid::Uuid;

#[test]
fn test_mapping_operations() {
    let mut mappings = Mappings::new();
    let uuid = Uuid::new_v4().as_u128();

    mappings.set("output1".to_string(), uuid);
    assert_eq!(mappings.get("output1"), Some(uuid));
    assert!(mappings.has("output1"));

    assert!(mappings.remove("output1"));
    assert_eq!(mappings.get("output1"), None);
    assert!(!mappings.has("output1"));
}

#[test]
fn mappings_set_replaces_and_all_copies() {
    let mut mappings = Mappings::new();
    mappings.set("output1".to_string(), 1);
    mappings.set("output2".to_string(), 2);
    mappings.set("output1".to_string(), 3);
    assert_eq!(mappings.len(), 2);
    assert_eq!(mappings.get("output1"), Some(3));

    let copy = mappings.all();
    mappings.clear();
    assert_eq!(mappings.len(), 0);
    assert_eq!(mappings.get("output2"), None);
    assert_eq!(copy.len(), 2);
    assert_eq!(copy.get("output2"), Some(2));
    let ids: Vec<&str> = copy.pairs().iter().map(|p| p.0.as_str()).collect();
    assert_eq!(ids, vec!["output1", "output2"]);
    let mut again = copy.all();
    assert!(!again.remove("missing"));
    assert!(again.remove("output1"));
    assert_eq!(again.len(), 1);
}

#[test]
fn test_mapping_service_operations() {
    let mut service = MappingService::new();

    let mapping = DeviceMapping {
        roon_output: RoonOutput {
            output_id: "roon1".to_string(),
            display_name: "Room 1".to_string(),
        },
        fsct_device: FsctDevice {
            device_id: "fsct1".to_string(),
            display_name: "Device 1".to_string(),
        },
        is_active: true,
    };

    service.upsert(mapping.clone());

    assert!(service.find_fsct_by_roon("roon1").is_some());
    assert!(service.find_roon_by_fsct("fsct1").is_some());

    service.update_roon_status("roon1", false);
    let mappings = service.get_mappings();
    assert!(!mappings.mappings[0].is_active);

    assert!(service.remove_by_roon("roon1"));
    assert!(service.find_fsct_by_roon("roon1").is_none());
}

#[test]
fn mapping_service_from_mappings_lists_all() {
    let mut initial = DeviceMappings::new();
    initial.upsert(DeviceMapping {
        roon_output: RoonOutput { output_id: "a".to_string(), display_name: "A".to_string() },
        fsct_device: FsctDevice { device_id: "x".to_string(), display_name: "X".to_string() },
        is_active: false,
    });
    let mut service = MappingService::from_mappings(initial);
    assert_eq!(service.list_all().len(), 1);
    service.update_fsct_status("x", true);
    assert!(service.list_all()[0].is_active);
    assert_eq!(service.find_roon_by_fsct("x").unwrap().display_name, "A");
    assert!(MappingService::default().list_all().is_empty());
}

#[test]
fn persistence_keeps_its_path() {
    let persistence = MappingPersistence::new("./definitely_missing_mappings_file.json".to_string());
    assert_eq!(persistence.file_path(), "./definitely_missing_mappings_file.json");
}
