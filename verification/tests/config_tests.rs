use fsct_roon::config::{AppConfig, DeviceMapping, DeviceMappings, FsctDevice, RoonOutput};

fn mapping(output_id: &str, output_name: &str, device_id: &str, device_name: &str) -> DeviceMapping {
    DeviceMapping {
        roon_output: RoonOutput {
            output_id: output_id.to_string(),
            display_name: output_name.to_string(),
        },
        fsct_device: FsctDevice {
            device_id: device_id.to_string(),
            display_name: device_name.to_string(),
        },
        is_active: true,
    }
}

#[test]
fn test_find_fsct_by_roon() {
    let mut mappings = DeviceMappings::new();
    mappings.upsert(mapping("roon1", "Living Room", "fsct1", "FSCT Device 1"));

    let device = mappings.find_fsct_by_roon("roon1");
    assert!(device.is_some());
    assert_eq!(device.unwrap().device_id, "fsct1");
}

#[test]
fn test_upsert_replaces_existing() {
    let mut mappings = DeviceMappings::new();
    mappings.upsert(mapping("roon1", "Room", "fsct1", "Device 1"));
    mappings.upsert(mapping("roon1", "Room", "fsct2", "Device 2"));

    assert_eq!(mappings.mappings.len(), 1);
    assert_eq!(mappings.find_fsct_by_roon("roon1").unwrap().device_id, "fsct2");
}

#[test]
fn test_remove_by_roon() {
    let mut mappings = DeviceMappings::new();
    mappings.upsert(mapping("roon1", "Room", "fsct1", "Device 1"));

    assert!(mappings.remove_by_roon("roon1"));
    assert_eq!(mappings.mappings.len(), 0);
    assert!(!mappings.remove_by_roon("roon1"));
}

#[test]
fn upsert_keeps_other_outputs() {
    let mut mappings = DeviceMappings::new();
    mappings.upsert(mapping("roon1", "Room 1", "fsct1", "Device 1"));
    mappings.upsert(mapping("roon2", "Room 2", "fsct2", "Device 2"));
    mappings.upsert(mapping("roon1", "Room 1", "fsct3", "Device 3"));

    assert_eq!(mappings.mappings.len(), 2);
    assert_eq!(mappings.find_fsct_by_roon("roon2").unwrap().device_id, "fsct2");
    assert_eq!(mappings.find_fsct_by_roon("roon1").unwrap().device_id, "fsct3");
    // the replaced mapping moves to the end
    assert_eq!(mappings.mappings[0].roon_output.output_id, "roon2");
    assert_eq!(mappings.mappings[1].roon_output.output_id, "roon1");
}

#[test]
fn find_roon_by_fsct_finds_first_match() {
    let mut mappings = DeviceMappings::new();
    mappings.upsert(mapping("roon1", "Room 1", "fsct1", "Device 1"));
    mappings.upsert(mapping("roon2", "Room 2", "fsct1", "Device 1"));

    assert_eq!(mappings.find_roon_by_fsct("fsct1").unwrap().output_id, "roon1");
    assert!(mappings.find_roon_by_fsct("fsct9").is_none());
    assert!(mappings.find_fsct_by_roon("roon9").is_none());
}

#[test]
fn remove_by_roon_removes_every_duplicate() {
    let mut mappings = DeviceMappings::new();
    mappings.mappings.push(mapping("roon1", "Room", "fsct1", "Device 1"));
    mappings.mappings.push(mapping("roon2", "Room 2", "fsct2", "Device 2"));
    mappings.mappings.push(mapping("roon1", "Room", "fsct3", "Device 3"));

    assert!(mappings.remove_by_roon("roon1"));
    assert_eq!(mappings.mappings.len(), 1);
    assert_eq!(mappings.mappings[0].roon_output.output_id, "roon2");
}

#[test]
fn status_updates_touch_only_the_first_match() {
    let mut mappings = DeviceMappings::new();
    mappings.mappings.push(mapping("roon1", "Room", "fsct1", "Device 1"));
    mappings.mappings.push(mapping("roon1", "Room", "fsct2", "Device 2"));

    mappings.update_roon_status("roon1", false);
    assert!(!mappings.mappings[0].is_active);
    assert!(mappings.mappings[1].is_active);

    mappings.update_fsct_status("fsct2", false);
    assert!(!mappings.mappings[1].is_active);

    // unknown ids change nothing
    mappings.update_roon_status("nothing", true);
    mappings.update_fsct_status("nothing", true);
    assert!(!mappings.mappings[0].is_active);
    assert!(!mappings.mappings[1].is_active);
    // the pairing itself is unchanged
    assert_eq!(mappings.find_fsct_by_roon("roon1").unwrap().device_id, "fsct1");
}

#[test]
fn default_config_paths() {
    let config = AppConfig::default();
    assert_eq!(config.mappings_path, "./mappings.json");
    assert_eq!(config.roon_state_path, "./roon_state.json");
}
