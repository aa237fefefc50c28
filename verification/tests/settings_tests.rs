use fsct_roon::mapping::Mappings;
use fsct_roon::player::DeviceInfo;
use fsct_roon::roon::{Output, OutputSetting};
use fsct_roon::settings::{
    make_layout, mappings_to_settings, setting_key, settings_to_mappings, ExtensionSettings,
    OutputDropdown, Widget,
};

const DEV_A: u128 = 0x67e5504410b1426f9247bb680e5fe0c8;
const DEV_B: u128 = 0x0000000000000000000000000000002a;

fn output(id: &str, name: &str) -> Output {
    Output { output_id: id.to_string(), zone_id: "z".to_string(), display_name: name.to_string() }
}

fn device(id: u128, name: Option<&str>) -> DeviceInfo {
    DeviceInfo {
        id,
        name: name.map(|n| n.to_string()),
        manufacturer: Some("MFR".to_string()),
        vendor_id: 0x1234,
        product_id: 0x5678,
        serial_number: Some("SN".to_string()),
    }
}

#[test]
fn setting_key_is_hyphenated_uuid() {
    assert_eq!(setting_key(DEV_A), "device_67e55044-10b1-426f-9247-bb680e5fe0c8");
    assert_eq!(setting_key(DEV_B), "device_00000000-0000-0000-0000-00000000002a");
}

#[test]
fn settings_to_mappings_reads_device_keys() {
    let mut settings = ExtensionSettings::new();
    settings.device_outputs.insert(
        "device_67e55044-10b1-426f-9247-bb680e5fe0c8".to_string(),
        Some(OutputSetting { name: "Kitchen".to_string(), output_id: "out-k".to_string() }),
    );
    // upper case and simple forms are read too
    settings.device_outputs.insert(
        "device_0000000000000000000000000000002A".to_string(),
        Some(OutputSetting { name: "Hall".to_string(), output_id: "out-h".to_string() }),
    );
    // not a device key, not a uuid, no choice: all ignored
    settings.device_outputs.insert(
        "other_67e55044-10b1-426f-9247-bb680e5fe0c8".to_string(),
        Some(OutputSetting { name: "X".to_string(), output_id: "out-x".to_string() }),
    );
    settings.device_outputs.insert(
        "device_not-a-uuid".to_string(),
        Some(OutputSetting { name: "Y".to_string(), output_id: "out-y".to_string() }),
    );
    settings.device_outputs.insert("device_00000000-0000-0000-0000-000000000001".to_string(), None);

    let mappings = settings_to_mappings(&settings);
    assert_eq!(mappings.len(), 2);
    assert_eq!(mappings.get("out-k"), Some(DEV_A));
    assert_eq!(mappings.get("out-h"), Some(DEV_B));
}

#[test]
fn mappings_round_trip_through_settings() {
    let mut mappings = Mappings::new();
    mappings.set("out-k".to_string(), DEV_A);
    mappings.set("out-h".to_string(), DEV_B);
    mappings.set("out-gone".to_string(), 7);
    let outputs = vec![output("out-k", "Kitchen"), output("out-h", "Hall")];

    let settings = mappings_to_settings(&mappings, &outputs);
    assert_eq!(settings.device_outputs.len(), 2);
    let entry = settings
        .device_outputs
        .get(&"device_67e55044-10b1-426f-9247-bb680e5fe0c8".to_string())
        .unwrap();
    assert_eq!(
        entry,
        &Some(OutputSetting { name: "Kitchen".to_string(), output_id: "out-k".to_string() })
    );

    let back = settings_to_mappings(&settings);
    assert_eq!(back.len(), 2);
    assert_eq!(back.get("out-k"), Some(DEV_A));
    assert_eq!(back.get("out-h"), Some(DEV_B));
    assert_eq!(back.get("out-gone"), None);
}

#[test]
fn layout_without_devices_shows_notice() {
    let layout = make_layout(ExtensionSettings::new(), vec![], &Mappings::new(), vec![]);
    assert!(!layout.has_error);
    assert_eq!(
        layout.widgets,
        vec![Widget::Label {
            title: "No FSCT devices available".to_string(),
            subtitle: Some("Connect an FSCT device to continue".to_string()),
        }]
    );
}

#[test]
fn layout_lists_detected_and_disconnected_devices() {
    let mut mappings = Mappings::new();
    mappings.set("out-k".to_string(), DEV_A);
    mappings.set("out-old".to_string(), 5);
    mappings.set("out-old2".to_string(), 5);
    let devices = vec![device(DEV_A, Some("Amp")), device(DEV_B, None)];
    let outputs = vec![output("out-k", "Kitchen")];

    let layout = make_layout(ExtensionSettings::new(), devices, &mappings, outputs);
    assert_eq!(layout.widgets.len(), 2);
    assert_eq!(
        layout.widgets[0],
        Widget::Group {
            title: "Available FSCT Devices".to_string(),
            subtitle: Some("Assign each device to a Roon output".to_string()),
            collapsable: false,
            items: vec![
                OutputDropdown {
                    title: "Unnamed Device".to_string(),
                    subtitle: Some("FSCT Device: 00000000-0000-0000-0000-00000000002a".to_string()),
                    setting: "device_00000000-0000-0000-0000-00000000002a".to_string(),
                },
                OutputDropdown {
                    title: "Amp".to_string(),
                    subtitle: Some("FSCT Device: 67e55044-10b1-426f-9247-bb680e5fe0c8".to_string()),
                    setting: "device_67e55044-10b1-426f-9247-bb680e5fe0c8".to_string(),
                },
            ],
        }
    );
    assert_eq!(
        layout.widgets[1],
        Widget::Group {
            title: "Previously Assigned (Disconnected)".to_string(),
            subtitle: Some("These devices are no longer detected. Clear selection to remove.".to_string()),
            collapsable: true,
            items: vec![OutputDropdown {
                title: "Device 00000000-0000-0000-0000-000000000005".to_string(),
                subtitle: Some("(Disconnected) - Clear selection to remove".to_string()),
                setting: "device_00000000-0000-0000-0000-000000000005".to_string(),
            }],
        }
    );
    // the settings were completed from the mappings
    assert_eq!(
        layout
            .settings
            .device_outputs
            .get(&"device_67e55044-10b1-426f-9247-bb680e5fe0c8".to_string()),
        Some(&Some(OutputSetting { name: "Kitchen".to_string(), output_id: "out-k".to_string() }))
    );
    assert_eq!(layout.settings.device_outputs.len(), 1);
}

#[test]
fn layout_keeps_existing_settings() {
    let mut settings = ExtensionSettings::new();
    settings.device_outputs.insert("device_67e55044-10b1-426f-9247-bb680e5fe0c8".to_string(), None);
    let mut mappings = Mappings::new();
    mappings.set("out-k".to_string(), DEV_A);
    let layout = make_layout(settings, vec![], &mappings, vec![output("out-k", "Kitchen")]);
    assert_eq!(
        layout
            .settings
            .device_outputs
            .get(&"device_67e55044-10b1-426f-9247-bb680e5fe0c8".to_string()),
        Some(&None)
    );
    // only the disconnected group is shown
    assert_eq!(layout.widgets.len(), 1);
}
