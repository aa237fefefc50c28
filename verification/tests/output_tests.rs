use fsct_roon::mapping::Mappings;
use fsct_roon::output_manager::{send_cached_state_to_player, MappingChange, OutputManager};
use fsct_roon::player::{FsctStatus, PlayerState, TrackMetadata};
use fsct_roon::player_manager::PlayerManager;
use fsct_roon::roon::Output;
use fsct_roon::state_cache::StateCache;

fn create_test_output(output_id: &str, display_name: &str) -> Output {
    Output {
        output_id: output_id.to_string(),
        zone_id: "zone1".to_string(),
        display_name: display_name.to_string(),
    }
}

/// Carries out mapping changes the way the application does, with made-up player ids.
fn apply_changes(pm: &mut PlayerManager, changes: &[MappingChange], next_id: &mut u32) {
    for change in changes {
        match change {
            MappingChange::Unmapped(id) => {
                pm.release_player(id);
            }
            MappingChange::Remapped(id, device) => {
                pm.release_player(id);
                pm.track_player(id.clone(), *next_id, *device);
                *next_id += 1;
            }
            MappingChange::Released(id) => {
                pm.release_player(id);
            }
            MappingChange::NewlyMapped(id, device) => {
                if !pm.has_player(id) {
                    pm.track_player(id.clone(), *next_id, *device);
                    *next_id += 1;
                }
            }
        }
    }
}

#[test]
fn test_handle_outputs_changed_tracks_outputs() {
    let mappings = Mappings::new();
    let player_manager = PlayerManager::new();
    let mut output_manager = OutputManager::new();

    let outputs = vec![
        create_test_output("output1", "Output 1"),
        create_test_output("output2", "Output 2"),
    ];

    output_manager.handle_outputs_changed(outputs, &mappings, &player_manager);

    assert_eq!(output_manager.get_available_outputs().len(), 2);
    assert!(output_manager.get_available_outputs().contains_key(&"output1".to_string()));
    assert!(output_manager.get_available_outputs().contains_key(&"output2".to_string()));
}

#[test]
fn test_handle_outputs_removed_removes_outputs() {
    let mappings = Mappings::new();
    let player_manager = PlayerManager::new();
    let mut output_manager = OutputManager::new();

    let outputs = vec![
        create_test_output("output1", "Output 1"),
        create_test_output("output2", "Output 2"),
    ];
    output_manager.handle_outputs_changed(outputs, &mappings, &player_manager);

    output_manager.handle_outputs_removed(vec!["output1".to_string()], &mappings, &player_manager);

    assert_eq!(output_manager.get_available_outputs().len(), 1);
    assert!(!output_manager.get_available_outputs().contains_key(&"output1".to_string()));
    assert!(output_manager.get_available_outputs().contains_key(&"output2".to_string()));
}

#[test]
fn test_handle_mappings_changed_registers_new_players() {
    let mut mappings = Mappings::new();
    let mut player_manager = PlayerManager::new();
    let mut output_manager = OutputManager::new();
    let mut next_id = 1;

    output_manager.handle_outputs_changed(
        vec![create_test_output("output1", "Output 1")],
        &mappings,
        &player_manager,
    );

    let device_uuid = uuid::Uuid::new_v4().as_u128();
    let mut new_mappings = Mappings::new();
    new_mappings.set("output1".to_string(), device_uuid);

    let changes = output_manager.handle_mappings_changed(&mut mappings, new_mappings);
    apply_changes(&mut player_manager, &changes, &mut next_id);

    assert_eq!(mappings.get("output1"), Some(device_uuid));
    assert!(player_manager.has_player("output1"));
}

#[test]
fn test_handle_mappings_changed_unregisters_unmapped_players() {
    let mut mappings = Mappings::new();
    let mut player_manager = PlayerManager::new();
    let mut output_manager = OutputManager::new();
    let mut next_id = 1;

    output_manager.handle_outputs_changed(
        vec![create_test_output("output1", "Output 1")],
        &mappings,
        &player_manager,
    );

    let device_uuid = uuid::Uuid::new_v4().as_u128();
    let mut initial_mappings = Mappings::new();
    initial_mappings.set("output1".to_string(), device_uuid);
    let changes = output_manager.handle_mappings_changed(&mut mappings, initial_mappings);
    apply_changes(&mut player_manager, &changes, &mut next_id);
    assert!(player_manager.has_player("output1"));

    let changes = output_manager.handle_mappings_changed(&mut mappings, Mappings::new());
    apply_changes(&mut player_manager, &changes, &mut next_id);
    assert!(!player_manager.has_player("output1"));
}

#[test]
fn sync_plan_registers_available_mapped_outputs() {
    let mut mappings = Mappings::new();
    mappings.set("a".to_string(), 1);
    mappings.set("c".to_string(), 3);
    let mut pm = PlayerManager::new();
    pm.track_player("gone".to_string(), 9, 99);
    pm.track_player("c".to_string(), 5, 3);
    let mut om = OutputManager::new();

    let plan = om.handle_outputs_changed(
        vec![create_test_output("a", "A"), create_test_output("b", "B"), create_test_output("c", "C")],
        &mappings,
        &pm,
    );
    assert_eq!(plan.to_unregister, vec!["gone".to_string()]);
    assert_eq!(plan.to_register, vec![("a".to_string(), 1)]);

    let plan = om.handle_outputs_removed(vec!["c".to_string()], &mappings, &pm);
    assert_eq!(plan.to_unregister, vec!["gone".to_string(), "c".to_string()]);
    assert_eq!(plan.to_register, vec![("a".to_string(), 1)]);
}

#[test]
fn mapping_differences_name_every_kind_of_change() {
    let mut old = Mappings::new();
    old.set("kept".to_string(), 1);
    old.set("moved".to_string(), 2);
    old.set("dropped".to_string(), 3);
    let mut new = Mappings::new();
    new.set("moved".to_string(), 20);
    new.set("kept".to_string(), 1);
    new.set("fresh".to_string(), 4);

    new.set("offline".to_string(), 5);
    let mut om = OutputManager::new();
    om.handle_outputs_changed(
        vec![create_test_output("kept", "K"), create_test_output("moved", "M"), create_test_output("fresh", "F")],
        &old,
        &PlayerManager::new(),
    );

    let changes = om.handle_mapping_differences(&old, &new);
    assert_eq!(
        changes,
        vec![
            MappingChange::Unmapped("dropped".to_string()),
            MappingChange::Remapped("moved".to_string(), 20),
            MappingChange::NewlyMapped("fresh".to_string(), 4),
        ]
    );
}

#[test]
fn cached_state_goes_to_registered_player_only() {
    let mut pm = PlayerManager::new();
    let mut cache = StateCache::new();
    let state = PlayerState { status: FsctStatus::Paused, timeline: None, texts: TrackMetadata::default() };
    cache.save_output_state("out".to_string(), state.clone());
    assert!(send_cached_state_to_player(&pm, &cache, "out").is_none());
    pm.track_player("out".to_string(), 4, 40);
    assert_eq!(send_cached_state_to_player(&pm, &cache, "out"), Some((4, state)));
    assert!(send_cached_state_to_player(&pm, &cache, "other").is_none());
}

#[test]
fn mapping_of_unavailable_output_registers_no_player() {
    let mut mappings = Mappings::new();
    let mut player_manager = PlayerManager::new();
    let output_manager = OutputManager::new();
    let mut next_id = 1;
    assert_eq!(output_manager.get_available_outputs().len(), 0);

    let mut new_mappings = Mappings::new();
    new_mappings.set("output1".to_string(), 1);
    let changes = output_manager.handle_mappings_changed(&mut mappings, new_mappings);
    apply_changes(&mut player_manager, &changes, &mut next_id);

    assert!(changes.is_empty());
    assert_eq!(mappings.get("output1"), Some(1));
    assert!(!player_manager.has_player("output1"));
}

#[test]
fn mapped_output_gets_its_player_when_it_appears() {
    let mut mappings = Mappings::new();
    let player_manager = PlayerManager::new();
    let mut output_manager = OutputManager::new();
    let mut new_mappings = Mappings::new();
    new_mappings.set("output1".to_string(), 7);
    let changes = output_manager.handle_mappings_changed(&mut mappings, new_mappings);
    assert!(changes.is_empty());

    let plan = output_manager.handle_outputs_changed(
        vec![create_test_output("output1", "Output 1")],
        &mappings,
        &player_manager,
    );
    assert!(plan.to_unregister.is_empty());
    assert_eq!(plan.to_register, vec![("output1".to_string(), 7)]);
}

#[test]
fn remap_of_unavailable_output_releases_its_player() {
    let mut mappings = Mappings::new();
    mappings.set("away".to_string(), 1);
    mappings.set("gone".to_string(), 2);
    let mut player_manager = PlayerManager::new();
    player_manager.track_player("away".to_string(), 5, 1);
    let output_manager = OutputManager::new();
    let mut next_id = 10;

    let mut new_mappings = Mappings::new();
    new_mappings.set("away".to_string(), 3);
    new_mappings.set("gone".to_string(), 2);
    let changes = output_manager.handle_mappings_changed(&mut mappings, new_mappings);
    assert_eq!(changes, vec![MappingChange::Released("away".to_string())]);
    apply_changes(&mut player_manager, &changes, &mut next_id);

    assert_eq!(mappings.get("away"), Some(3));
    assert!(!player_manager.has_player("away"));
}
