use fsct_roon::player_manager::{
    PlayerManager, RegisterAction, RegisterEvent, Registration, UnregisterAction, UnregisterEvent,
};
use uuid::Uuid;

#[test]
fn test_player_tracking() {
    let manager = PlayerManager::new();
    let _uuid = Uuid::new_v4();

    assert!(!manager.has_player("output1"));
    assert_eq!(manager.count(), 0);
}

#[test]
fn player_name_is_prefixed() {
    assert_eq!(PlayerManager::player_name("abc"), "roon-abc");
}

#[test]
fn tracking_and_releasing_players() {
    let mut manager = PlayerManager::new();
    manager.track_player("output1".to_string(), 7, 70);
    manager.track_player("output2".to_string(), 8, 80);
    assert_eq!(manager.count(), 2);
    assert_eq!(manager.get_player("output1"), Some(7));
    assert_eq!(manager.registered_outputs(), vec!["output1".to_string(), "output2".to_string()]);

    assert_eq!(manager.release_player("output1"), Some((7, 70)));
    assert_eq!(manager.release_player("output1"), None);
    assert!(!manager.has_player("output1"));
    assert_eq!(manager.count(), 1);
}

#[test]
fn zones_and_their_players() {
    let mut manager = PlayerManager::new();
    manager.update_zone_mapping(
        "zone1".to_string(),
        vec!["a".to_string(), "b".to_string(), "c".to_string()],
    );
    manager.track_player("c".to_string(), 3, 30);
    manager.track_player("a".to_string(), 1, 10);
    assert_eq!(manager.get_outputs_for_zone("zone1"), vec!["a", "b", "c"]);
    assert_eq!(manager.get_players_for_zone("zone1"), vec![1, 3]);
    assert!(manager.get_outputs_for_zone("zone2").is_empty());
    assert!(manager.get_players_for_zone("zone2").is_empty());
}

#[test]
fn registration_reuses_existing_players() {
    let mut manager = PlayerManager::new();
    assert_eq!(manager.registration("out"), Registration::Needed("roon-out".to_string()));
    manager.track_player("out".to_string(), 3, 30);
    assert_eq!(manager.registration("out"), Registration::Existing(3));
}

#[test]
fn register_steps_track_the_player_only_once_assigned() {
    let mut pm = PlayerManager::new();
    assert_eq!(
        pm.register_step("out", 7, RegisterEvent::Start),
        RegisterAction::RegisterPlayer("roon-out".to_string())
    );
    assert_eq!(pm.register_step("out", 7, RegisterEvent::Registered(3)), RegisterAction::AssignToDevice(3, 7));
    assert!(!pm.has_player("out"));
    assert_eq!(pm.register_step("out", 7, RegisterEvent::Assigned(3)), RegisterAction::Done(3));
    assert_eq!(pm.get_player("out"), Some(3));
    // A second registration reuses the player.
    assert_eq!(pm.register_step("out", 9, RegisterEvent::Start), RegisterAction::Done(3));
}

#[test]
fn failed_assignment_tracks_no_player() {
    let mut pm = PlayerManager::new();
    pm.register_step("out", 7, RegisterEvent::Start);
    pm.register_step("out", 7, RegisterEvent::Registered(3));
    assert_eq!(pm.register_step("out", 7, RegisterEvent::Failed), RegisterAction::Abort);
    assert!(!pm.has_player("out"));
}

#[test]
fn unregister_steps_unassign_then_unregister() {
    let mut pm = PlayerManager::new();
    pm.track_player("out".to_string(), 3, 7);
    assert_eq!(
        pm.unregister_step("out", UnregisterEvent::Start),
        UnregisterAction::UnassignFromDevice(3, 7)
    );
    assert!(!pm.has_player("out"));
    assert_eq!(pm.unregister_step("out", UnregisterEvent::Unassigned(3)), UnregisterAction::UnregisterPlayer(3));
    assert_eq!(pm.unregister_step("out", UnregisterEvent::Unregistered(3)), UnregisterAction::Done);
    assert_eq!(pm.unregister_step("out", UnregisterEvent::Start), UnregisterAction::Done);
    pm.track_player("other".to_string(), 4, 8);
    pm.unregister_step("other", UnregisterEvent::Start);
    assert_eq!(pm.unregister_step("other", UnregisterEvent::Failed), UnregisterAction::Abort);
}
