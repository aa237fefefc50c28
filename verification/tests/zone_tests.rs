use fsct_roon::player::{FsctStatus, PlaybackRate, TimeSpan};
use fsct_roon::player_manager::PlayerManager;
use fsct_roon::roon::{NowPlaying, Output, State, ThreeLine, Zone, ZoneSeek};
use fsct_roon::state_cache::StateCache;
use fsct_roon::zone_handler::ZoneEventHandler;

fn output(id: &str) -> Output {
    Output { output_id: id.to_string(), zone_id: "zone1".to_string(), display_name: id.to_string() }
}

fn playing_zone() -> Zone {
    Zone {
        zone_id: "zone1".to_string(),
        state: State::Playing,
        now_playing: Some(NowPlaying {
            seek_position: Some(30),
            length: Some(200),
            three_line: ThreeLine {
                line1: "T".to_string(),
                line2: "A".to_string(),
                line3: "B".to_string(),
            },
        }),
        outputs: vec![output("o1"), output("o2")],
    }
}

#[test]
fn zone_change_updates_registered_players() {
    let handler = ZoneEventHandler::new();
    let mut pm = PlayerManager::new();
    let mut cache = StateCache::new();
    pm.track_player("o2".to_string(), 12, 200);

    let now = TimeSpan::from_secs(1000);
    let updates = handler.handle_zone_changed(&mut pm, &mut cache, &playing_zone(), now);
    assert_eq!(updates.len(), 1);
    assert_eq!(updates[0].0, 12);
    assert_eq!(updates[0].1.status, FsctStatus::Playing);
    // both outputs get the state cached
    assert!(cache.get_output_state("o1").is_some());
    assert_eq!(cache.get_output_state("o2"), Some(updates[0].1.clone()));
    assert_eq!(pm.get_outputs_for_zone("zone1"), vec!["o1", "o2"]);
}

#[test]
fn zone_seek_updates_timelines() {
    let handler = ZoneEventHandler::new();
    let mut pm = PlayerManager::new();
    let mut cache = StateCache::new();
    pm.track_player("o1".to_string(), 11, 100);
    let mut zone = playing_zone();
    zone.state = State::Paused;
    handler.handle_zone_changed(&mut pm, &mut cache, &zone, TimeSpan::from_secs(1));

    let seek = ZoneSeek { zone_id: "zone1".to_string(), queue_time_remaining: 50, seek_position: Some(60) };
    let updates = handler.handle_zone_seek(&pm, &mut cache, &seek, TimeSpan::from_secs(2));
    assert_eq!(updates.len(), 1);
    assert_eq!(updates[0].0, 11);
    let t = updates[0].1;
    assert_eq!(t.position, TimeSpan::from_secs(60));
    assert_eq!(t.duration, TimeSpan::from_secs(110));
    // the paused rate is kept
    assert_eq!(t.rate, PlaybackRate::Halted);
    assert_eq!(cache.get_timeline("o1"), Some(t));
    // the output without player keeps its cached timeline
    assert_eq!(cache.get_timeline("o2").unwrap().position, TimeSpan::from_secs(30));

    // no position: nothing happens
    let none = ZoneSeek { zone_id: "zone1".to_string(), queue_time_remaining: 50, seek_position: None };
    assert!(handler.handle_zone_seek(&pm, &mut cache, &none, TimeSpan::from_secs(3)).is_empty());
    // unknown zone: nothing happens
    let other = ZoneSeek { zone_id: "zone9".to_string(), queue_time_remaining: 1, seek_position: Some(1) };
    assert!(handler.handle_zone_seek(&pm, &mut cache, &other, TimeSpan::from_secs(3)).is_empty());
}
