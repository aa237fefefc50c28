use fsct_roon::player::{FsctStatus, PlaybackRate, PlayerState, TimeSpan, TimelineInfo, TrackMetadata};
use fsct_roon::state_cache::StateCache;

fn now() -> TimeSpan {
    TimeSpan { secs: 1_700_000_000, nanos: 5 }
}

#[test]
fn test_output_state_cache() {
    let mut cache = StateCache::new();
    let output_id = "output1";

    let timeline = TimelineInfo {
        position: TimeSpan::from_secs(10),
        update_time: now(),
        duration: TimeSpan::from_secs(300),
        rate: PlaybackRate::Normal,
    };

    let state = PlayerState {
        status: FsctStatus::Playing,
        timeline: Some(timeline.clone()),
        texts: TrackMetadata::default(),
    };

    // Save full state
    cache.save_output_state(output_id.to_string(), state);

    // Get timeline from state
    assert!(cache.get_timeline(output_id).is_some());
    assert_eq!(cache.get_timeline(output_id).unwrap().position, TimeSpan::from_secs(10));

    // Get full state
    assert!(cache.get_output_state(output_id).is_some());

    // Remove state
    cache.remove_output_state(output_id);
    assert!(cache.get_output_state(output_id).is_none());
    assert!(cache.get_timeline(output_id).is_none());
}

#[test]
fn test_update_timeline() {
    let mut cache = StateCache::new();
    let output_id = "output1";

    let initial_timeline = TimelineInfo {
        position: TimeSpan::from_secs(10),
        update_time: now(),
        duration: TimeSpan::from_secs(300),
        rate: PlaybackRate::Normal,
    };

    let state = PlayerState {
        status: FsctStatus::Playing,
        timeline: Some(initial_timeline.clone()),
        texts: TrackMetadata::default(),
    };

    // Save initial state
    cache.save_output_state(output_id.to_string(), state);

    // Update timeline
    let updated_timeline = TimelineInfo {
        position: TimeSpan::from_secs(20),
        update_time: now(),
        duration: TimeSpan::from_secs(300),
        rate: PlaybackRate::Normal,
    };
    cache.update_timeline(output_id, &updated_timeline);

    // Verify timeline was updated
    let retrieved = cache.get_timeline(output_id).unwrap();
    assert_eq!(retrieved.position, TimeSpan::from_secs(20));

    // Verify full state has updated timeline
    let full_state = cache.get_output_state(output_id).unwrap();
    assert_eq!(full_state.timeline.unwrap().position, TimeSpan::from_secs(20));
}

#[test]
fn test_update_timeline_nonexistent_output() {
    let mut cache = StateCache::new();
    let output_id = "nonexistent";

    let timeline = TimelineInfo {
        position: TimeSpan::from_secs(10),
        update_time: now(),
        duration: TimeSpan::from_secs(300),
        rate: PlaybackRate::Normal,
    };

    // Updating timeline for non-existent output should not panic
    cache.update_timeline(output_id, &timeline);
    assert_eq!(cache.get_timeline(output_id), Some(timeline));
}

#[test]
fn update_timeline_keeps_status_and_texts() {
    let mut cache = StateCache::new();
    let texts = TrackMetadata {
        title: Some("Song".to_string()),
        artist: Some("Artist".to_string()),
        album: None,
        genre: None,
    };
    cache.save_output_state(
        "out".to_string(),
        PlayerState { status: FsctStatus::Paused, timeline: None, texts: texts.clone() },
    );
    let t = TimelineInfo {
        position: TimeSpan::from_secs(1),
        update_time: now(),
        duration: TimeSpan::from_secs(2),
        rate: PlaybackRate::Halted,
    };
    cache.update_timeline("out", &t);
    let st = cache.get_output_state("out").unwrap();
    assert_eq!(st.status, FsctStatus::Paused);
    assert_eq!(st.texts, texts);
    assert_eq!(st.timeline, Some(t));

    // a fresh state holds only the timeline
    cache.update_timeline("fresh", &t);
    let fresh = cache.get_output_state("fresh").unwrap();
    assert_eq!(fresh.status, FsctStatus::Unknown);
    assert_eq!(fresh.texts, TrackMetadata::default());

    cache.clear();
    assert!(cache.get_output_state("out").is_none());
}
