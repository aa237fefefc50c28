use fsct_roon::conversions::{
    build_timeline_from_seek, convert_status, convert_zone_to_player_state,
    convert_zone_to_timeline_info,
};
use fsct_roon::player::{FsctStatus, PlaybackRate, TimeSpan, TimelineInfo, TrackMetadata};
use fsct_roon::roon::{NowPlaying, Output, State, ThreeLine, Zone, ZoneSeek};

fn now() -> TimeSpan {
    TimeSpan { secs: 1_700_000_123, nanos: 42 }
}

fn zone(state: State, seek: Option<i64>, length: Option<u32>) -> Zone {
    Zone {
        zone_id: "zone1".to_string(),
        state,
        now_playing: Some(NowPlaying {
            seek_position: seek,
            length,
            three_line: ThreeLine {
                line1: "Title".to_string(),
                line2: "Artist".to_string(),
                line3: "Album".to_string(),
            },
        }),
        outputs: vec![Output {
            output_id: "output1".to_string(),
            zone_id: "zone1".to_string(),
            display_name: "Output 1".to_string(),
        }],
    }
}

#[test]
fn test_convert_status() {
    assert_eq!(convert_status(&State::Playing), FsctStatus::Playing);
    assert_eq!(convert_status(&State::Paused), FsctStatus::Paused);
    assert_eq!(convert_status(&State::Stopped), FsctStatus::Stopped);
    assert_eq!(convert_status(&State::Loading), FsctStatus::Buffering);
}

#[test]
fn timeline_of_playing_zone() {
    let t = convert_zone_to_timeline_info(&zone(State::Playing, Some(42), Some(300)), now()).unwrap();
    assert_eq!(t.position, TimeSpan::from_secs(42));
    assert_eq!(t.duration, TimeSpan::from_secs(300));
    assert_eq!(t.update_time, now());
    assert_eq!(t.rate, PlaybackRate::Normal);
}

#[test]
fn timeline_of_paused_zone_without_position() {
    let t = convert_zone_to_timeline_info(&zone(State::Paused, None, Some(10)), now()).unwrap();
    assert_eq!(t.position, TimeSpan::from_secs(0));
    assert_eq!(t.rate, PlaybackRate::Halted);
}

#[test]
fn no_timeline_without_length_or_track() {
    assert!(convert_zone_to_timeline_info(&zone(State::Playing, Some(5), None), now()).is_none());
    let mut z = zone(State::Playing, Some(5), Some(10));
    z.now_playing = None;
    assert!(convert_zone_to_timeline_info(&z, now()).is_none());
}

#[test]
fn player_state_of_zone() {
    let st = convert_zone_to_player_state(&zone(State::Loading, Some(1), Some(2)), now());
    assert_eq!(st.status, FsctStatus::Buffering);
    assert_eq!(st.texts.title.as_deref(), Some("Title"));
    assert_eq!(st.texts.artist.as_deref(), Some("Artist"));
    assert_eq!(st.texts.album.as_deref(), Some("Album"));
    assert_eq!(st.texts.genre, None);
    assert_eq!(st.timeline.unwrap().rate, PlaybackRate::Halted);

    let mut idle = zone(State::Stopped, None, None);
    idle.now_playing = None;
    let st = convert_zone_to_player_state(&idle, now());
    assert_eq!(st.status, FsctStatus::Stopped);
    assert_eq!(st.texts, TrackMetadata::default());
    assert!(st.timeline.is_none());
}

#[test]
fn seek_timeline_keeps_cached_rate() {
    let seek = ZoneSeek { zone_id: "zone1".to_string(), queue_time_remaining: 100, seek_position: Some(20) };
    let cached = TimelineInfo {
        position: TimeSpan::from_secs(1),
        update_time: TimeSpan::from_secs(0),
        duration: TimeSpan::from_secs(5),
        rate: PlaybackRate::Halted,
    };
    let t = build_timeline_from_seek(Some(&cached), &seek, now()).unwrap();
    assert_eq!(t.position, TimeSpan::from_secs(20));
    assert_eq!(t.duration, TimeSpan::from_secs(120));
    assert_eq!(t.rate, PlaybackRate::Halted);
    assert_eq!(t.update_time, now());

    let t = build_timeline_from_seek(None, &seek, now()).unwrap();
    assert_eq!(t.rate, PlaybackRate::Normal);

    let no_pos = ZoneSeek { zone_id: "zone1".to_string(), queue_time_remaining: 100, seek_position: None };
    assert!(build_timeline_from_seek(Some(&cached), &no_pos, now()).is_none());
}
