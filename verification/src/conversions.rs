//! Conversion of Roon zone data into what FSCT players are told.
use vstd::prelude::*;
use crate::player::{
    empty_metadata, span_secs, FsctStatus, PlaybackRate, PlayerState, TimeSpan, TimelineInfo,
    TrackMetadata,
};
use crate::roon::{State, Zone, ZoneSeek};

verus! {

/// The player status that a Roon playback state stands for.
pub open spec fn spec_convert_status(s: State) -> FsctStatus {
    match s {
        State::Playing => FsctStatus::Playing,
        State::Paused => FsctStatus::Paused,
        State::Stopped => FsctStatus::Stopped,
        State::Loading => FsctStatus::Buffering,
    }
}

/// Convert Roon playback State to FSCT status.
pub fn convert_status(roon_state: &State) -> (s: FsctStatus)
    ensures
        s == spec_convert_status(*roon_state),
{
    match roon_state {
        State::Playing => FsctStatus::Playing,
        State::Paused => FsctStatus::Paused,
        State::Stopped => FsctStatus::Stopped,
        State::Loading => FsctStatus::Buffering,
    }
}

/// The rate a player is given for a zone in state `s`: real time only while playing.
pub open spec fn rate_for(s: State) -> PlaybackRate {
    if s == State::Playing {
        PlaybackRate::Normal
    } else {
        PlaybackRate::Halted
    }
}

/// A zone whose position the conversion can take: a known position is not negative.
pub open spec fn zone_position_ok(zone: Zone) -> bool {
    zone.now_playing matches Some(np) ==> (np.seek_position matches Some(p) ==> p >= 0)
}

/// The timeline of a zone at time `now`: present when the track length is known;
/// an unknown position counts as zero.
pub open spec fn spec_zone_timeline(zone: Zone, now: TimeSpan) -> Option<TimelineInfo> {
    match zone.now_playing {
        None => None,
        Some(np) => match np.length {
            None => None,
            Some(len) => Some(
                TimelineInfo {
                    position: match np.seek_position {
                        Some(p) => span_secs(p as u64),
                        None => span_secs(0),
                    },
                    update_time: now,
                    duration: span_secs(len as u64),
                    rate: rate_for(zone.state),
                },
            ),
        },
    }
}

/// Convert Roon zone to FSCT TimelineInfo (for seek-only updates), taken at `now`.
pub fn convert_zone_to_timeline_info(zone: &Zone, now: TimeSpan) -> (r: Option<TimelineInfo>)
    requires
        zone_position_ok(*zone),
    ensures
        r == spec_zone_timeline(*zone, now),
{
    match &zone.now_playing {
        None => None,
        Some(np) => {
            // when position is not available, it counts as zero
            let position = match np.seek_position {
                Some(p) => TimeSpan::from_secs(p as u64),
                None => TimeSpan::from_secs(0),
            };
            // when length is not available, the whole timeline is not available
            match np.length {
                None => None,
                Some(len) => {
                    let rate = if zone.state == State::Playing {
                        PlaybackRate::Normal
                    } else {
                        PlaybackRate::Halted
                    };
                    Some(
                        TimelineInfo {
                            position,
                            update_time: now,
                            duration: TimeSpan::from_secs(len as u64),
                            rate,
                        },
                    )
                },
            }
        },
    }
}

/// A seek update that the timeline can be built from without overflow.
pub open spec fn seek_in_range(zone_seek: ZoneSeek) -> bool {
    zone_seek.seek_position matches Some(p) ==> i64::MIN <= zone_seek.queue_time_remaining + p
        <= i64::MAX
}

/// The timeline after a seek update: position and duration from the update, the rate
/// kept from the cached timeline (real time when there is none).
pub open spec fn spec_timeline_from_seek(
    cached: Option<TimelineInfo>,
    zone_seek: ZoneSeek,
    now: TimeSpan,
) -> Option<TimelineInfo> {
    match zone_seek.seek_position {
        None => None,
        Some(p) => Some(
            TimelineInfo {
                position: span_secs(p as u64),
                update_time: now,
                duration: span_secs((zone_seek.queue_time_remaining + p) as u64),
                rate: match cached {
                    Some(t) => t.rate,
                    None => PlaybackRate::Normal,
                },
            },
        ),
    }
}

/// Build TimelineInfo from ZoneSeek, using cached timeline for rate preservation.
/// This is used for seek-only updates where we need to preserve the playback rate.
pub fn build_timeline_from_seek(
    cached: Option<&TimelineInfo>,
    zone_seek: &ZoneSeek,
    now: TimeSpan,
) -> (r: Option<TimelineInfo>)
    requires
        seek_in_range(*zone_seek),
    ensures
        r == spec_timeline_from_seek(
            match cached {
                Some(t) => Some(*t),
                None => None,
            },
            *zone_seek,
            now,
        ),
{
    match zone_seek.seek_position {
        None => None,
        Some(seek_pos) => {
            let position = TimeSpan::from_secs(seek_pos as u64);
            let total: i64 = zone_seek.queue_time_remaining + seek_pos;
            let duration = TimeSpan::from_secs(total as u64);
            // Use cached rate if available, otherwise real time
            let rate = match cached {
                Some(t) => t.rate,
                None => PlaybackRate::Normal,
            };
            Some(TimelineInfo { position, update_time: now, duration, rate })
        },
    }
}

/// The texts of a zone: the three lines of what it plays, or none.
pub open spec fn spec_zone_texts(zone: Zone) -> TrackMetadata {
    match zone.now_playing {
        Some(np) => TrackMetadata {
            title: Some(np.three_line.line1),
            artist: Some(np.three_line.line2),
            album: Some(np.three_line.line3),
            genre: None,
        },
        None => empty_metadata(),
    }
}

/// The player state of a zone at time `now`.
pub open spec fn spec_zone_player_state(zone: Zone, now: TimeSpan) -> PlayerState {
    PlayerState {
        status: spec_convert_status(zone.state),
        timeline: spec_zone_timeline(zone, now),
        texts: spec_zone_texts(zone),
    }
}

/// Convert Roon zone to FSCT PlayerState, taken at `now`.
pub fn convert_zone_to_player_state(zone: &Zone, now: TimeSpan) -> (r: PlayerState)
    requires
        zone_position_ok(*zone),
    ensures
        r == spec_zone_player_state(*zone, now),
{
    let status = convert_status(&zone.state);
    let timeline = convert_zone_to_timeline_info(zone, now);
    let texts = match &zone.now_playing {
        Some(now_playing) => {
            let three_line = &now_playing.three_line;
            TrackMetadata {
                title: Some(three_line.line1.clone()),
                artist: Some(three_line.line2.clone()),
                album: Some(three_line.line3.clone()),
                genre: None,
            }
        },
        None => TrackMetadata::default(),
    };
    PlayerState { status, timeline, texts }
}

/// A converted zone's timeline is present exactly when the zone plays something of known
/// length. It is taken at `now`, lasts the track's length, and runs in real time exactly
/// when the zone is playing: the position of a stopped, paused or loading zone stands still.
pub proof fn law_timeline_runs_only_while_playing(zone: Zone, now: TimeSpan)
    ensures
        spec_zone_timeline(zone, now) is Some <==> (zone.now_playing matches Some(np)
            && np.length is Some),
        spec_zone_timeline(zone, now) matches Some(t) ==> {
            &&& t.update_time == now
            &&& (zone.state == State::Playing ==> t.rate == PlaybackRate::Normal)
            &&& (zone.state != State::Playing ==> t.rate == PlaybackRate::Halted)
            &&& zone.now_playing matches Some(np) && np.length matches Some(len) && t.duration
                == span_secs(len as u64)
        },
        spec_zone_player_state(zone, now).timeline == spec_zone_timeline(zone, now),
{
}

/// A seek update gives a timeline exactly when it carries a position; the timeline is
/// taken at `now`, starts at that position, and keeps the playback rate of the cached
/// timeline (real time when nothing was cached), so a seek neither starts nor stops the
/// clock.
pub proof fn law_seek_keeps_rate(cached: Option<TimelineInfo>, zone_seek: ZoneSeek, now: TimeSpan)
    ensures
        spec_timeline_from_seek(cached, zone_seek, now) is Some <==> zone_seek.seek_position is Some,
        spec_timeline_from_seek(cached, zone_seek, now) matches Some(t) ==> {
            &&& t.update_time == now
            &&& zone_seek.seek_position matches Some(p) && t.position == span_secs(p as u64)
            &&& (cached matches Some(c) ==> t.rate == c.rate)
            &&& (cached is None ==> t.rate == PlaybackRate::Normal)
        },
{
}

} // verus!
