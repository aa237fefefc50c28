//! The player-side data: what an FSCT player is told about playback.
use vstd::prelude::*;

verus! {

/// Identifier that the FSCT driver gives a registered player.
pub type ManagedPlayerId = u32;

/// Identifier of an FSCT device: the 128-bit value of its UUID.
pub type DeviceId = u128;

/// A span of time: whole seconds and the nanoseconds beyond them.
#[derive(Debug, Clone, Copy, PartialEq, Eq, Structural)]
pub struct TimeSpan {
    pub secs: u64,
    pub nanos: u32,
}

impl TimeSpan {
    /// The span of `secs` whole seconds.
    pub fn from_secs(secs: u64) -> (t: TimeSpan)
        ensures
            t == span_secs(secs),
    {
        TimeSpan { secs, nanos: 0 }
    }
}

/// The span of `secs` whole seconds.
pub open spec fn span_secs(secs: u64) -> TimeSpan {
    TimeSpan { secs, nanos: 0 }
}

/// Speed at which the position advances with time.
#[derive(Debug, Clone, Copy, PartialEq, Eq, Structural)]
pub enum PlaybackRate {
    /// The position stays where it is (rate 0).
    Halted,
    /// The position advances in real time (rate 1).
    Normal,
}

/// Playback status as a player reports it.
#[derive(Debug, Clone, Copy, PartialEq, Eq, Structural)]
pub enum FsctStatus {
    Playing,
    Paused,
    Stopped,
    Seeking,
    Buffering,
    Error,
    Unknown,
}

/// Where playback stands in the current track.
#[derive(Debug, Clone, Copy, PartialEq, Eq, Structural)]
pub struct TimelineInfo {
    /// Position in the track at `update_time`.
    pub position: TimeSpan,
    /// When the position was taken, as time since the Unix epoch.
    pub update_time: TimeSpan,
    /// Length of the track.
    pub duration: TimeSpan,
    pub rate: PlaybackRate,
}

/// The texts shown for the current track.
#[derive(Debug, PartialEq, Eq)]
pub struct TrackMetadata {
    pub title: Option<String>,
    pub artist: Option<String>,
    pub album: Option<String>,
    pub genre: Option<String>,
}

/// A copy of an optional text.
pub fn copy_text(t: &Option<String>) -> (r: Option<String>)
    ensures
        r == *t,
{
    match t {
        Some(s) => Some(s.clone()),
        None => None,
    }
}

impl Clone for TrackMetadata {
    fn clone(&self) -> (r: Self)
        ensures
            r == *self,
    {
        TrackMetadata {
            title: copy_text(&self.title),
            artist: copy_text(&self.artist),
            album: copy_text(&self.album),
            genre: copy_text(&self.genre),
        }
    }
}

/// Metadata with no texts.
pub open spec fn empty_metadata() -> TrackMetadata {
    TrackMetadata { title: None, artist: None, album: None, genre: None }
}

impl Default for TrackMetadata {
    fn default() -> (r: Self)
        ensures
            r == empty_metadata(),
    {
        TrackMetadata { title: None, artist: None, album: None, genre: None }
    }
}

/// Everything a player is told about playback.
#[derive(Debug, PartialEq, Eq)]
pub struct PlayerState {
    pub status: FsctStatus,
    pub timeline: Option<TimelineInfo>,
    pub texts: TrackMetadata,
}

impl Clone for PlayerState {
    fn clone(&self) -> (r: Self)
        ensures
            r == *self,
    {
        PlayerState { status: self.status, timeline: self.timeline, texts: self.texts.clone() }
    }
}

/// The state of a player that has been told nothing yet.
pub open spec fn default_player_state() -> PlayerState {
    PlayerState { status: FsctStatus::Unknown, timeline: None, texts: empty_metadata() }
}

impl Default for PlayerState {
    fn default() -> (r: Self)
        ensures
            r == default_player_state(),
    {
        PlayerState { status: FsctStatus::Unknown, timeline: None, texts: TrackMetadata::default() }
    }
}

/// What is known about a detected FSCT device.
#[derive(Debug, PartialEq, Eq)]
pub struct DeviceInfo {
    pub id: DeviceId,
    pub name: Option<String>,
    pub manufacturer: Option<String>,
    pub vendor_id: u16,
    pub product_id: u16,
    pub serial_number: Option<String>,
}

impl Clone for DeviceInfo {
    fn clone(&self) -> (r: Self)
        ensures
            r == *self,
    {
        DeviceInfo {
            id: self.id,
            name: copy_text(&self.name),
            manufacturer: copy_text(&self.manufacturer),
            vendor_id: self.vendor_id,
            product_id: self.product_id,
            serial_number: copy_text(&self.serial_number),
        }
    }
}

} // verus!
