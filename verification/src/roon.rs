//! The Roon-side data that the bridge reads: zones, outputs and seek updates.
use vstd::prelude::*;

verus! {

/// Playback state of a Roon zone.
#[derive(Debug, Clone, Copy, PartialEq, Eq, Structural)]
pub enum State {
    Playing,
    Paused,
    Stopped,
    Loading,
}

/// A Roon output, as far as the bridge reads it.
#[derive(Debug, PartialEq, Eq)]
pub struct Output {
    pub output_id: String,
    pub zone_id: String,
    pub display_name: String,
}

impl Clone for Output {
    fn clone(&self) -> (r: Self)
        ensures
            r == *self,
    {
        Output {
            output_id: self.output_id.clone(),
            zone_id: self.zone_id.clone(),
            display_name: self.display_name.clone(),
        }
    }
}

/// The three lines of text that Roon shows for the current track.
#[derive(Debug, PartialEq, Eq)]
pub struct ThreeLine {
    pub line1: String,
    pub line2: String,
    pub line3: String,
}

/// What a zone is playing.
#[derive(Debug, PartialEq, Eq)]
pub struct NowPlaying {
    /// Position in seconds, when known.
    pub seek_position: Option<i64>,
    /// Track length in seconds, when known.
    pub length: Option<u32>,
    pub three_line: ThreeLine,
}

/// A Roon zone: a group of outputs playing the same thing.
#[derive(Debug, PartialEq, Eq)]
pub struct Zone {
    pub zone_id: String,
    pub state: State,
    pub now_playing: Option<NowPlaying>,
    pub outputs: Vec<Output>,
}

/// A seek-only update of a zone.
#[derive(Debug, PartialEq, Eq)]
pub struct ZoneSeek {
    pub zone_id: String,
    /// Seconds left in the queue.
    pub queue_time_remaining: i64,
    /// Position in seconds, when known.
    pub seek_position: Option<i64>,
}

/// The output chosen in a settings dropdown.
#[derive(Debug, PartialEq, Eq)]
pub struct OutputSetting {
    pub name: String,
    pub output_id: String,
}

impl Clone for OutputSetting {
    fn clone(&self) -> (r: Self)
        ensures
            r == *self,
    {
        OutputSetting { name: self.name.clone(), output_id: self.output_id.clone() }
    }
}

} // verus!
