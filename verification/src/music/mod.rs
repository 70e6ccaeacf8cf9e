//! The music provider seam.
//!
//! `MusicProvider` is the single boundary every music source implements.
//! Providers return neutral [`ProviderTrack`] values. Only the built-in
//! [`MockProvider`] exists so far (a local test tone).

use vstd::prelude::*;

use crate::config::Config;

mod mock;

pub use mock::MockProvider;
pub use mock::{
    decimal, digit_text, law_mock_queue_bounded_and_stable, law_mock_queue_distinct, law_mock_queue_entries_are_their_tracks,
    law_mock_track_keeps_id, mock_id, mock_queue, mock_track, QUEUE_SIZE, TONE_URL,
};

verus! {

/// A track in provider-neutral form. The `id` round-trips back to the provider
/// via [`MusicProvider::playback`], so it can be any provider-local identifier.
#[derive(Debug, Clone)]
pub struct ProviderTrack {
    pub id: String,
    pub title: String,
    pub artist: String,
    pub album: String,
    pub duration_ms: u64,
}

/// The abstract value of a [`ProviderTrack`]: its strings as character sequences.
pub struct TrackView {
    pub id: Seq<char>,
    pub title: Seq<char>,
    pub artist: Seq<char>,
    pub album: Seq<char>,
    pub duration_ms: u64,
}

impl View for ProviderTrack {
    type V = TrackView;

    open spec fn view(&self) -> TrackView {
        TrackView {
            id: self.id@,
            title: self.title@,
            artist: self.artist@,
            album: self.album@,
            duration_ms: self.duration_ms,
        }
    }
}

/// The views of a sequence of tracks.
pub open spec fn tracks_view(tracks: Seq<ProviderTrack>) -> Seq<TrackView> {
    tracks.map_values(|t: ProviderTrack| t@)
}

/// The one interface every music source implements.
pub trait MusicProvider: Send + Sync {
    /// Stable short name for logging.
    fn name(&self) -> &'static str;

    /// The default "play music" queue (charts / editorial).
    fn queue(&self, limit: usize) -> Vec<ProviderTrack>;

    /// The best match for a search term, or `None` if nothing matched.
    fn search_top(&self, term: &str) -> Option<ProviderTrack>;

    /// Metadata for one track by id.
    fn track(&self, id: &str) -> ProviderTrack;

    /// Tracks related to a seed, for the device's "up next" / radio queue.
    fn recommendations(&self, seed_id: &str, limit: usize) -> Vec<ProviderTrack>;

    /// A URL for the track that the device's player fetches.
    fn playback(&self, id: &str) -> String;
}

/// The providers the server can be built with. Only the mock exists so far;
/// a real provider adds its own variant here.
pub enum Provider {
    Mock(MockProvider),
}

impl MusicProvider for Provider {
    fn name(&self) -> (r: &'static str)
        ensures
            self is Mock ==> r@ == "mock"@,
    {
        match self {
            Provider::Mock(p) => p.name(),
        }
    }

    fn queue(&self, limit: usize) -> (r: Vec<ProviderTrack>)
        ensures
            self is Mock ==> tracks_view(r@) == mock_queue(limit as nat),
    {
        match self {
            Provider::Mock(p) => p.queue(limit),
        }
    }

    fn search_top(&self, term: &str) -> (r: Option<ProviderTrack>)
        ensures
            self is Mock ==> r is Some && r.unwrap()@ == mock_track("mock-1"@),
    {
        match self {
            Provider::Mock(p) => p.search_top(term),
        }
    }

    fn track(&self, id: &str) -> (t: ProviderTrack)
        ensures
            self is Mock ==> t@ == mock_track(id@),
    {
        match self {
            Provider::Mock(p) => p.track(id),
        }
    }

    fn recommendations(&self, seed_id: &str, limit: usize) -> (r: Vec<ProviderTrack>)
        ensures
            self is Mock ==> tracks_view(r@) == mock_queue(limit as nat),
    {
        match self {
            Provider::Mock(p) => p.recommendations(seed_id, limit),
        }
    }

    fn playback(&self, id: &str) -> (r: String)
        ensures
            self is Mock ==> r@ == TONE_URL@,
    {
        match self {
            Provider::Mock(p) => p.playback(id),
        }
    }
}

/// The provider a config selects, and whether its name was unknown (in which
/// case the mock stands in).
pub struct ProviderSelection {
    pub provider: Provider,
    pub unknown: bool,
}

/// Build the configured provider. Only `mock` exists today: that name selects
/// it, and any other name falls back to it and is reported as unknown.
pub fn from_config(config: &Config) -> (s: ProviderSelection)
    ensures
        s.provider is Mock,
        s.unknown == (config.music.provider@ != "mock"@),
{
    let mock = String::from_str("mock");
    if config.music.provider == mock {
        ProviderSelection { provider: Provider::Mock(MockProvider), unknown: false }
    } else {
        ProviderSelection { provider: Provider::Mock(MockProvider), unknown: true }
    }
}

} // verus!
