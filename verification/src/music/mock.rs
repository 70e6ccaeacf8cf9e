//! The built-in mock provider: a fixed set of tracks that all play a local test
//! tone. It backs the shim before any real provider is configured and serves as
//! the reference `MusicProvider` implementation.

use vstd::prelude::*;

use super::{tracks_view, MusicProvider, ProviderTrack, TrackView};

verus! {

/// The local test tone served by the shim (`/tidal-shim/audio/tone.wav`).
pub const TONE_URL: &'static str = "http://127.0.0.1:8080/tidal-shim/audio/tone.wav";

/// Number of distinct entries in the mock queue.
pub const QUEUE_SIZE: usize = 6;

/// The decimal text of one digit.
pub open spec fn digit_text(d: nat) -> Seq<char> {
    if d == 0 { "0"@ }
    else if d == 1 { "1"@ }
    else if d == 2 { "2"@ }
    else if d == 3 { "3"@ }
    else if d == 4 { "4"@ }
    else if d == 5 { "5"@ }
    else if d == 6 { "6"@ }
    else if d == 7 { "7"@ }
    else if d == 8 { "8"@ }
    else { "9"@ }
}

/// The decimal text of a natural number, without leading zeros.
pub open spec fn decimal(n: nat) -> Seq<char>
    decreases n,
{
    if n < 10 {
        digit_text(n)
    } else {
        decimal(n / 10) + digit_text(n % 10)
    }
}

/// The id of the `i`-th entry of the mock queue (counting from 1): `mock-<i>`.
pub open spec fn mock_id(i: nat) -> Seq<char> {
    "mock-"@ + decimal(i)
}

/// The mock track with the given id.
pub open spec fn mock_track(id: Seq<char>) -> TrackView {
    TrackView {
        id: id,
        title: "Penumbra Test Tone ("@ + id + ")"@,
        artist: "Penumbra"@,
        album: "Shim Mock"@,
        duration_ms: 20_000,
    }
}

/// The mock queue for a limit: `mock-1`, `mock-2`, … up to the limit or
/// `QUEUE_SIZE`, whichever is smaller.
pub open spec fn mock_queue(limit: nat) -> Seq<TrackView> {
    let n: nat = if limit < QUEUE_SIZE { limit } else { QUEUE_SIZE as nat };
    Seq::new(n, |k: int| mock_track(mock_id((k + 1) as nat)))
}

/// The text of a single decimal digit.
fn digit_str(d: usize) -> (s: &'static str)
    requires
        d < 10,
    ensures
        s@ == digit_text(d as nat),
{
    if d == 0 { "0" }
    else if d == 1 { "1" }
    else if d == 2 { "2" }
    else if d == 3 { "3" }
    else if d == 4 { "4" }
    else if d == 5 { "5" }
    else if d == 6 { "6" }
    else if d == 7 { "7" }
    else if d == 8 { "8" }
    else { "9" }
}

pub struct MockProvider;

impl MockProvider {
    /// The mock track with the given id.
    pub fn track(id: &str) -> (t: ProviderTrack)
        ensures
            t@ == mock_track(id@),
    {
        let mut title = String::from_str("Penumbra Test Tone (");
        title.append(id);
        title.append(")");
        ProviderTrack {
            id: String::from_str(id),
            title,
            artist: String::from_str("Penumbra"),
            album: String::from_str("Shim Mock"),
            duration_ms: 20_000,
        }
    }
}

impl MusicProvider for MockProvider {
    fn name(&self) -> (r: &'static str)
        ensures
            r@ == "mock"@,
    {
        "mock"
    }

    fn queue(&self, limit: usize) -> (r: Vec<ProviderTrack>)
        ensures
            tracks_view(r@) == mock_queue(limit as nat),
    {
        let n: usize = if limit < QUEUE_SIZE { limit } else { QUEUE_SIZE };
        let mut r: Vec<ProviderTrack> = Vec::new();
        let mut i: usize = 1;
        while i <= n
            invariant
                1 <= i <= n + 1,
                n <= QUEUE_SIZE,
                n == (if limit < QUEUE_SIZE { limit } else { QUEUE_SIZE }),
                r.len() == i - 1,
                forall|k: int| 0 <= k < r.len() ==> #[trigger] r@[k]@ == mock_track(mock_id((k + 1) as nat)),
            decreases n + 1 - i,
        {
            let mut id = String::from_str("mock-");
            id.append(digit_str(i));
            assert(id@ == mock_id(i as nat));
            r.push(Self::track(id.as_str()));
            i = i + 1;
        }
        assert(tracks_view(r@) =~= mock_queue(limit as nat));
        r
    }

    fn search_top(&self, term: &str) -> (r: Option<ProviderTrack>)
        ensures
            r is Some,
            r.unwrap()@ == mock_track("mock-1"@),
    {
        Some(Self::track("mock-1"))
    }

    fn track(&self, id: &str) -> (t: ProviderTrack)
        ensures
            t@ == mock_track(id@),
    {
        MockProvider::track(id)
    }

    fn recommendations(&self, seed_id: &str, limit: usize) -> (r: Vec<ProviderTrack>)
        ensures
            tracks_view(r@) == mock_queue(limit as nat),
    {
        self.queue(limit)
    }

    fn playback(&self, id: &str) -> (r: String)
        ensures
            r@ == TONE_URL@,
    {
        // Every mock track plays the same tone.
        String::from_str(TONE_URL)
    }
}

/// The mock queue holds as many tracks as asked for, but never more than
/// `QUEUE_SIZE`; a longer queue starts with a shorter one.
pub proof fn law_mock_queue_bounded_and_stable(a: nat, b: nat)
    requires
        a <= b,
    ensures
        mock_queue(a).len() == (if a < QUEUE_SIZE { a } else { QUEUE_SIZE as nat }),
        mock_queue(a).len() <= mock_queue(b).len(),
        forall|k: int| 0 <= k < mock_queue(a).len() ==> #[trigger] mock_queue(a)[k] == mock_queue(b)[k],
{
}

/// The entries of the mock queue are distinct: no two share an id.
pub proof fn law_mock_queue_distinct(limit: nat)
    ensures
        forall|i: int, j: int|
            0 <= i < j < mock_queue(limit).len() ==> #[trigger] mock_queue(limit)[i].id
                != #[trigger] mock_queue(limit)[j].id,
{
    reveal_strlit("mock-");
    reveal_strlit("1");
    reveal_strlit("2");
    reveal_strlit("3");
    reveal_strlit("4");
    reveal_strlit("5");
    reveal_strlit("6");
    assert forall|i: int, j: int|
        0 <= i < j < mock_queue(limit).len() implies #[trigger] mock_queue(limit)[i].id
        != #[trigger] mock_queue(limit)[j].id by {
        let a = mock_id((i + 1) as nat);
        let b = mock_id((j + 1) as nat);
        assert(a[5] != b[5]);
    }
}

/// Every mock track is its id's own track: asking for a track by id gives
/// back that id.
pub proof fn law_mock_track_keeps_id(id: Seq<char>)
    ensures
        mock_track(id).id == id,
{
}

/// Every entry of the mock queue is the mock track of its own id, titled
/// after that id; the `k`-th entry's id is `mock-<k+1>`.
pub proof fn law_mock_queue_entries_are_their_tracks(limit: nat)
    ensures
        forall|k: int|
            0 <= k < mock_queue(limit).len() ==> {
                &&& #[trigger] mock_queue(limit)[k] == mock_track(mock_queue(limit)[k].id)
                &&& mock_queue(limit)[k].title == "Penumbra Test Tone ("@ + mock_queue(limit)[k].id
                    + ")"@
                &&& mock_queue(limit)[k].id == "mock-"@ + decimal((k + 1) as nat)
            },
{
}

} // verus!
