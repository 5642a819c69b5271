//! The playlist aggregator: an ordered collection of tracks built in one
//! pass from a source document, with duration tallying and index-width
//! computation.

use vstd::prelude::*;

use crate::duration::TrackDuration;
use crate::track::{elem_ok, track_from_elem, Track, TrackSource};

verus! {

/// The plain data a parsed playlist document exposes to the aggregator: the
/// optional title text and the ordered track elements, in document order.
#[derive(Debug, Clone, PartialEq)]
pub struct PlaylistSource {
    pub title: Option<String>,
    pub entries: Vec<TrackSource>,
}

/// Container for everything about the playlist.
#[derive(Debug, Clone, PartialEq)]
pub struct XspfPlaylist {
    /// Tracks in document order.
    pub tracks: Vec<Track>,
    /// Title as supplied by the document, where present.
    pub title: Option<String>,
}

/// Result of tallying the playlist durations.
#[derive(Debug, Clone, Copy, PartialEq, Eq, Structural)]
pub struct XspfDurationTallyResult {
    /// Total duration of the tracks that carry one.
    pub duration: TrackDuration,
    /// Number of tracks that could not be counted (missing durations).
    pub uncounted: usize,
}

/// The source elements that yield a track, in document order: malformed
/// elements are skipped, everything else is kept in place.
pub open spec fn kept(es: Seq<TrackSource>) -> Seq<TrackSource>
    decreases es.len(),
{
    if es.len() == 0 {
        Seq::empty()
    } else if elem_ok(es.last()) {
        kept(es.drop_last()).push(es.last())
    } else {
        kept(es.drop_last())
    }
}

/// Skipping malformed elements keeps document order: the kept elements of a
/// concatenation are the kept elements of its parts, in the same order.
pub proof fn lemma_kept_preserves_order(a: Seq<TrackSource>, b: Seq<TrackSource>)
    ensures
        kept(a + b) == kept(a) + kept(b),
    decreases b.len(),
{
    if b.len() == 0 {
        assert(a + b =~= a);
        assert(kept(a) + kept(b) =~= kept(a));
    } else {
        lemma_kept_preserves_order(a, b.drop_last());
        assert((a + b).drop_last() =~= a + b.drop_last());
        assert((a + b).last() == b.last());
        if elem_ok(b.last()) {
            assert(kept(a + b) =~= kept(a) + kept(b));
        } else {
            assert(kept(a + b) =~= kept(a) + kept(b));
        }
    }
}

/// Sum, over the mathematical integers, of the durations the tracks carry.
pub open spec fn tally_sum(ts: Seq<Track>) -> int
    decreases ts.len(),
{
    if ts.len() == 0 {
        0
    } else {
        tally_sum(ts.drop_last()) + match ts.last().duration {
            Some(d) => d.0 as int,
            None => 0,
        }
    }
}

/// Number of tracks without a duration.
pub open spec fn tally_uncounted(ts: Seq<Track>) -> int
    decreases ts.len(),
{
    if ts.len() == 0 {
        0
    } else {
        tally_uncounted(ts.drop_last()) + match ts.last().duration {
            Some(d) => 0int,
            None => 1int,
        }
    }
}

/// Every prefix of the duration tally stays within the i64 range, so the
/// running sum cannot overflow.
pub open spec fn tally_fits(ts: Seq<Track>) -> bool {
    forall|i: int|
        0 <= i <= ts.len() ==> i64::MIN <= #[trigger] tally_sum(ts.take(i)) <= i64::MAX
}

/// The digit width needed to zero-pad every 1-based track ordinal: two
/// digits up to 99 tracks, three up to 999, four beyond.
pub open spec fn width_for(n: int) -> int {
    if n <= 99 {
        2
    } else if n <= 999 {
        3
    } else {
        4
    }
}

impl XspfPlaylist {
    /// Builds the playlist from the plain data of a parsed document: each
    /// source element in order, skipping those that yield no track, with
    /// the title recorded as supplied.
    #[verifier::loop_isolation(false)]
    pub fn from_xml_tree(source: PlaylistSource) -> (r: XspfPlaylist)
        ensures
            r.title == source.title,
            r.tracks@.len() == kept(source.entries@).len(),
            forall|i: int|
                0 <= i < r.tracks@.len() ==> track_from_elem(
                    #[trigger] r.tracks@[i],
                    kept(source.entries@)[i],
                ),
    {
        let mut tracks: Vec<Track> = Vec::new();
        let n = source.entries.len();
        let mut i: usize = 0;
        proof {
            assert(source.entries@.take(0) =~= Seq::<TrackSource>::empty());
        }
        while i < n
            invariant
                i <= n,
                tracks@.len() == kept(source.entries@.take(i as int)).len(),
                forall|j: int|
                    0 <= j < tracks@.len() ==> track_from_elem(
                        #[trigger] tracks@[j],
                        kept(source.entries@.take(i as int))[j],
                    ),
            decreases n - i,
        {
            proof {
                assert(source.entries@.take(i + 1).drop_last() =~= source.entries@.take(i as int));
                assert(source.entries@.take(i + 1).last() == source.entries@[i as int]);
            }
            match Track::from_xml_elem(&source.entries[i]) {
                Ok(track) => {
                    tracks.push(track);
                },
                Err(_) => {},
            }
            i = i + 1;
        }
        proof {
            assert(source.entries@.take(n as int) =~= source.entries@);
        }
        XspfPlaylist { tracks, title: source.title }
    }

    /// Number of tracks in the playlist.
    pub fn len(&self) -> (r: usize)
        ensures
            r == self.tracks@.len(),
    {
        self.tracks.len()
    }

    /// Number of digits required for padding track numbers, so all
    /// generated filenames align on the track-number prefix.
    pub fn track_index_width(&self) -> (r: usize)
        ensures
            r as int == width_for(self.tracks@.len() as int),
    {
        let n = self.tracks.len();
        if n <= 99 {
            2
        } else if n <= 999 {
            3
        } else {
            4
        }
    }

    /// Total duration of all tracks that carry one, along with the count of
    /// those that could not be counted. The caller must know the tally fits
    /// the i64 range; `duration_sum_fits` decides that.
    #[verifier::loop_isolation(false)]
    pub fn total_duration(&self) -> (r: XspfDurationTallyResult)
        requires
            tally_fits(self.tracks@),
        ensures
            r.duration.0 as int == tally_sum(self.tracks@),
            r.uncounted as int == tally_uncounted(self.tracks@),
    {
        let n = self.tracks.len();
        let mut sum: i64 = 0;
        let mut uncounted: usize = 0;
        let mut i: usize = 0;
        proof {
            assert(self.tracks@.take(0) =~= Seq::<Track>::empty());
        }
        while i < n
            invariant
                i <= n,
                sum as int == tally_sum(self.tracks@.take(i as int)),
                uncounted as int == tally_uncounted(self.tracks@.take(i as int)),
                uncounted <= i,
            decreases n - i,
        {
            proof {
                assert(self.tracks@.take(i + 1).drop_last() =~= self.tracks@.take(i as int));
                assert(self.tracks@.take(i + 1).last() == self.tracks@[i as int]);
                assert(i64::MIN <= tally_sum(self.tracks@.take(i + 1)) <= i64::MAX);
            }
            match self.tracks[i].duration {
                Some(d) => {
                    sum = sum + d.0;
                },
                None => {
                    uncounted = uncounted + 1;
                },
            }
            i = i + 1;
        }
        proof {
            assert(self.tracks@.take(n as int) =~= self.tracks@);
        }
        XspfDurationTallyResult { duration: TrackDuration(sum), uncounted }
    }

    /// Decides whether the duration tally stays within the i64 range on
    /// every prefix, which is what `total_duration` requires.
    #[verifier::loop_isolation(false)]
    pub fn duration_sum_fits(&self) -> (r: bool)
        ensures
            r == tally_fits(self.tracks@),
    {
        let n = self.tracks.len();
        let mut sum: i64 = 0;
        let mut i: usize = 0;
        proof {
            assert(self.tracks@.take(0) =~= Seq::<Track>::empty());
        }
        while i < n
            invariant
                i <= n,
                sum as int == tally_sum(self.tracks@.take(i as int)),
                forall|j: int|
                    0 <= j <= i ==> i64::MIN <= #[trigger] tally_sum(self.tracks@.take(j))
                        <= i64::MAX,
            decreases n - i,
        {
            proof {
                assert(self.tracks@.take(i + 1).drop_last() =~= self.tracks@.take(i as int));
                assert(self.tracks@.take(i + 1).last() == self.tracks@[i as int]);
            }
            match self.tracks[i].duration {
                Some(d) => {
                    let ms = d.0;
                    if ms > 0 && sum > i64::MAX - ms {
                        proof {
                            assert(tally_sum(self.tracks@.take(i + 1)) > i64::MAX);
                        }
                        return false;
                    }
                    if ms < 0 && sum < i64::MIN - ms {
                        proof {
                            assert(tally_sum(self.tracks@.take(i + 1)) < i64::MIN);
                        }
                        return false;
                    }
                    sum = sum + ms;
                },
                None => {},
            }
            i = i + 1;
        }
        proof {
            assert(self.tracks@.take(n as int) =~= self.tracks@);
        }
        true
    }
}

} // verus!
