//! The millisecond-precision track duration value and its timecode form.

use vstd::prelude::*;

use crate::chars::{dec_digits, render_u64_pad2, zero_pad2};

verus! {

/// A track duration in milliseconds, non-negative by convention (the field
/// itself is not constrained).
#[derive(Debug, Clone, Copy, PartialEq, Eq, Structural)]
pub struct TrackDuration(pub i64);

/// The `mm:ss` timecode of a non-negative millisecond count: whole minutes
/// and leftover seconds, each zero-padded to at least two digits, with the
/// sub-second remainder truncated. Minutes may run past two digits.
pub open spec fn timecode_spec(ms: int) -> Seq<char> {
    let total_secs = ms / 1000;
    let mins = total_secs / 60;
    let secs = total_secs % 60;
    zero_pad2(dec_digits(mins as nat)) + seq![':'] + zero_pad2(dec_digits(secs as nat))
}

impl TrackDuration {
    /// Renders the duration as an `mm:ss` timecode.
    pub fn to_timecode(&self) -> (r: String)
        requires
            self.0 >= 0,
        ensures
            r@ == timecode_spec(self.0 as int),
    {
        let total_secs = self.0 / 1000;
        let mins = total_secs / 60;
        let secs = total_secs % 60;
        let mut r = render_u64_pad2(mins as u64);
        r.append(":");
        let sec_str = render_u64_pad2(secs as u64);
        r.append(sec_str.as_str());
        proof {
            reveal_strlit(":");
            assert(":"@ =~= seq![':']);
            assert(r@ =~= timecode_spec(self.0 as int));
        }
        r
    }

    /// Adds two durations.
    pub fn plus(self, other: TrackDuration) -> (r: TrackDuration)
        requires
            i64::MIN <= self.0 + other.0 <= i64::MAX,
        ensures
            r.0 == self.0 + other.0,
    {
        TrackDuration(self.0 + other.0)
    }

    /// Adds a raw millisecond count to the duration.
    pub fn plus_ms(self, ms: i64) -> (r: TrackDuration)
        requires
            i64::MIN <= self.0 + ms <= i64::MAX,
        ensures
            r.0 == self.0 + ms,
    {
        TrackDuration(self.0 + ms)
    }
}

} // verus!
