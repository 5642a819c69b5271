//! The closed enumeration of track types and their display abbreviations.

use vstd::prelude::*;

verus! {

/// Classification of a track by its filename pattern. Only `UnknownType`,
/// `ViolinLayering` and `MuseScore` are produced by pattern matching;
/// `Piano` and `Voice` are reserved classifications without a matcher.
#[derive(Debug, Clone, Copy, PartialEq, Eq, Structural)]
pub enum TrackType {
    UnknownType,
    ViolinLayering,
    MuseScore,
    Piano,
    Voice,
}

/// The abbreviated display name of a track type.
pub open spec fn shortname_spec(t: TrackType) -> Seq<char> {
    match t {
        TrackType::UnknownType => seq!['?'],
        TrackType::ViolinLayering => seq!['V', 'L'],
        TrackType::MuseScore => seq!['M', 'S'],
        TrackType::Piano => seq!['P'],
        TrackType::Voice => seq!['V'],
    }
}

/// The abbreviation safe for use inside filenames: the display abbreviation,
/// except for the unknown type whose `?` is not filename-safe.
pub open spec fn shortname_safe_spec(t: TrackType) -> Seq<char> {
    match t {
        TrackType::UnknownType => seq!['t'],
        _ => shortname_spec(t),
    }
}

impl TrackType {
    /// Abbreviated name for compact display.
    pub fn shortname(&self) -> (r: String)
        ensures
            r@ == shortname_spec(*self),
    {
        proof {
            reveal_strlit("?");
            reveal_strlit("VL");
            reveal_strlit("MS");
            reveal_strlit("P");
            reveal_strlit("V");
        }
        let r = match self {
            TrackType::UnknownType => String::from_str("?"),
            TrackType::ViolinLayering => String::from_str("VL"),
            TrackType::MuseScore => String::from_str("MS"),
            TrackType::Piano => String::from_str("P"),
            TrackType::Voice => String::from_str("V"),
        };
        proof {
            assert(r@ =~= shortname_spec(*self));
        }
        r
    }

    /// Abbreviated name that is safe for use in filenames.
    pub fn shortname_safe(&self) -> (r: String)
        ensures
            r@ == shortname_safe_spec(*self),
    {
        match self {
            TrackType::UnknownType => {
                let r = String::from_str("t");
                proof {
                    reveal_strlit("t");
                    assert(r@ =~= shortname_safe_spec(*self));
                }
                r
            },
            _ => self.shortname(),
        }
    }
}

} // verus!
