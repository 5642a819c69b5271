//! Filename extension classification: a closed set of recognized encodings
//! plus an open variant that keeps the original text.

use vstd::prelude::*;

verus! {

/// A track file extension: one of the recognized encodings, or `Unknown`
/// carrying the original text. `Placeholder` exists only while a record is
/// under construction and never appears in a finished record.
#[allow(non_camel_case_types)]
#[derive(Debug, PartialEq, Clone)]
pub enum TrackExtension {
    Placeholder,
    Unknown(String),
    mp3,
    flac,
    ogg,
    m4a,
    mp4,
    mkv,
}

/// Code point of a character with ASCII upper-case letters folded to their
/// lower-case forms.
pub open spec fn folded_code(c: char) -> int {
    if 'A' <= c && c <= 'Z' {
        c as u32 + 32
    } else {
        c as u32 as int
    }
}

/// The two strings have the same length and the same characters up to ASCII
/// letter case.
pub open spec fn ascii_case_eq(a: Seq<char>, b: Seq<char>) -> bool {
    a.len() == b.len() && forall|i: int| 0 <= i < a.len() ==> folded_code(a[i]) == folded_code(b[i])
}

/// The member of the closed extension set that `s` names, matched
/// case-insensitively over ASCII letters; `None` outside the set.
pub open spec fn recognized_spec(s: Seq<char>) -> Option<TrackExtension> {
    if s.len() == 3 && folded_code(s[0]) == 'm' as u32 && folded_code(s[1]) == 'p' as u32 && s[2]
        == '3' {
        Some(TrackExtension::mp3)
    } else if s.len() == 4 && folded_code(s[0]) == 'f' as u32 && folded_code(s[1]) == 'l' as u32
        && folded_code(s[2]) == 'a' as u32 && folded_code(s[3]) == 'c' as u32 {
        Some(TrackExtension::flac)
    } else if s.len() == 3 && folded_code(s[0]) == 'o' as u32 && folded_code(s[1]) == 'g' as u32
        && folded_code(s[2]) == 'g' as u32 {
        Some(TrackExtension::ogg)
    } else if s.len() == 3 && folded_code(s[0]) == 'm' as u32 && s[1] == '4' && folded_code(s[2])
        == 'a' as u32 {
        Some(TrackExtension::m4a)
    } else if s.len() == 3 && folded_code(s[0]) == 'm' as u32 && folded_code(s[1]) == 'p' as u32
        && s[2] == '4' {
        Some(TrackExtension::mp4)
    } else if s.len() == 3 && folded_code(s[0]) == 'm' as u32 && folded_code(s[1]) == 'k' as u32
        && folded_code(s[2]) == 'v' as u32 {
        Some(TrackExtension::mkv)
    } else {
        None
    }
}

/// What classifying the non-empty string `s` must produce: the recognized
/// member of the closed set, or `Unknown` carrying exactly `s`.
pub open spec fn classification_of(s: Seq<char>, e: TrackExtension) -> bool {
    match recognized_spec(s) {
        Some(k) => e == k,
        None => s.len() > 0 && match e {
            TrackExtension::Unknown(p) => p@ == s,
            _ => false,
        },
    }
}

/// The canonical text of an extension: the payload for `Unknown`, the
/// lowercase recognized name otherwise.
pub open spec fn rendered_spec(e: TrackExtension) -> Seq<char> {
    match e {
        TrackExtension::Placeholder => seq!['P', 'l', 'a', 'c', 'e', 'h', 'o', 'l', 'd', 'e', 'r'],
        TrackExtension::Unknown(p) => p@,
        TrackExtension::mp3 => seq!['m', 'p', '3'],
        TrackExtension::flac => seq!['f', 'l', 'a', 'c'],
        TrackExtension::ogg => seq!['o', 'g', 'g'],
        TrackExtension::m4a => seq!['m', '4', 'a'],
        TrackExtension::mp4 => seq!['m', 'p', '4'],
        TrackExtension::mkv => seq!['m', 'k', 'v'],
    }
}

/// Exec test for one character of the closed set: does `c` equal the ASCII
/// lower-case letter `l` up to case?
fn char_matches(c: char, l: char) -> (r: bool)
    requires
        'a' <= l && l <= 'z',
    ensures
        r == (folded_code(c) == l as u32),
{
    if c == l {
        true
    } else if 'A' <= c && c <= 'Z' {
        (c as u32) + 32 == (l as u32)
    } else {
        proof {
            assert(folded_code(c) == c as u32);
        }
        false
    }
}

impl TrackExtension {
    /// Classifies an extension string. A non-empty string always classifies:
    /// to a member of the closed set matched case-insensitively, otherwise to
    /// `Unknown` carrying the string unchanged. The empty string is the
    /// distinguished no-extension failure.
    pub fn classify(s: &str) -> (r: Result<TrackExtension, &'static str>)
        ensures
            s@.len() == 0 ==> (r matches Err(m) && m@ == "No Extension?"@),
            s@.len() > 0 ==> (r matches Ok(e) && classification_of(s@, e)),
    {
        let len = s.unicode_len();
        if len == 0 {
            return Err("No Extension?");
        }
        if len == 3 {
            let c0 = s.get_char(0);
            let c1 = s.get_char(1);
            let c2 = s.get_char(2);
            if char_matches(c0, 'm') && char_matches(c1, 'p') && c2 == '3' {
                return Ok(TrackExtension::mp3);
            }
            if char_matches(c0, 'o') && char_matches(c1, 'g') && char_matches(c2, 'g') {
                return Ok(TrackExtension::ogg);
            }
            if char_matches(c0, 'm') && c1 == '4' && char_matches(c2, 'a') {
                return Ok(TrackExtension::m4a);
            }
            if char_matches(c0, 'm') && char_matches(c1, 'p') && c2 == '4' {
                return Ok(TrackExtension::mp4);
            }
            if char_matches(c0, 'm') && char_matches(c1, 'k') && char_matches(c2, 'v') {
                return Ok(TrackExtension::mkv);
            }
        }
        if len == 4 {
            let c0 = s.get_char(0);
            let c1 = s.get_char(1);
            let c2 = s.get_char(2);
            let c3 = s.get_char(3);
            if char_matches(c0, 'f') && char_matches(c1, 'l') && char_matches(c2, 'a')
                && char_matches(c3, 'c') {
                return Ok(TrackExtension::flac);
            }
        }
        Ok(TrackExtension::Unknown(String::from_str(s)))
    }

    /// Renders the extension back to text: the identity for `Unknown`, the
    /// canonical lowercase name for recognized members.
    pub fn to_string(&self) -> (r: String)
        ensures
            r@ == rendered_spec(*self),
    {
        proof {
            reveal_strlit("Placeholder");
            reveal_strlit("mp3");
            reveal_strlit("flac");
            reveal_strlit("ogg");
            reveal_strlit("m4a");
            reveal_strlit("mp4");
            reveal_strlit("mkv");
        }
        let r = match self {
            TrackExtension::Placeholder => String::from_str("Placeholder"),
            TrackExtension::Unknown(p) => p.clone(),
            TrackExtension::mp3 => String::from_str("mp3"),
            TrackExtension::flac => String::from_str("flac"),
            TrackExtension::ogg => String::from_str("ogg"),
            TrackExtension::m4a => String::from_str("m4a"),
            TrackExtension::mp4 => String::from_str("mp4"),
            TrackExtension::mkv => String::from_str("mkv"),
        };
        proof {
            assert(r@ =~= rendered_spec(*self));
        }
        r
    }
}

impl core::str::FromStr for TrackExtension {
    type Err = &'static str;

    fn from_str(s: &str) -> Result<TrackExtension, &'static str> {
        TrackExtension::classify(s)
    }
}

/// Classification of the closed set is ASCII-case-insensitive: strings equal
/// up to letter case are recognized as the same member, or both rejected.
pub proof fn lemma_recognized_case_insensitive(a: Seq<char>, b: Seq<char>)
    requires
        ascii_case_eq(a, b),
    ensures
        recognized_spec(a) == recognized_spec(b),
{
    if a.len() == 3 {
        assert(folded_code(a[0]) == folded_code(b[0]));
        assert(folded_code(a[1]) == folded_code(b[1]));
        assert(folded_code(a[2]) == folded_code(b[2]));
        lemma_folded_digit(a[1], b[1]);
        lemma_folded_digit(a[2], b[2]);
    } else if a.len() == 4 {
        assert(folded_code(a[0]) == folded_code(b[0]));
        assert(folded_code(a[1]) == folded_code(b[1]));
        assert(folded_code(a[2]) == folded_code(b[2]));
        assert(folded_code(a[3]) == folded_code(b[3]));
    }
}

/// Characters with equal folded codes agree on being a given digit, since
/// folding moves no character onto a digit.
proof fn lemma_folded_digit(x: char, y: char)
    requires
        folded_code(x) == folded_code(y),
    ensures
        (x == '3') == (y == '3'),
        (x == '4') == (y == '4'),
{
}

/// Rendering an `Unknown` extension returns exactly the original payload.
pub proof fn lemma_unknown_round_trip(p: String)
    ensures
        rendered_spec(TrackExtension::Unknown(p)) == p@,
{
}

/// A classified extension is never the construction placeholder: every
/// finished record carries a real extension.
pub proof fn lemma_classification_not_placeholder(s: Seq<char>, e: TrackExtension)
    requires
        classification_of(s, e),
    ensures
        e != TrackExtension::Placeholder,
{
}

/// Classification is idempotent: re-classifying the rendered text of a
/// classification yields the same classification.
pub proof fn lemma_classification_idempotent(s: Seq<char>, e: TrackExtension)
    requires
        classification_of(s, e),
    ensures
        classification_of(rendered_spec(e), e),
{
    match recognized_spec(s) {
        Some(k) => {
            assert(recognized_spec(rendered_spec(e)) == Some(e));
        },
        None => {},
    }
}


} // verus!
