//! Filename metadata decomposition: an ordered list of recognizers applied
//! to a filename stem, first match wins, with a total fallback.

use vstd::prelude::*;

use crate::chars::{
    all_digits, contains_char_from, digit_prefix_len, digit_run_len, index_of_digits,
    is_digit_char, is_letter_char, last_index_of, lemma_digit_prefix_len_props,
    lemma_last_index_of_props, matches_at, parse_index_digits, rfind_char,
};
use crate::extension::{classification_of, TrackExtension};
use crate::track_type::TrackType;

verus! {

/// Separator accepted after a long-form violin-layering prefix.
pub open spec fn is_sep(c: char) -> bool {
    c == '-' || c == '_'
}

/// The modern long-form violin-layering prefix.
pub open spec fn vln_layering_seq() -> Seq<char> {
    seq!['v', 'l', 'n', '_', 'l', 'a', 'y', 'e', 'r', 'i', 'n', 'g']
}

/// The legacy long-form violin-layering prefix.
pub open spec fn vln_improv_seq() -> Seq<char> {
    seq!['v', 'l', 'n', '_', 'i', 'm', 'p', 'r', 'o', 'v']
}

/// The sentinel descriptive name used when a pattern matches but supplies no
/// title.
pub open spec fn untitled() -> Seq<char> {
    seq!['<', 'U', 'n', 't', 'i', 't', 'l', 'e', 'd', '>']
}

/// Where the index-and-title tail of a violin-layering stem begins: after a
/// long-form prefix and its separator, or after a bare `v`. The long forms
/// are tested first; this cannot steal a match from the bare form, since the
/// bare form needs a digit where the long forms have an `l`.
pub open spec fn violin_tail_start(s: Seq<char>) -> Option<int> {
    if s.len() >= 13 && s.take(12) == vln_layering_seq() && is_sep(s[12]) {
        Some(13)
    } else if s.len() >= 11 && s.take(10) == vln_improv_seq() && is_sep(s[10]) {
        Some(11)
    } else if s.len() >= 1 && s[0] == 'v' {
        Some(1)
    } else {
        None
    }
}

/// Parses the tail of a violin-layering stem: one or more digits, an
/// optional single variant letter (discarded), then either the end or a
/// `-title` suffix covering the rest of the stem. Returns the digit run and
/// the optional title.
pub open spec fn violin_tail_parse(t: Seq<char>) -> Option<(Seq<char>, Option<Seq<char>>)> {
    let d = digit_prefix_len(t);
    if d == 0 {
        None
    } else {
        let rest = t.skip(d);
        let rest2 = if rest.len() > 0 && is_letter_char(rest[0]) {
            rest.skip(1)
        } else {
            rest
        };
        if rest2.len() == 0 {
            Some((t.take(d), None))
        } else if rest2[0] == '-' && rest2.len() >= 2 && !rest2.skip(1).contains('\n') {
            Some((t.take(d), Some(rest2.skip(1))))
        } else {
            None
        }
    }
}

/// The violin-layering recognizer over a whole stem.
pub open spec fn violin_parse(s: Seq<char>) -> Option<(Seq<char>, Option<Seq<char>>)> {
    match violin_tail_start(s) {
        Some(k) => violin_tail_parse(s.skip(k)),
        None => None,
    }
}

/// The muse-score recognizer: an eight-digit date, an optional single
/// variant letter, `-`, the index digits, `-`, and a non-empty title
/// covering the rest of the stem. Returns the index digits and the title;
/// the date is not retained (a track's parent-directory field carries it).
pub open spec fn muse_parse(s: Seq<char>) -> Option<(Seq<char>, Seq<char>)> {
    if s.len() >= 9 && all_digits(s.take(8)) {
        let p: int = if is_letter_char(s[8]) {
            9
        } else {
            8
        };
        if s.len() > p && s[p] == '-' {
            let t = s.skip(p + 1);
            let d = digit_prefix_len(t);
            if d >= 1 && t.len() > d && t[d] == '-' && t.len() > d + 1 && !t.skip(d + 1).contains(
                '\n',
            ) {
                Some((t.take(d), t.skip(d + 1)))
            } else {
                None
            }
        } else {
            None
        }
    } else {
        None
    }
}

/// What decomposing the stem must yield in the type, index and name fields:
/// the recognizers are tried in order and the first match wins; when none
/// matches, the record is unknown with index 0 and the full stem as name.
pub open spec fn decomposition_of(
    track_type: TrackType,
    index: i32,
    name: Seq<char>,
    stem: Seq<char>,
) -> bool {
    match violin_parse(stem) {
        Some(pr) => {
            &&& track_type == TrackType::ViolinLayering
            &&& index as int == index_of_digits(pr.0)
            &&& name == match pr.1 {
                Some(t) => t,
                None => untitled(),
            }
        },
        None => match muse_parse(stem) {
            Some(pr) => {
                &&& track_type == TrackType::MuseScore
                &&& index as int == index_of_digits(pr.0)
                &&& name == pr.1
            },
            None => {
                &&& track_type == TrackType::UnknownType
                &&& index == 0
                &&& name == stem
            },
        },
    }
}

/// The filename carries an extension: a final `.` that is neither the first
/// character nor the last, so that both stem and extension are non-empty.
pub open spec fn has_extension(name: Seq<char>) -> bool {
    let d = last_index_of(name, '.');
    1 <= d && d + 1 < name.len()
}

/// The interesting aspects extracted from a track filename.
#[derive(Debug, Clone, PartialEq)]
pub struct FilenameInfoComponents {
    /// Track type recognized from the stem.
    pub track_type: TrackType,
    /// Sequence index in that day's sessions; 0 when unknown or absent.
    pub index: i32,
    /// Descriptive name, or the full stem when nothing matched.
    pub name: String,
    /// Filename extension.
    pub extn: TrackExtension,
}

/// Whether `s[i]` is a long-prefix separator.
fn sep_at(s: &str, i: usize) -> (r: bool)
    requires
        i < s@.len(),
    ensures
        r == is_sep(s@[i as int]),
{
    let c = s.get_char(i);
    c == '-' || c == '_'
}

/// Whether `s[i]` is an ASCII letter.
fn letter_at(s: &str, i: usize) -> (r: bool)
    requires
        i < s@.len(),
    ensures
        r == is_letter_char(s@[i as int]),
{
    let c = s.get_char(i);
    ('a' <= c && c <= 'z') || ('A' <= c && c <= 'Z')
}

/// Whether `s[i]` equals `c`.
fn char_at_is(s: &str, i: usize, c: char) -> (r: bool)
    requires
        i < s@.len(),
    ensures
        r == (s@[i as int] == c),
{
    s.get_char(i) == c
}

/// Tries the violin-layering recognizer on a stem; the result carries the
/// decomposed fields exactly when the recognizer matches.
#[verifier::rlimit(60)]
fn try_violin(s: &str) -> (r: Option<FilenameInfoComponents>)
    ensures
        match r {
            Some(fic) => violin_parse(s@) matches Some(pr) && {
                &&& fic.track_type == TrackType::ViolinLayering
                &&& fic.index as int == index_of_digits(pr.0)
                &&& fic.name@ == match pr.1 {
                    Some(t) => t,
                    None => untitled(),
                }
                &&& fic.extn == TrackExtension::Placeholder
            },
            None => violin_parse(s@) is None,
        },
{
    let n = s.unicode_len();
    proof {
        reveal_strlit("vln_layering");
        reveal_strlit("vln_improv");
        assert("vln_layering"@ =~= vln_layering_seq());
        assert("vln_improv"@ =~= vln_improv_seq());
    }
    let k_opt: Option<usize> = if n >= 13 && matches_at(s, 0, "vln_layering") && sep_at(s, 12) {
        Some(13)
    } else if n >= 11 && matches_at(s, 0, "vln_improv") && sep_at(s, 10) {
        Some(11)
    } else if n >= 1 && char_at_is(s, 0, 'v') {
        Some(1)
    } else {
        None
    };
    proof {
        if n >= 13 {
            assert(s@.take(12) =~= s@.subrange(0, 12));
        }
        if n >= 11 {
            assert(s@.take(10) =~= s@.subrange(0, 10));
        }
        assert(violin_tail_start(s@) == match k_opt {
            Some(k) => Some(k as int),
            None => None::<int>,
        });
    }
    if let Some(k) = k_opt {
        let ghost t = s@.skip(k as int);
        let d = digit_run_len(s, k);
        if d > 0 {
            let mut p = k + d;
            proof {
                assert(t.skip(d as int) =~= s@.skip((k + d) as int));
            }
            if p < n && letter_at(s, p) {
                p = p + 1;
                proof {
                    assert(t.skip(d as int)[0] == s@[(k + d) as int]);
                    assert(t.skip(d as int).skip(1) =~= s@.skip(p as int));
                }
            }
            let ghost rest = t.skip(d as int);
            let ghost rest2 = if rest.len() > 0 && is_letter_char(rest[0]) {
                rest.skip(1)
            } else {
                rest
            };
            proof {
                assert(rest2 =~= s@.skip(p as int));
                lemma_digit_prefix_len_props(t);
                assert(s@.subrange(k as int, (k + d) as int) =~= t.take(d as int));
            }
            if p == n {
                let idx_str = s.substring_char(k, k + d);
                let idx = parse_index_digits(idx_str);
                let name = String::from_str("<Untitled>");
                proof {
                    reveal_strlit("<Untitled>");
                    assert(name@ =~= untitled());
                    assert(violin_parse(s@) == Some((t.take(d as int), None::<Seq<char>>)));
                }
                return Some(
                    FilenameInfoComponents {
                        track_type: TrackType::ViolinLayering,
                        index: idx,
                        name,
                        extn: TrackExtension::Placeholder,
                    },
                );
            }
            proof {
                assert(rest2[0] == s@[p as int]);
                assert(rest2.skip(1) =~= s@.skip((p + 1) as int));
            }
            if char_at_is(s, p, '-') && p + 1 < n && !contains_char_from(s, p + 1, '\n') {
                let idx_str = s.substring_char(k, k + d);
                let idx = parse_index_digits(idx_str);
                let title = s.substring_char(p + 1, n);
                let name = title.to_owned();
                proof {
                    assert(title@ =~= s@.skip((p + 1) as int));
                    assert(violin_parse(s@) == Some((t.take(d as int), Some(rest2.skip(1)))));
                }
                return Some(
                    FilenameInfoComponents {
                        track_type: TrackType::ViolinLayering,
                        index: idx,
                        name,
                        extn: TrackExtension::Placeholder,
                    },
                );
            }
        }
    }
    proof {
        assert(violin_parse(s@) is None);
    }
    None
}

/// Tries the muse-score recognizer on a stem; the result carries the
/// decomposed fields exactly when the recognizer matches.
#[verifier::rlimit(60)]
fn try_muse(s: &str) -> (r: Option<FilenameInfoComponents>)
    ensures
        match r {
            Some(fic) => muse_parse(s@) matches Some(pr) && {
                &&& fic.track_type == TrackType::MuseScore
                &&& fic.index as int == index_of_digits(pr.0)
                &&& fic.name@ == pr.1
                &&& fic.extn == TrackExtension::Placeholder
            },
            None => muse_parse(s@) is None,
        },
{
    let n = s.unicode_len();
    if n >= 9 {
        let d8 = digit_run_len(s, 0);
        proof {
            assert(s@.skip(0) =~= s@);
            lemma_digit_prefix_len_props(s@);
            if d8 >= 8 {
                assert(forall|i: int| 0 <= i < 8 ==> is_digit_char(#[trigger] s@.take(8)[i]));
            } else {
                assert(!is_digit_char(s@.take(8)[d8 as int]));
            }
        }
        if d8 >= 8 {
            let p: usize = if letter_at(s, 8) {
                9
            } else {
                8
            };
            if p < n && char_at_is(s, p, '-') {
                let ghost t = s@.skip(p + 1);
                let d = digit_run_len(s, p + 1);
                if d >= 1 {
                    let q = p + 1 + d;
                    proof {
                        lemma_digit_prefix_len_props(t);
                        assert(s@.subrange((p + 1) as int, q as int) =~= t.take(d as int));
                        if q < n {
                            assert(t[d as int] == s@[q as int]);
                            if q + 1 < n {
                                assert(t.skip(d as int + 1) =~= s@.skip((q + 1) as int));
                            }
                        }
                    }
                    if q < n && char_at_is(s, q, '-') && q + 1 < n && !contains_char_from(
                        s,
                        q + 1,
                        '\n',
                    ) {
                        let idx_str = s.substring_char(p + 1, q);
                        let idx = parse_index_digits(idx_str);
                        let title = s.substring_char(q + 1, n);
                        let name = title.to_owned();
                        proof {
                            assert(title@ =~= s@.skip((q + 1) as int));
                            assert(muse_parse(s@) == Some(
                                (t.take(d as int), t.skip(d as int + 1)),
                            ));
                        }
                        return Some(
                            FilenameInfoComponents {
                                track_type: TrackType::MuseScore,
                                index: idx,
                                name,
                                extn: TrackExtension::Placeholder,
                            },
                        );
                    }
                }
            }
        }
    }
    proof {
        assert(muse_parse(s@) is None);
    }
    None
}

impl FilenameInfoComponents {
    /// Decomposes a filename stem (the extension already stripped) by trying
    /// the recognizers in order, first match wins; total, never fails. The
    /// extension field of the result is the construction placeholder.
    pub fn from_file_stem(stem: &str) -> (r: FilenameInfoComponents)
        ensures
            decomposition_of(r.track_type, r.index, r.name@, stem@),
            r.extn == TrackExtension::Placeholder,
    {
        if let Some(fic) = try_violin(stem) {
            return fic;
        }
        if let Some(fic) = try_muse(stem) {
            return fic;
        }
        FilenameInfoComponents {
            track_type: TrackType::UnknownType,
            index: 0,
            name: stem.to_owned(),
            extn: TrackExtension::Placeholder,
        }
    }

    /// Builds the full record from a filename: splits the stem from the
    /// extension at the final dot, decomposes the stem and classifies the
    /// extension.
    pub fn new(filename: &str) -> (r: FilenameInfoComponents)
        requires
            has_extension(filename@),
        ensures
            ({
                let dot = last_index_of(filename@, '.');
                &&& decomposition_of(r.track_type, r.index, r.name@, filename@.take(dot))
                &&& classification_of(filename@.skip(dot + 1), r.extn)
            }),
    {
        let n = filename.unicode_len();
        let dot_opt = rfind_char(filename, '.');
        proof {
            lemma_last_index_of_props(filename@, '.');
        }
        let dot = match dot_opt {
            Some(j) => j,
            None => {
                proof {
                    assert(false);
                }
                0
            },
        };
        let stem = filename.substring_char(0, dot);
        let ext = filename.substring_char(dot + 1, n);
        proof {
            assert(stem@ =~= filename@.take(dot as int));
            assert(ext@ =~= filename@.skip(dot as int + 1));
        }
        let mut fic = Self::from_file_stem(stem);
        match TrackExtension::classify(ext) {
            Ok(e) => {
                fic.extn = e;
            },
            Err(_) => {
                proof {
                    assert(ext@.len() > 0);
                    assert(false);
                }
            },
        }
        fic
    }
}

} // verus!
