//! Track records: construction from file paths, playlist URIs, and the
//! plain location/duration data a playlist document supplies per track.

use vstd::prelude::*;

use crate::chars::{
    last_index_of, lemma_last_index_of_props, matches_at, parse_i64, parse_i64_spec, rfind_char,
};
use crate::decode::{decode_path, decode_seq};
use crate::duration::TrackDuration;
use crate::extension::classification_of;
use crate::name_info::{decomposition_of, has_extension, FilenameInfoComponents};

verus! {

/// A track listing in the playlist.
#[derive(Debug, Clone, PartialEq)]
pub struct Track {
    /// Full path, percent-decoded.
    pub path: String,
    /// Full name of the track file itself (the path's last segment).
    pub filename: String,
    /// Date label of the track: its parent-directory name.
    pub date: String,
    /// Duration in milliseconds, as stored in the playlist; unset when the
    /// playlist carries none or unparsable text.
    pub duration: Option<TrackDuration>,
    /// Metadata decomposed from the filename.
    pub info: FilenameInfoComponents,
}

/// The plain per-track data a playlist document exposes: the text of the
/// location child and of the duration child, where present.
#[derive(Debug, Clone, PartialEq)]
pub struct TrackSource {
    pub location: Option<String>,
    pub duration: Option<String>,
}

/// The only URI scheme supported for track locations.
pub open spec fn file_uri_prefix() -> Seq<char> {
    seq!['f', 'i', 'l', 'e', ':', '/', '/', '/']
}

/// The URI names a local file: it begins with `file:///`.
pub open spec fn uri_supported(u: Seq<char>) -> bool {
    u.len() >= 8 && u.take(8) == file_uri_prefix()
}

/// The decoded path's last `/`-separated segment: the filename.
pub open spec fn filename_of(p: Seq<char>) -> Seq<char> {
    p.skip(last_index_of(p, '/') + 1)
}

/// The decoded path's second-to-last segment: the date label.
pub open spec fn date_of(p: Seq<char>) -> Seq<char> {
    let j = last_index_of(p, '/');
    let q = p.take(j);
    q.skip(last_index_of(q, '/') + 1)
}

/// A decoded path yields a track: it has at least two `/`-separated
/// segments, and its filename carries an extension.
pub open spec fn path_ok(p: Seq<char>) -> bool {
    last_index_of(p, '/') >= 0 && has_extension(filename_of(p))
}

/// A raw (still percent-encoded) path yields a track.
pub open spec fn filepath_ok(raw: Seq<char>) -> bool {
    path_ok(decode_seq(raw))
}

/// The path-derived fields a track built from the raw path must carry.
pub open spec fn track_from_path(t: Track, raw: Seq<char>) -> bool {
    let p = decode_seq(raw);
    let fname = filename_of(p);
    let dot = last_index_of(fname, '.');
    &&& t.path@ == p
    &&& t.filename@ == fname
    &&& t.date@ == date_of(p)
    &&& decomposition_of(t.info.track_type, t.info.index, t.info.name@, fname.take(dot))
    &&& classification_of(fname.skip(dot + 1), t.info.extn)
}

/// The source element yields a track: it has a location whose URI is
/// supported and whose path decomposes.
pub open spec fn elem_ok(e: TrackSource) -> bool {
    &&& e.location is Some
    &&& uri_supported(e.location->0@)
    &&& filepath_ok(e.location->0@.skip(8))
}

/// All fields a track built from a source element must carry: the
/// path-derived fields, and a duration exactly when the element's duration
/// text parses as an integer.
pub open spec fn track_from_elem(t: Track, e: TrackSource) -> bool {
    &&& elem_ok(e)
    &&& track_from_path(t, e.location->0@.skip(8))
    &&& match e.duration {
        Some(ds) => match parse_i64_spec(ds@) {
            Some(v) => t.duration matches Some(d) && d.0 as int == v,
            None => t.duration is None,
        },
        None => t.duration is None,
    }
}

impl Track {
    /// Builds a track from a file path: percent-decodes it, takes the last
    /// `/`-separated segment as filename and the one before as date label,
    /// and decomposes the filename. A path without two segments or without
    /// a filename extension is a classified error, so that one malformed
    /// entry need not abort a whole playlist.
    pub fn from_filepath(path: &str) -> (r: Result<Track, &'static str>)
        ensures
            r is Ok <==> filepath_ok(path@),
            r matches Ok(t) ==> track_from_path(t, path@) && t.duration is None,
            ({
                let p = decode_seq(path@);
                last_index_of(p, '/') == -1
            }) ==> (r matches Err(m) && m@
                == "Track path needs at least two '/'-separated segments"@),
            ({
                let p = decode_seq(path@);
                last_index_of(p, '/') >= 0 && !has_extension(filename_of(p))
            }) ==> (r matches Err(m) && m@ == "Track filename has no extension"@),
    {
        let decoded = decode_path(path);
        let n = decoded.as_str().unicode_len();
        let slash_opt = rfind_char(decoded.as_str(), '/');
        proof {
            lemma_last_index_of_props(decoded@, '/');
        }
        let j = match slash_opt {
            Some(j) => j,
            None => {
                return Err("Track path needs at least two '/'-separated segments");
            },
        };
        let filename_part = decoded.as_str().substring_char(j + 1, n);
        let filename = filename_part.to_owned();
        proof {
            assert(filename@ =~= filename_of(decoded@));
        }
        let before = decoded.as_str().substring_char(0, j);
        proof {
            assert(before@ =~= decoded@.take(j as int));
            lemma_last_index_of_props(before@, '/');
        }
        let start = match rfind_char(before, '/') {
            Some(k) => k + 1,
            None => 0,
        };
        let date = before.substring_char(start, j).to_owned();
        proof {
            assert(date@ =~= date_of(decoded@));
        }
        let flen = filename.as_str().unicode_len();
        let dot_opt = rfind_char(filename.as_str(), '.');
        proof {
            lemma_last_index_of_props(filename@, '.');
        }
        let extension_ok = match dot_opt {
            Some(d) => 1 <= d && d + 1 < flen,
            None => false,
        };
        if !extension_ok {
            return Err("Track filename has no extension");
        }
        let info = FilenameInfoComponents::new(filename.as_str());
        Ok(
            Track {
                path: decoded,
                filename,
                date,
                duration: None,
                info,
            },
        )
    }

    /// Builds a track from a playlist URI, which must use the `file:///`
    /// scheme; anything else is a classified error.
    pub fn from_uri(uri: &str) -> (r: Result<Track, &'static str>)
        ensures
            uri_supported(uri@) ==> (r is Ok <==> filepath_ok(uri@.skip(8))),
            uri_supported(uri@) ==> (r matches Ok(t) ==> track_from_path(t, uri@.skip(8))
                && t.duration is None),
            !uri_supported(uri@) ==> (r matches Err(m) && m@
                == "Unsupported URI - Must start with 'file:///'"@),
    {
        let n = uri.unicode_len();
        proof {
            reveal_strlit("file:///");
            assert("file:///"@ =~= file_uri_prefix());
            if n >= 8 {
                assert(uri@.take(8) =~= uri@.subrange(0, 8));
            }
        }
        if matches_at(uri, 0, "file:///") {
            let rest = uri.substring_char(8, n);
            proof {
                assert(rest@ =~= uri@.skip(8));
            }
            Track::from_filepath(rest)
        } else {
            Err("Unsupported URI - Must start with 'file:///'")
        }
    }

    /// Builds a track from the plain data of a playlist track element: the
    /// location is required (a missing one is a classified error the caller
    /// may skip), the duration is best-effort and stays unset when its text
    /// does not parse as an integer.
    pub fn from_xml_elem(e: &TrackSource) -> (r: Result<Track, &'static str>)
        ensures
            r is Ok <==> elem_ok(*e),
            r matches Ok(t) ==> track_from_elem(t, *e),
            e.location is None ==> (r matches Err(m) && m@
                == "Element skipped as no location info found"@),
    {
        let loc = match &e.location {
            Some(loc) => loc,
            None => {
                return Err("Element skipped as no location info found");
            },
        };
        let track = Track::from_uri(loc.as_str());
        match track {
            Ok(mut t) => {
                if let Some(duration_str) = &e.duration {
                    if let Some(ms) = parse_i64(duration_str.as_str()) {
                        t.duration = Some(TrackDuration(ms));
                    }
                }
                Ok(t)
            },
            Err(m) => Err(m),
        }
    }
}

} // verus!
