use xspf_tools::duration::TrackDuration;
use xspf_tools::extension::TrackExtension;
use xspf_tools::name_info::FilenameInfoComponents;
use xspf_tools::track::{Track, TrackSource};
use xspf_tools::track_type::TrackType;

/* Stem-level decomposition scenarios ----------------------------------------------- */

#[test]
fn test_decompose_violin_stem() {
    let d = FilenameInfoComponents::from_file_stem("v01-tranquil");
    assert_eq!(TrackType::ViolinLayering, d.track_type);
    assert_eq!(1, d.index);
    assert_eq!("tranquil", d.name);
}

#[test]
fn test_decompose_violin_variant_letter_discarded() {
    let d = FilenameInfoComponents::from_file_stem("v05L-wild_west");
    assert_eq!(TrackType::ViolinLayering, d.track_type);
    assert_eq!(5, d.index);
    assert_eq!("wild_west", d.name);
}

#[test]
fn test_decompose_untitled() {
    let d = FilenameInfoComponents::from_file_stem("vln_improv_01");
    assert_eq!(TrackType::ViolinLayering, d.track_type);
    assert_eq!(1, d.index);
    assert_eq!("<Untitled>", d.name);
}

#[test]
fn test_decompose_musescore_stem() {
    let d = FilenameInfoComponents::from_file_stem("20170802-02-TouchedByAnAngel");
    assert_eq!(TrackType::MuseScore, d.track_type);
    assert_eq!(2, d.index);
    assert_eq!("TouchedByAnAngel", d.name);
}

#[test]
fn test_decompose_fallback() {
    let d = FilenameInfoComponents::from_file_stem("randomfile");
    assert_eq!(TrackType::UnknownType, d.track_type);
    assert_eq!(0, d.index);
    assert_eq!("randomfile", d.name);
}

#[test]
fn test_decompose_index_overflow_defaults_to_zero() {
    /* A digit run too large for the index field mirrors a failed parse */
    let d = FilenameInfoComponents::from_file_stem("v99999999999-big");
    assert_eq!(TrackType::ViolinLayering, d.track_type);
    assert_eq!(0, d.index);
    assert_eq!("big", d.name);
}

/* Extension classification --------------------------------------------------------- */

#[test]
fn test_classify_case_insensitive_pairs() {
    assert_eq!(
        TrackExtension::classify("MP3").unwrap(),
        TrackExtension::classify("mp3").unwrap()
    );
    assert_eq!(
        TrackExtension::classify("FlAc").unwrap(),
        TrackExtension::classify("flac").unwrap()
    );
}

#[test]
fn test_classify_unknown_keeps_casing() {
    assert_eq!(
        TrackExtension::Unknown("AIFF".to_string()),
        TrackExtension::classify("AIFF").unwrap()
    );
}

#[test]
fn test_unknown_round_trip() {
    let e = TrackExtension::classify("AIFF").unwrap();
    assert_eq!("AIFF", e.to_string());
}

#[test]
fn test_classification_idempotent() {
    let first = TrackExtension::classify("OGG").unwrap();
    let again = TrackExtension::classify(first.to_string().as_str()).unwrap();
    assert_eq!(first, again);

    let unk = TrackExtension::classify("webm").unwrap();
    let unk_again = TrackExtension::classify(unk.to_string().as_str()).unwrap();
    assert_eq!(unk, unk_again);
}

/* Track construction from paths and URIs ------------------------------------------- */

#[test]
fn test_from_filepath_splits_segments() {
    let t = Track::from_filepath("music/20170802/20170802-02-TouchedByAnAngel.flac").unwrap();
    assert_eq!("music/20170802/20170802-02-TouchedByAnAngel.flac", t.path);
    assert_eq!("20170802-02-TouchedByAnAngel.flac", t.filename);
    assert_eq!("20170802", t.date);
    assert!(t.duration.is_none());
    assert_eq!(TrackType::MuseScore, t.info.track_type);
    assert_eq!(2, t.info.index);
    assert_eq!("TouchedByAnAngel", t.info.name);
    assert_eq!(TrackExtension::flac, t.info.extn);
}

#[test]
fn test_from_filepath_percent_decoding() {
    let t = Track::from_filepath("My%20Music/2016%2107%2102/v01-tranquil.mp3").unwrap();
    assert_eq!("My Music/2016!07!02/v01-tranquil.mp3", t.path);
    assert_eq!("v01-tranquil.mp3", t.filename);
    assert_eq!("2016!07!02", t.date);

    let t2 = Track::from_filepath("d/caf%C3%A9/v01-night%20air%E2%80%9Cquoted%E2%80%9D.mp3")
        .unwrap();
    assert_eq!("caf\u{e9}", t2.date);
    assert_eq!("night air\u{201c}quoted\u{201d}", t2.info.name);

    /* An escape outside the fixed table stays encoded */
    let t3 = Track::from_filepath("d/20170802/v01-d%C3%A9j%C3%A0_vu.mp3").unwrap();
    assert_eq!("d\u{e9}j%C3%A0_vu", t3.info.name);
}

#[test]
fn test_from_filepath_needs_two_segments() {
    let r = Track::from_filepath("noslash.mp3");
    assert_eq!(
        Err("Track path needs at least two '/'-separated segments"),
        r
    );
}

#[test]
fn test_from_filepath_needs_extension() {
    let r = Track::from_filepath("dir/noextension");
    assert_eq!(Err("Track filename has no extension"), r);
}

#[test]
fn test_from_uri_supported_scheme() {
    let t = Track::from_uri("file:///music/20170815/v02-celestial.mp3").unwrap();
    assert_eq!("music/20170815/v02-celestial.mp3", t.path);
    assert_eq!("v02-celestial.mp3", t.filename);
    assert_eq!("20170815", t.date);
}

#[test]
fn test_from_uri_unsupported_scheme() {
    let r = Track::from_uri("http://example.com/track.mp3");
    assert_eq!(Err("Unsupported URI - Must start with 'file:///'"), r);
}

#[test]
fn test_from_xml_elem_requires_location() {
    let e = TrackSource {
        location: None,
        duration: Some("1000".to_string()),
    };
    assert_eq!(
        Err("Element skipped as no location info found"),
        Track::from_xml_elem(&e)
    );
}

#[test]
fn test_from_xml_elem_duration_is_best_effort() {
    let with_duration = TrackSource {
        location: Some("file:///d/20170802/v01-a.mp3".to_string()),
        duration: Some("2500".to_string()),
    };
    let t = Track::from_xml_elem(&with_duration).unwrap();
    assert_eq!(Some(TrackDuration(2500)), t.duration);

    let bad_duration = TrackSource {
        location: Some("file:///d/20170802/v01-a.mp3".to_string()),
        duration: Some("not_a_number".to_string()),
    };
    let t2 = Track::from_xml_elem(&bad_duration).unwrap();
    assert_eq!(None, t2.duration);

    let no_duration = TrackSource {
        location: Some("file:///d/20170802/v01-a.mp3".to_string()),
        duration: None,
    };
    let t3 = Track::from_xml_elem(&no_duration).unwrap();
    assert_eq!(None, t3.duration);

    let negative = TrackSource {
        location: Some("file:///d/20170802/v01-a.mp3".to_string()),
        duration: Some("-5".to_string()),
    };
    let t4 = Track::from_xml_elem(&negative).unwrap();
    assert_eq!(Some(TrackDuration(-5)), t4.duration);
}

/* Duration value -------------------------------------------------------------------- */

#[test]
fn test_timecode_rendering() {
    assert_eq!("00:00", TrackDuration(0).to_timecode());
    assert_eq!("00:01", TrackDuration(1500).to_timecode());
    assert_eq!("01:01", TrackDuration(61000).to_timecode());
    assert_eq!("59:59", TrackDuration(3599999).to_timecode());
    /* Minutes overflow past two digits rather than wrapping */
    assert_eq!("100:00", TrackDuration(6000000).to_timecode());
}

#[test]
fn test_duration_addition() {
    assert_eq!(TrackDuration(3000), TrackDuration(1000).plus(TrackDuration(2000)));
    assert_eq!(TrackDuration(1500), TrackDuration(1000).plus_ms(500));
}
