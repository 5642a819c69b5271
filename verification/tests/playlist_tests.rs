use xspf_tools::duration::TrackDuration;
use xspf_tools::extension::TrackExtension;
use xspf_tools::name_info::FilenameInfoComponents;
use xspf_tools::playlist::{PlaylistSource, XspfPlaylist};
use xspf_tools::track::{Track, TrackSource};
use xspf_tools::track_type::TrackType;

fn make_track(duration: Option<i64>) -> Track {
    Track {
        path: "music/20170802/v01-a.mp3".to_string(),
        filename: "v01-a.mp3".to_string(),
        date: "20170802".to_string(),
        duration: duration.map(TrackDuration),
        info: FilenameInfoComponents {
            track_type: TrackType::ViolinLayering,
            index: 1,
            name: "a".to_string(),
            extn: TrackExtension::mp3,
        },
    }
}

fn playlist_of(n: usize) -> XspfPlaylist {
    let mut tracks = Vec::new();
    for _ in 0..n {
        tracks.push(make_track(None));
    }
    XspfPlaylist {
        tracks,
        title: None,
    }
}

#[test]
fn test_track_index_width_policy() {
    assert_eq!(2, playlist_of(0).track_index_width());
    assert_eq!(2, playlist_of(99).track_index_width());
    assert_eq!(3, playlist_of(100).track_index_width());
    assert_eq!(3, playlist_of(999).track_index_width());
    assert_eq!(4, playlist_of(1000).track_index_width());
}

#[test]
fn test_total_duration_tally() {
    let playlist = XspfPlaylist {
        tracks: vec![
            make_track(Some(1000)),
            make_track(None),
            make_track(Some(2000)),
        ],
        title: None,
    };
    assert!(playlist.duration_sum_fits());
    let result = playlist.total_duration();
    assert_eq!(TrackDuration(3000), result.duration);
    assert_eq!(1, result.uncounted);
}

#[test]
fn test_total_duration_empty() {
    let playlist = playlist_of(0);
    assert!(playlist.duration_sum_fits());
    let result = playlist.total_duration();
    assert_eq!(TrackDuration(0), result.duration);
    assert_eq!(0, result.uncounted);
}

#[test]
fn test_duration_sum_fits_detects_overflow() {
    let playlist = XspfPlaylist {
        tracks: vec![make_track(Some(i64::MAX)), make_track(Some(1))],
        title: None,
    };
    assert!(!playlist.duration_sum_fits());
}

fn source_entry(location: Option<&str>, duration: Option<&str>) -> TrackSource {
    TrackSource {
        location: location.map(|s| s.to_string()),
        duration: duration.map(|s| s.to_string()),
    }
}

#[test]
fn test_from_xml_tree_builds_in_document_order() {
    let source = PlaylistSource {
        title: Some("Session Mix".to_string()),
        entries: vec![
            source_entry(Some("file:///m/20170802/v01-first.mp3"), Some("1000")),
            source_entry(None, Some("2000")),
            source_entry(Some("file:///m/20170802/v02-second.flac"), None),
            source_entry(Some("http://example.com/x.mp3"), None),
            source_entry(Some("file:///m/20170803/v03-third.ogg"), Some("oops")),
        ],
    };
    let playlist = XspfPlaylist::from_xml_tree(source);

    assert_eq!(Some("Session Mix".to_string()), playlist.title);
    /* Malformed entries are skipped; the rest keep document order */
    assert_eq!(3, playlist.len());
    assert_eq!("v01-first.mp3", playlist.tracks[0].filename);
    assert_eq!("v02-second.flac", playlist.tracks[1].filename);
    assert_eq!("v03-third.ogg", playlist.tracks[2].filename);
    assert_eq!(Some(TrackDuration(1000)), playlist.tracks[0].duration);
    assert_eq!(None, playlist.tracks[1].duration);
    assert_eq!(None, playlist.tracks[2].duration);
    assert_eq!("first", playlist.tracks[0].info.name);
    assert_eq!(TrackExtension::flac, playlist.tracks[1].info.extn);
}

#[test]
fn test_from_xml_tree_empty_document() {
    let source = PlaylistSource {
        title: None,
        entries: Vec::new(),
    };
    let playlist = XspfPlaylist::from_xml_tree(source);
    assert_eq!(0, playlist.len());
    assert_eq!(None, playlist.title);
    assert_eq!(2, playlist.track_index_width());
}
