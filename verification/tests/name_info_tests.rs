use xspf_tools::extension::TrackExtension;
use xspf_tools::name_info::FilenameInfoComponents;
use xspf_tools::track_type::TrackType;

/* Support Type Tests --------------------------------------------------------------- */

/* Check that the TrackExtension string->enum parsing works correctly */
#[test]
fn test_filename_extensions() {
    assert_eq!(TrackExtension::mp3, "mp3".parse::<TrackExtension>().unwrap());
    assert_eq!(TrackExtension::flac, "flac".parse::<TrackExtension>().unwrap());
    assert_eq!(TrackExtension::ogg, "ogg".parse::<TrackExtension>().unwrap());
    assert_eq!(TrackExtension::m4a, "m4a".parse::<TrackExtension>().unwrap());
    assert_eq!(TrackExtension::mkv, "mkv".parse::<TrackExtension>().unwrap());
    assert_eq!(TrackExtension::mp4, "mp4".parse::<TrackExtension>().unwrap());
}

/* Check that the TrackExtension string->enum parsing is case insensitive */
#[test]
fn test_case_insensitive_filename_extension_parsing() {
    assert_eq!(TrackExtension::mp3, "MP3".parse::<TrackExtension>().unwrap());
    assert_eq!(TrackExtension::m4a, "M4A".parse::<TrackExtension>().unwrap());
}

/* Check that the TrackExtension string->enum parsing works correctly for "uknown" or irregular types */
#[test]
fn test_unknown_filename_extensions() {
    /* Unknown Extensions */
    assert_eq!(
        TrackExtension::Unknown("aac".to_string()),
        "aac".parse::<TrackExtension>().unwrap()
    );
    assert_eq!(
        TrackExtension::Unknown("apple_pie".to_string()),
        "apple_pie".parse::<TrackExtension>().unwrap()
    );

    /* For the dummy "Err" case that Result<T, E> must have for the FromStr trait */
    assert_eq!(Err("No Extension?"), "".parse::<TrackExtension>());
}

/* Check TrackExtension enum->string conversion works as intended */
#[test]
fn test_track_extension_enum_to_string() {
    assert_eq!("mp3", TrackExtension::mp3.to_string());
    assert_eq!("flac", TrackExtension::flac.to_string());
    assert_eq!("ogg", TrackExtension::ogg.to_string());
    assert_eq!("m4a", TrackExtension::m4a.to_string());
    assert_eq!("mkv", TrackExtension::mkv.to_string());
    assert_eq!("mp4", TrackExtension::mp4.to_string());
}

/* Check that the TrackType shortname stuff works as expected */
#[test]
fn test_tracktype_shortname() {
    assert_eq!("?", TrackType::UnknownType.shortname());
    assert_eq!("t", TrackType::UnknownType.shortname_safe());

    assert_eq!("VL", TrackType::ViolinLayering.shortname());
    assert_eq!("VL", TrackType::ViolinLayering.shortname_safe());

    assert_eq!("MS", TrackType::MuseScore.shortname());
    assert_eq!("MS", TrackType::MuseScore.shortname_safe());

    assert_eq!("P", TrackType::Piano.shortname());
    assert_eq!("P", TrackType::Piano.shortname_safe());

    assert_eq!("V", TrackType::Voice.shortname());
    assert_eq!("V", TrackType::Voice.shortname_safe());
}

/* Check that violin-layering filenames parse correctly ----------------------------- */

/* Check that simple violin-layering filenames parse correctly */
#[test]
fn test_violin_basic() {
    let v1 = FilenameInfoComponents::new("v01-tranquil.mp3");
    assert_eq!(TrackType::ViolinLayering, v1.track_type);
    assert_eq!(1, v1.index);
    assert_eq!("tranquil", v1.name);
    assert_eq!(TrackExtension::mp3, v1.extn);

    let v2 = FilenameInfoComponents::new("v02-celestial.mp3");
    assert_eq!(TrackType::ViolinLayering, v2.track_type);
    assert_eq!(2, v2.index);
    assert_eq!("celestial", v2.name);
    assert_eq!(TrackExtension::mp3, v2.extn);

    let v3 = FilenameInfoComponents::new("v03-spectral.mp3");
    assert_eq!(TrackType::ViolinLayering, v3.track_type);
    assert_eq!(3, v3.index);
    assert_eq!("spectral", v3.name);
    assert_eq!(TrackExtension::mp3, v3.extn);
}

/* Check that multiword violin layering filenames parse correctly */
#[test]
fn test_violin_multiword() {
    let v1 = FilenameInfoComponents::new("v02-winds_of_flutter.mp3");
    assert_eq!(TrackType::ViolinLayering, v1.track_type);
    assert_eq!(2, v1.index);
    assert_eq!("winds_of_flutter", v1.name);
    assert_eq!(TrackExtension::mp3, v1.extn);
}

/* Check that multiversion violin layering filenames parse correctly */
#[test]
fn test_violin_multiversion() {
    let v1 = FilenameInfoComponents::new("v01a-outcrop.mp3");
    assert_eq!(TrackType::ViolinLayering, v1.track_type);
    assert_eq!(1, v1.index);
    // Variant letters are not currently extracted and stored
    assert_eq!("outcrop", v1.name);
    assert_eq!(TrackExtension::mp3, v1.extn);

    let v2 = FilenameInfoComponents::new("v05L-wild_west.mp3");
    assert_eq!(TrackType::ViolinLayering, v2.track_type);
    assert_eq!(5, v2.index);
    // Variant letters are not currently extracted and stored
    assert_eq!("wild_west", v2.name);
    assert_eq!(TrackExtension::mp3, v2.extn);
}

/* Older-Style Violin-Layering names (circa 2016) */
#[test]
fn test_vln_improv() {
    let v1 = FilenameInfoComponents::new("vln_improv_04-mystique.mp3");
    assert_eq!(TrackType::ViolinLayering, v1.track_type);
    assert_eq!(4, v1.index);
    assert_eq!("mystique", v1.name);
    assert_eq!(TrackExtension::mp3, v1.extn);
}

#[test]
fn test_vln_improv_no_name() {
    let v1 = FilenameInfoComponents::new("vln_improv_01.mp3");
    assert_eq!(TrackType::ViolinLayering, v1.track_type);
    assert_eq!(1, v1.index);
    assert_eq!("<Untitled>", v1.name);
    assert_eq!(TrackExtension::mp3, v1.extn);
}

#[test]
fn test_vln_layering() {
    let v1 = FilenameInfoComponents::new("vln_layering-05-the_last_moose.mp3");
    assert_eq!(TrackType::ViolinLayering, v1.track_type);
    assert_eq!(5, v1.index);
    assert_eq!("the_last_moose", v1.name);
    assert_eq!(TrackExtension::mp3, v1.extn);

    let v2 = FilenameInfoComponents::new("vln_layering-03-delicate.mp3");
    assert_eq!(TrackType::ViolinLayering, v2.track_type);
    assert_eq!(3, v2.index);
    assert_eq!("delicate", v2.name);
    assert_eq!(TrackExtension::mp3, v2.extn);
}

/* Check that musescore filenames parse correctly ----------------------------------- */

#[test]
fn test_ms_basic() {}

#[test]
fn test_ms_multiword() {
    let m1 = FilenameInfoComponents::new("20170802-02-TouchedByAnAngel.flac");
    assert_eq!(TrackType::MuseScore, m1.track_type);
    assert_eq!(2, m1.index);
    assert_eq!("TouchedByAnAngel", m1.name);
    assert_eq!(TrackExtension::flac, m1.extn);

    let m2 = FilenameInfoComponents::new("20170815-05-CanadianBeauty.flac");
    assert_eq!(TrackType::MuseScore, m2.track_type);
    assert_eq!(5, m2.index);
    assert_eq!("CanadianBeauty", m2.name);
    assert_eq!(TrackExtension::flac, m2.extn);
}

#[test]
fn test_ms_multiversion_postfix() {
    /* Names where the version is included in a postfix after the name */
    //"20170821-03-MajesticSerenade-v2.flac"
    //"20170801-01-Patterns-WIP"
}
