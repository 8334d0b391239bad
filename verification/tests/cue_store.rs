use open_lights_core::cue::CueParseError;
use open_lights_core::cue::LightType;
use open_lights_core::cue::cue_path_for;
use open_lights_core::cue::gather_light_data;
use open_lights_core::cue::load_cue;
use open_lights_core::cue::parse_channels;
use open_lights_core::song::Song;
use open_lights_core::song::frames_to_centis;
use open_lights_core::song::song_name_from_path;

#[test]
fn parse_channels_plain_list() {
    assert_eq!(parse_channels(String::from("1,2,3")), vec![1i8, 2, 3]);
}

#[test]
fn parse_channels_trims_whitespace() {
    assert_eq!(parse_channels(String::from(" 1 , 2\t,\n3 ")), vec![1i8, 2, 3]);
}

#[test]
fn parse_channels_drops_invalid_tokens() {
    assert_eq!(parse_channels(String::from("1,x,3")), vec![1i8, 3]);
    assert_eq!(parse_channels(String::from("1,,3")), vec![1i8, 3]);
    assert_eq!(parse_channels(String::from("")), Vec::<i8>::new());
    assert_eq!(parse_channels(String::from("12a")), Vec::<i8>::new());
}

#[test]
fn parse_channels_range_and_signs() {
    assert_eq!(parse_channels(String::from("127,-128,+5")), vec![127i8, -128, 5]);
    // 128 does not fit a channel id; 00127 does.
    assert_eq!(parse_channels(String::from("128,00127")), vec![127i8]);
    // A huge token is dropped, not mangled.
    assert_eq!(parse_channels(String::from("99999999999999999999,3")), vec![3i8]);
}

#[test]
fn gather_parses_the_reference_cue() {
    let groups = gather_light_data("{\"1,2\": {\"0\": 1, \"5000\": 0}}").unwrap();
    assert_eq!(groups.len(), 1);
    assert_eq!(groups[0].channels, vec![1i8, 2]);
    assert_eq!(groups[0].index, 0);
    assert_eq!(groups[0].data.len(), 2);
    assert_eq!(groups[0].data[0].timestamp, 0);
    assert_eq!(groups[0].data[0].light_type, LightType::On);
    assert_eq!(groups[0].data[1].timestamp, 5000);
    assert_eq!(groups[0].data[1].light_type, LightType::Off);
}

#[test]
fn gather_sorts_events_regardless_of_input_order() {
    let groups = gather_light_data("{\"1\": {\"5000\": 1, \"0\": 0, \"300\": 2}}").unwrap();
    assert_eq!(groups.len(), 1);
    let ts: Vec<i32> = groups[0].data.iter().map(|e| e.timestamp).collect();
    assert_eq!(ts, vec![0, 300, 5000]);
    // Any unrecognized code means off.
    assert_eq!(groups[0].data[1].light_type, LightType::Off);
}

#[test]
fn gather_keeps_document_order_for_equal_timestamps() {
    let groups = gather_light_data("{\"1\": {\"100\": 0, \"0100\": 1}}").unwrap();
    assert_eq!(groups[0].data.len(), 2);
    assert_eq!(groups[0].data[0].timestamp, 100);
    assert_eq!(groups[0].data[0].light_type, LightType::Off);
    assert_eq!(groups[0].data[1].timestamp, 100);
    assert_eq!(groups[0].data[1].light_type, LightType::On);
}

#[test]
fn gather_accepts_empty_document() {
    assert_eq!(gather_light_data("{}").unwrap().len(), 0);
    assert_eq!(gather_light_data("  { }  ").unwrap().len(), 0);
    assert_eq!(gather_light_data("{\"3\": {}}").unwrap().len(), 1);
}

#[test]
fn gather_accepts_negative_timestamps_and_multiple_groups() {
    let groups = gather_light_data("{\"1\": {\"-5\": 1}, \"2,4\": {\"10\": 0}}").unwrap();
    assert_eq!(groups.len(), 2);
    assert_eq!(groups[0].data[0].timestamp, -5);
    assert_eq!(groups[1].channels, vec![2i8, 4]);
}

#[test]
fn gather_rejects_malformed_text() {
    assert_eq!(gather_light_data("").unwrap_err(), CueParseError::Syntax);
    assert_eq!(gather_light_data("{\"1\": {\"abc\": 1}}").unwrap_err(), CueParseError::Syntax);
    assert_eq!(gather_light_data("{\"1\": {\"0\": 1}").unwrap_err(), CueParseError::Syntax);
    assert_eq!(gather_light_data("[1, 2]").unwrap_err(), CueParseError::Syntax);
    assert_eq!(gather_light_data("{\"1\": {\"0\": 1}} trailing").unwrap_err(), CueParseError::Syntax);
}

#[test]
fn gather_rejects_out_of_range_values() {
    // A timestamp past the clock's type is a value error, not a syntax error.
    assert_eq!(gather_light_data("{\"1\": {\"3000000000\": 1}}").unwrap_err(), CueParseError::Value);
    // So is a type code that does not fit a byte.
    assert_eq!(gather_light_data("{\"1\": {\"0\": 200}}").unwrap_err(), CueParseError::Value);
    // The edge values themselves are fine.
    let groups = gather_light_data("{\"1\": {\"2147483647\": 1, \"-2147483648\": 0}}").unwrap();
    assert_eq!(groups[0].data[0].timestamp, i32::MIN);
    assert_eq!(groups[0].data[1].timestamp, i32::MAX);
}

#[test]
fn missing_cue_file_is_the_empty_cue_set() {
    let groups = load_cue(None).unwrap();
    assert_eq!(groups.len(), 0);
}

#[test]
fn cue_path_replaces_the_media_extension() {
    assert_eq!(cue_path_for("music/track.wav"), "music/track.json");
    assert_eq!(cue_path_for("a/b.tar.gz"), "a/b.tar.json");
    assert_eq!(cue_path_for("noext"), "noext.json");
    assert_eq!(cue_path_for(".hidden"), ".hidden.json");
    assert_eq!(cue_path_for("dir.with.dots/plain"), "dir.with.dots/plain.json");
}

#[test]
fn song_name_comes_from_the_file_stem() {
    assert_eq!(song_name_from_path("playlists/rock/my_song.wav"), "my song");
    assert_eq!(song_name_from_path("one_two_three.wav"), "one two three");
    assert_eq!(song_name_from_path("plain"), "plain");
}

#[test]
fn song_identity_is_the_path() {
    let a = Song::new(String::from("p/x.wav"), String::from("A"), 1000);
    let b = Song::new(String::from("p/x.wav"), String::from("B"), 2000);
    let c = Song::new(String::from("p/y.wav"), String::from("A"), 1000);
    assert!(a == b);
    assert!(a != c);
    assert_eq!(a.name, "x");
}

#[test]
fn duration_from_frames_is_exact() {
    assert_eq!(frames_to_centis(441000, 44100), 1000);
    assert_eq!(frames_to_centis(22050, 44100), 50);
    assert_eq!(frames_to_centis(0, 44100), 0);
}
