use control_music::player::{
    get_all_data_json, get_artists_from_variant, get_length, get_metadata, json_object,
    InvalidPlaybackStatus, MediaMetadata, MetadataError, PlaybackStatus, PlayerCommand,
};
use control_music::value::{MetadataMap, PropValue};

fn s(x: &str) -> String {
    x.to_string()
}

fn strs(xs: &[&str]) -> PropValue {
    PropValue::Array(xs.iter().map(|x| PropValue::Str(s(x))).collect())
}

fn map_with(entries: Vec<(&str, PropValue)>) -> MetadataMap {
    let mut m = MetadataMap::new();
    for (k, v) in entries {
        m.insert(s(k), v);
    }
    m
}

#[test]
fn length_signed_and_unsigned_agree() {
    let signed = map_with(vec![("mpris:length", PropValue::Int64(120000000))]);
    let unsigned = map_with(vec![("mpris:length", PropValue::UInt64(120000000))]);
    assert_eq!(get_length(&signed), Ok(120000000));
    assert_eq!(get_length(&unsigned), Ok(120000000));
}

#[test]
fn length_through_variant() {
    let m = map_with(vec![(
        "mpris:length",
        PropValue::Variant(Box::new(PropValue::UInt64(5))),
    )]);
    assert_eq!(get_length(&m), Ok(5));
}

#[test]
fn length_missing_or_bad() {
    let empty = MetadataMap::new();
    assert_eq!(get_length(&empty), Err(MetadataError::MissingLength));
    let text = map_with(vec![("mpris:length", PropValue::Str(s("5")))]);
    assert_eq!(get_length(&text), Err(MetadataError::InvalidLength));
    let huge = map_with(vec![("mpris:length", PropValue::UInt64(u64::MAX))]);
    assert_eq!(get_length(&huge), Err(MetadataError::InvalidLength));
    let other = map_with(vec![("mpris:length", PropValue::Other)]);
    assert_eq!(get_length(&other), Err(MetadataError::InvalidLength));
}

#[test]
fn insert_replaces_value() {
    let mut m = MetadataMap::new();
    m.insert(s("mpris:length"), PropValue::Int64(1));
    m.insert(s("mpris:length"), PropValue::Int64(2));
    assert_eq!(get_length(&m), Ok(2));
    assert!(m.get("xesam:title").is_none());
}

#[test]
fn artists_nested_sequence_is_flattened() {
    let v = PropValue::Array(vec![strs(&["A", "B"])]);
    assert_eq!(get_artists_from_variant(&v), Some(vec![s("A"), s("B")]));
    let two = PropValue::Array(vec![strs(&["A"]), strs(&["B", "C"])]);
    assert_eq!(get_artists_from_variant(&two), Some(vec![s("A"), s("B"), s("C")]));
    let wrapped = PropValue::Variant(Box::new(strs(&["A", "B"])));
    assert_eq!(get_artists_from_variant(&wrapped), Some(vec![s("A"), s("B")]));
}

#[test]
fn artists_bad_shape_is_none() {
    assert_eq!(get_artists_from_variant(&strs(&["A"])), None);
    assert_eq!(get_artists_from_variant(&PropValue::Str(s("A"))), None);
    let mixed = PropValue::Array(vec![PropValue::Array(vec![
        PropValue::Str(s("A")),
        PropValue::Int64(1),
    ])]);
    assert_eq!(get_artists_from_variant(&mixed), None);
}

#[test]
fn metadata_without_artist_key() {
    let m = map_with(vec![
        ("xesam:title", PropValue::Str(s("Song"))),
        ("mpris:length", PropValue::Int64(7)),
    ]);
    let md = get_metadata(&m).unwrap();
    assert_eq!(md.title, Some(s("Song")));
    assert_eq!(md.artists, None);
    assert_eq!(md.length, 7);
}

#[test]
fn metadata_with_nested_artists() {
    let m = map_with(vec![
        ("xesam:artist", PropValue::Array(vec![strs(&["A", "B"])])),
        ("mpris:length", PropValue::UInt64(9)),
    ]);
    let md = get_metadata(&m).unwrap();
    assert_eq!(md.title, None);
    assert_eq!(md.artists, Some(vec![s("A"), s("B")]));
    assert_eq!(md.length, 9);
}

#[test]
fn metadata_fails_without_length() {
    let m = map_with(vec![("xesam:title", PropValue::Str(s("Song")))]);
    assert!(matches!(get_metadata(&m), Err(MetadataError::MissingLength)));
}

#[test]
fn json_round_trip_example() {
    let md = MediaMetadata { title: Some(s("X")), artists: Some(vec![s("Y")]), length: 5 };
    assert_eq!(
        get_all_data_json(&md),
        s("{\"title\":\"X\",\"artists\":[\"Y\"],\"length\":5}")
    );
}

#[test]
fn json_nulls_and_escapes() {
    let md = MediaMetadata { title: None, artists: None, length: -3 };
    assert_eq!(
        get_all_data_json(&md),
        s("{\"title\":null,\"artists\":null,\"length\":-3}")
    );
    let quoted = MediaMetadata {
        title: Some(s("a\"b")),
        artists: Some(vec![s("c\\d"), s("e")]),
        length: 0,
    };
    assert_eq!(
        get_all_data_json(&quoted),
        s("{\"title\":\"a\\\"b\",\"artists\":[\"c\\\\d\",\"e\"],\"length\":0}")
    );
    let empty = MediaMetadata { title: None, artists: Some(vec![]), length: 1 };
    assert_eq!(
        get_all_data_json(&empty),
        s("{\"title\":null,\"artists\":[],\"length\":1}")
    );
}

#[test]
fn json_object_frames_encoded_parts() {
    let r = json_object(Some(s("T")), Some(vec![s("1"), s("2")]), i64::MIN);
    assert_eq!(r, s("{\"title\":T,\"artists\":[1,2],\"length\":-9223372036854775808}"));
}

#[test]
fn metadata_text_lines() {
    let md = MediaMetadata {
        title: Some(s("Song")),
        artists: Some(vec![s("A"), s("B")]),
        length: 120000000,
    };
    assert_eq!(md.to_string(), s("Title: Song\nArtists: A, B\nLength: 120000000\n"));
    let bare = MediaMetadata { title: None, artists: None, length: 0 };
    assert_eq!(bare.to_string(), s("Title: -\nArtists: -\nLength: 0\n"));
}

#[test]
fn status_parsing() {
    assert_eq!(PlaybackStatus::try_from(s("Paused")).unwrap(), PlaybackStatus::Paused);
    assert_eq!(PlaybackStatus::try_from(s("Playing")).unwrap(), PlaybackStatus::Playing);
    match PlaybackStatus::try_from(s("Stopped")) {
        Err(InvalidPlaybackStatus(raw)) => assert_eq!(raw, s("Stopped")),
        Ok(_) => panic!("Stopped parsed as a status"),
    }
    assert!(PlaybackStatus::try_from(s("playing")).is_err());
}

#[test]
fn status_text() {
    assert_eq!(PlaybackStatus::Playing.to_string(), s("Playing"));
    assert_eq!(PlaybackStatus::Paused.to_string(), s("Paused"));
    let e = InvalidPlaybackStatus(s("Stopped"));
    assert_eq!(e.to_string(), s("Invalid playback status: Stopped"));
}

#[test]
fn command_method_names() {
    assert_eq!(PlayerCommand::Play.method_name(), "Play");
    assert_eq!(PlayerCommand::Pause.method_name(), "Pause");
    assert_eq!(PlayerCommand::PlayPause.method_name(), "PlayPause");
    assert_eq!(PlayerCommand::Next.method_name(), "Next");
    assert_eq!(PlayerCommand::Previous.method_name(), "Previous");
}

#[test]
fn json_absent_fields_are_null() {
    let md = MediaMetadata { title: None, artists: None, length: 5 };
    assert_eq!(get_all_data_json(&md), s("{\"title\":null,\"artists\":null,\"length\":5}"));
}

#[test]
fn json_escapes_control_characters() {
    let md = MediaMetadata {
        title: Some(s("a\u{1}\n\t/\u{7f}")),
        artists: Some(vec![s("\u{8}\u{c}\r\u{1f}")]),
        length: 2,
    };
    assert_eq!(
        get_all_data_json(&md),
        s("{\"title\":\"a\\u0001\\n\\t/\u{7f}\",\"artists\":[\"\\b\\f\\r\\u001f\"],\"length\":2}")
    );
}
