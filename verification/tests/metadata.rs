use audio_metadata::metadata::{
    get_audio_metadata, title_for, AudioMetadata, UNKNOWN_ALBUM, UNKNOWN_ARTIST, UNKNOWN_TITLE,
};

fn record(title: &str, file_path: &str) -> AudioMetadata {
    AudioMetadata {
        title: title.to_string(),
        artist: "Unknown Artist".to_string(),
        album: "Unknown Album".to_string(),
        duration: 0,
        file_path: file_path.to_string(),
    }
}

fn paths() -> Vec<&'static str> {
    vec![
        "",
        "/",
        ".",
        "..",
        "track",
        "/music/song.mp3",
        "music/",
        "a/..",
        "not an audio file.txt",
        "/no/such/file",
        "C:\\music\\song.mp3",
        "/música/canción.mp3",
        "\0",
        "   ",
        "////",
        "a/b/c/d/e/f/g",
    ]
}

#[test]
fn placeholders_are_the_documented_text() {
    assert_eq!(UNKNOWN_TITLE, "Unknown");
    assert_eq!(UNKNOWN_ARTIST, "Unknown Artist");
    assert_eq!(UNKNOWN_ALBUM, "Unknown Album");
}

#[test]
fn metadata_of_a_file_in_a_directory() {
    let found = get_audio_metadata("/music/song.mp3".to_string());
    assert_eq!(found, Ok(record("song.mp3", "/music/song.mp3")));
    let found = found.unwrap();
    assert_eq!(found.title, "song.mp3");
    assert_eq!(found.artist, "Unknown Artist");
    assert_eq!(found.album, "Unknown Album");
    assert_eq!(found.duration, 0);
    assert_eq!(found.file_path, "/music/song.mp3");
}

#[test]
fn metadata_of_the_empty_path() {
    let found = get_audio_metadata(String::new());
    assert_eq!(found, Ok(record("Unknown", "")));
    let found = found.unwrap();
    assert_eq!(found.title, "Unknown");
    assert_eq!(found.artist, "Unknown Artist");
    assert_eq!(found.album, "Unknown Album");
    assert_eq!(found.duration, 0);
    assert_eq!(found.file_path, "");
}

#[test]
fn metadata_of_a_bare_name() {
    let found = get_audio_metadata("track".to_string());
    assert_eq!(found, Ok(record("track", "track")));
}

#[test]
fn file_path_comes_back_unchanged() {
    for path in paths() {
        let found = get_audio_metadata(path.to_string()).unwrap();
        assert_eq!(found.file_path, path);
    }
}

#[test]
fn artist_album_and_duration_are_fixed() {
    for path in paths() {
        let found = get_audio_metadata(path.to_string()).unwrap();
        assert_eq!(found.artist, "Unknown Artist");
        assert_eq!(found.album, "Unknown Album");
        assert_eq!(found.duration, 0);
    }
}

#[test]
fn no_path_gives_an_error() {
    for path in paths() {
        assert!(get_audio_metadata(path.to_string()).is_ok());
    }
    let long = "a/".repeat(10_000);
    assert!(get_audio_metadata(long).is_ok());
}

#[test]
fn title_is_the_final_component() {
    assert_eq!(title_for("/music/song.mp3"), "song.mp3");
    assert_eq!(title_for("track"), "track");
    assert_eq!(title_for("music/"), "music");
    assert_eq!(title_for("/music/album/."), "album");
    assert_eq!(title_for("a/../b"), "b");
    assert_eq!(title_for("/música/canción.mp3"), "canción.mp3");
    assert_eq!(title_for("C:\\music\\song.mp3"), "C:\\music\\song.mp3");
    assert_eq!(title_for("Unknown Artist"), "Unknown Artist");
}

#[test]
fn title_is_unknown_without_a_component() {
    assert_eq!(title_for(""), "Unknown");
    assert_eq!(title_for("/"), "Unknown");
    assert_eq!(title_for("////"), "Unknown");
    assert_eq!(title_for("."), "Unknown");
    assert_eq!(title_for("./."), "Unknown");
}

#[test]
fn title_is_unknown_after_a_parent_segment() {
    assert_eq!(title_for(".."), "Unknown");
    assert_eq!(title_for("a/.."), "Unknown");
    assert_eq!(title_for("/music/../"), "Unknown");
}

#[test]
fn a_file_named_unknown_keeps_its_name() {
    let found = get_audio_metadata("/music/Unknown".to_string()).unwrap();
    assert_eq!(found.title, "Unknown");
    assert_eq!(found.file_path, "/music/Unknown");
}

#[test]
fn the_handler_uses_the_title_of_the_path() {
    for path in paths() {
        let found = get_audio_metadata(path.to_string()).unwrap();
        assert_eq!(found.title, title_for(path));
    }
}

#[test]
fn the_same_path_gives_the_same_record() {
    for path in paths() {
        let first = get_audio_metadata(path.to_string());
        let second = get_audio_metadata(path.to_string());
        assert_eq!(first, second);
    }
}

#[test]
fn a_clone_is_equal_to_its_source() {
    let found = get_audio_metadata("/music/song.mp3".to_string()).unwrap();
    let copy = found.clone();
    assert_eq!(copy, found);
    assert_eq!(copy.title, "song.mp3");
    assert_eq!(copy.file_path, "/music/song.mp3");
}

#[test]
fn records_differ_where_a_field_differs() {
    let base = record("song.mp3", "/music/song.mp3");
    assert_eq!(base, record("song.mp3", "/music/song.mp3"));
    assert_ne!(base, record("song.mp4", "/music/song.mp3"));
    assert_ne!(base, record("song.mp3", "/Music/song.mp3"));
    let mut other = base.clone();
    other.artist = "Someone".to_string();
    assert_ne!(base, other);
    let mut other = base.clone();
    other.album = "Something".to_string();
    assert_ne!(base, other);
    let mut other = base.clone();
    other.duration = 1;
    assert_ne!(base, other);
}
