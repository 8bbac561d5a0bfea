use pinetree::metadata::{song_info_from_line, DataSaveError, MetadataStore, SongInfo};
use pinetree::numtext::parse_u128_or_zero;

fn info(name: &str, artist: &str, genre: &str, time: u128) -> SongInfo {
    SongInfo {
        name: name.to_string(),
        artist: artist.to_string(),
        genre: genre.to_string(),
        nodisplay_time_listened: time,
    }
}

#[test]
fn load_keys_lines_by_first_field() {
    let lines = vec![
        "k1,n1,ar1,g1,5".to_string(),
        "just a note without any delimiter".to_string(),
        "k2,n2".to_string(),
    ];
    let store = MetadataStore::load_lines(&lines);
    assert_eq!(store.get("k1"), Some(&"k1,n1,ar1,g1,5".to_string()));
    assert_eq!(store.get("k2"), Some(&"k2,n2".to_string()));
    // The line without a delimiter was skipped, not keyed by itself.
    assert_eq!(store.get("just a note without any delimiter"), None);
    assert_eq!(store.len(), 2);
}

#[test]
fn load_keeps_the_last_line_per_key() {
    let lines = vec!["k,old,a,g,1".to_string(), "k,new,a,g,2".to_string()];
    let store = MetadataStore::load_lines(&lines);
    assert_eq!(store.get("k"), Some(&"k,new,a,g,2".to_string()));
    assert_eq!(store.len(), 1);
}

#[test]
fn metadata_round_trip() {
    // Writing a record and reloading the store returns the same fields.
    let mut store = MetadataStore::new();
    let current = "dir/track.mp3".to_string();
    let written = info("Song", "Art", "G", 1234);
    let lines = match store.save_data(Some(&current), &written, true) {
        Ok(lines) => lines,
        Err(_) => panic!("the save was expected to succeed"),
    };
    let reloaded = MetadataStore::load_lines(&lines);
    let line = reloaded.get("track.mp3").expect("the saved key must be present after a reload");
    assert_eq!(line, "track.mp3,Song,Art,G,1234");
    let back = song_info_from_line(line.as_str());
    assert_eq!(back.name, "Song");
    assert_eq!(back.artist, "Art");
    assert_eq!(back.genre, "G");
    assert_eq!(back.nodisplay_time_listened, 1234);
}

#[test]
fn delimiter_in_a_field_is_rejected() {
    let mut store = MetadataStore::new();
    let current = "track.mp3".to_string();
    let bad = info("So,ng", "Art", "G", 0);
    let r = store.save_data(Some(&current), &bad, true);
    assert!(matches!(r, Err(DataSaveError::IllegalChar)));
    // Nothing was stored and nothing is to be written.
    assert_eq!(store.len(), 0);
    assert_eq!(store.get("track.mp3"), None);
}

#[test]
fn delimiter_in_the_key_is_rejected() {
    let mut store = MetadataStore::new();
    let current = "songs/a,b.mp3".to_string();
    let r = store.save_data(Some(&current), &info("Name", "Art", "G", 0), true);
    assert!(matches!(r, Err(DataSaveError::IllegalChar)));
    assert_eq!(store.len(), 0);
}

#[test]
fn passive_save_gives_up_on_a_delimiter() {
    let mut store = MetadataStore::load_lines(&vec!["t.mp3,n,a,g,7".to_string()]);
    let current = "t.mp3".to_string();
    let w = store.save_data_noinsert(Some(&current), &info("n", "A,2", "g", 8));
    assert!(w.is_none());
    assert_eq!(store.get("t.mp3"), Some(&"t.mp3,n,a,g,7".to_string()));
}

#[test]
fn save_without_songs_is_refused() {
    let mut store = MetadataStore::new();
    let current = "track.mp3".to_string();
    let r = store.save_data(Some(&current), &info("a", "b", "c", 0), false);
    assert!(matches!(r, Err(DataSaveError::NoSongToSave)));
    assert_eq!(store.len(), 0);
}

#[test]
fn save_without_current_track_is_refused() {
    let mut store = MetadataStore::new();
    let r = store.save_data(None, &info("a", "b", "c", 0), true);
    assert!(matches!(r, Err(DataSaveError::NonexistentSong)));
    assert_eq!(store.len(), 0);
}

#[test]
fn passive_save_never_inserts() {
    let mut store = MetadataStore::load_lines(&vec!["other.mp3,n,a,g,7".to_string()]);
    let current = "absent.mp3".to_string();
    let w = store.save_data_noinsert(Some(&current), &info("x", "y", "z", 9));
    assert!(w.is_none());
    assert_eq!(store.len(), 1);
    assert_eq!(store.get("absent.mp3"), None);
    assert_eq!(store.get("other.mp3"), Some(&"other.mp3,n,a,g,7".to_string()));
}

#[test]
fn passive_save_updates_an_existing_record() {
    let mut store = MetadataStore::load_lines(&vec!["t.mp3,n,a,g,7".to_string()]);
    let current = "dir/t.mp3".to_string();
    let w = store.save_data_noinsert(Some(&current), &info("N2", "A2", "G2", 8));
    let lines = w.expect("an existing key is rewritten");
    assert_eq!(lines, vec!["t.mp3,N2,A2,G2,8".to_string()]);
    assert_eq!(store.get("t.mp3"), Some(&"t.mp3,N2,A2,G2,8".to_string()));
}

#[test]
fn parse_tolerates_missing_and_bad_fields() {
    let full = song_info_from_line("k,name,artist,genre,42");
    assert_eq!(full.name, "name");
    assert_eq!(full.artist, "artist");
    assert_eq!(full.genre, "genre");
    assert_eq!(full.nodisplay_time_listened, 42);

    let short = song_info_from_line("k,name");
    assert_eq!(short.name, "name");
    assert_eq!(short.artist, "");
    assert_eq!(short.genre, "");
    assert_eq!(short.nodisplay_time_listened, 0);

    let bad_time = song_info_from_line("k,n,a,g,notanumber");
    assert_eq!(bad_time.nodisplay_time_listened, 0);
}

#[test]
fn time_field_parses_to_the_edge_of_the_range() {
    assert_eq!(
        parse_u128_or_zero("340282366920938463463374607431768211455"),
        u128::MAX
    );
    assert_eq!(parse_u128_or_zero("340282366920938463463374607431768211456"), 0);
    assert_eq!(parse_u128_or_zero(""), 0);
    assert_eq!(parse_u128_or_zero("12x"), 0);
    assert_eq!(parse_u128_or_zero("00042"), 42);
}
