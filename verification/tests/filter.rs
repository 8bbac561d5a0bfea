use pinetree::filetree::{FileElement, FileType};
use pinetree::metadata::MetadataStore;
use pinetree::search::{compute_search_results, refresh_search};
use pinetree::session::PlaybackSession;

fn elem(kind: FileType, name: &str) -> FileElement {
    FileElement::new(kind, name.to_string())
}

fn browse_list() -> Vec<FileElement> {
    vec![
        elem(FileType::Directory, "songs/"),
        elem(FileType::AudioFile, "songs/Rock Anthem.mp3"),
        elem(FileType::AudioFile, "songs/quiet piece.mp3"),
    ]
}

fn store_with_records() -> MetadataStore {
    MetadataStore::load_lines(&vec![
        "Rock Anthem.mp3,Anthem,The Band,METAL,10".to_string(),
        "quiet piece.mp3,Quiet,Someone Else,Ambient,20".to_string(),
    ])
}

#[test]
fn empty_search_keeps_every_row() {
    let store = MetadataStore::new();
    let r = compute_search_results(&browse_list(), &store, "", "", "");
    assert_eq!(r, vec![0, 1, 2]);
}

#[test]
fn search_is_case_insensitive() {
    // A lowercased search must match a differently-cased file name.
    let store = MetadataStore::new();
    let r = compute_search_results(&browse_list(), &store, "rock anthem", "", "");
    assert_eq!(r, vec![1]);
    let r2 = compute_search_results(&browse_list(), &store, "QUIET", "", "");
    assert_eq!(r2, vec![2]);
}

#[test]
fn genre_filter_reads_the_stored_record() {
    let store = store_with_records();
    // Case-insensitive match against the record's genre column.
    let r = compute_search_results(&browse_list(), &store, "", "metal", "");
    assert_eq!(r, vec![1]);
    // No row has this genre; the directory has no record at all.
    let r2 = compute_search_results(&browse_list(), &store, "", "jazz", "");
    assert_eq!(r2, Vec::<usize>::new());
}

#[test]
fn artist_filter_reads_the_stored_record() {
    let store = store_with_records();
    let r = compute_search_results(&browse_list(), &store, "", "", "band");
    assert_eq!(r, vec![1]);
    let r2 = compute_search_results(&browse_list(), &store, "", "", "someone");
    assert_eq!(r2, vec![2]);
}

#[test]
fn rows_without_a_record_fail_an_active_filter() {
    let store = MetadataStore::new();
    let r = compute_search_results(&browse_list(), &store, "", "metal", "");
    assert_eq!(r, Vec::<usize>::new());
}

#[test]
fn filters_and_search_combine() {
    let store = store_with_records();
    let r = compute_search_results(&browse_list(), &store, "anthem", "metal", "the band");
    assert_eq!(r, vec![1]);
    let r2 = compute_search_results(&browse_list(), &store, "quiet", "metal", "");
    assert_eq!(r2, Vec::<usize>::new());
}

#[test]
fn refresh_search_stores_results_and_text() {
    let mut s = PlaybackSession::new(store_with_records(), None, 0);
    s.prewalked = browse_list();
    refresh_search(&mut s, "Rock", "", "");
    assert_eq!(s.search_results, vec![1]);
    assert_eq!(s.search_text_results, "Rock");
}
