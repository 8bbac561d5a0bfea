use pinetree::filetree::{FileElement, FileType};
use pinetree::metadata::MetadataStore;
use pinetree::session::{
    compute_position, get_next_song_bounded, get_random_song_bounded, handle_song_end,
    PlaybackSession, SelectionType,
};

fn elem(kind: FileType, name: &str) -> FileElement {
    FileElement::new(kind, name.to_string())
}

fn playing_session() -> PlaybackSession {
    let store = MetadataStore::load_lines(&vec!["b.mp3,BeeSong,Artist,Genre,100".to_string()]);
    let mut s = PlaybackSession::new(store, None, 1000);
    s.prewalked = vec![
        elem(FileType::Directory, "songs/"),
        elem(FileType::AudioFile, "songs/a.mp3"),
        elem(FileType::AudioFile, "songs/b.mp3"),
    ];
    s.current_playing_song = Some("songs/a.mp3".to_string());
    s.cur_song_index = 1;
    s.total_duration = 30_000;
    s.position = 5_000;
    s.start_milis = 5_000;
    s
}

#[test]
fn position_is_monotone_under_a_fixed_anchor() {
    let mut last: u64 = 0;
    let mut t: u64 = 1000;
    while t <= 1010 {
        let p = compute_position(1000, 5_000, 30_000, t);
        assert!(p >= last);
        last = p;
        t += 1;
    }
    assert_eq!(compute_position(1000, 5_000, 30_000, 1007), 5_007);
}

#[test]
fn position_never_exceeds_total_duration() {
    assert_eq!(compute_position(0, 0, 100, 1_000_000), 100);
    assert_eq!(compute_position(0, 99, 100, 5), 100);
    // A clock that went backwards adds nothing.
    assert_eq!(compute_position(1000, 40, 100, 900), 40);
}

#[test]
fn none_policy_is_a_byte_for_byte_no_op() {
    let mut s = playing_session();
    let before_info = (
        s.current_song_info.name.clone(),
        s.current_song_info.artist.clone(),
        s.current_song_info.genre.clone(),
        s.current_song_info.nodisplay_time_listened,
    );
    let before = (
        s.cur_song_index,
        s.anchor_ms,
        s.start_milis,
        s.position,
        s.total_duration,
        s.song_data_exists,
        s.current_playing_song.clone(),
        s.song_folder.clone(),
        s.prewalked.len(),
    );
    let r = handle_song_end(SelectionType::Nothing, &mut s, 99_999);
    assert_eq!(r.status, "");
    assert!(r.to_play.is_none());
    assert!(r.write_lines.is_none());
    let after_info = (
        s.current_song_info.name.clone(),
        s.current_song_info.artist.clone(),
        s.current_song_info.genre.clone(),
        s.current_song_info.nodisplay_time_listened,
    );
    let after = (
        s.cur_song_index,
        s.anchor_ms,
        s.start_milis,
        s.position,
        s.total_duration,
        s.song_data_exists,
        s.current_playing_song.clone(),
        s.song_folder.clone(),
        s.prewalked.len(),
    );
    assert_eq!(before_info, after_info);
    assert_eq!(before, after);
}

#[test]
fn none_policy_is_idempotent_from_an_idle_state() {
    let mut s = PlaybackSession::new(MetadataStore::new(), None, 0);
    let r1 = handle_song_end(SelectionType::Nothing, &mut s, 1);
    let r2 = handle_song_end(SelectionType::Nothing, &mut s, 2);
    assert_eq!(r1.status, "");
    assert_eq!(r2.status, "");
    assert!(s.current_playing_song.is_none());
    assert_eq!(s.cur_song_index, 0);
}

#[test]
fn active_policy_over_an_empty_list_only_reports() {
    let mut s = PlaybackSession::new(MetadataStore::new(), None, 0);
    let r = handle_song_end(SelectionType::Next, &mut s, 5);
    assert_eq!(r.status, "Error: No songs in current directory");
    assert!(r.to_play.is_none());
}

#[test]
fn next_resolution_over_directories_only_terminates_and_fails() {
    let mut s = PlaybackSession::new(MetadataStore::new(), None, 0);
    s.prewalked = vec![
        elem(FileType::Directory, "a"),
        elem(FileType::Directory, "b"),
        elem(FileType::Directory, "c"),
    ];
    let r = handle_song_end(SelectionType::Next, &mut s, 5);
    assert_eq!(r.status, "Song you tried to play doesn't exist");
    assert!(r.to_play.is_none());
}

#[test]
fn shuffle_resolution_over_directories_only_terminates_and_fails() {
    let mut s = PlaybackSession::new(MetadataStore::new(), None, 0);
    s.prewalked = vec![elem(FileType::Directory, "a"), elem(FileType::Directory, "b")];
    let r = handle_song_end(SelectionType::Shuffle, &mut s, 5);
    assert_eq!(r.status, "Song you tried to play doesn't exist");
    assert!(r.to_play.is_none());
}

#[test]
fn next_picks_the_following_audio_row() {
    let prewalked = vec![
        elem(FileType::Directory, "songs/"),
        elem(FileType::AudioFile, "songs/a.mp3"),
        elem(FileType::AudioFile, "songs/b.mp3"),
    ];
    let r = get_next_song_bounded(&prewalked, 1, 3);
    assert_eq!(r, Some("songs/b.mp3".to_string()));
    let wrapped = get_next_song_bounded(&prewalked, 2, 3);
    assert_eq!(wrapped, Some("songs/a.mp3".to_string()));
}

#[test]
fn next_skips_directory_rows() {
    let prewalked = vec![
        elem(FileType::AudioFile, "songs/a.mp3"),
        elem(FileType::Directory, "sub"),
        elem(FileType::AudioFile, "songs/b.mp3"),
    ];
    let r = get_next_song_bounded(&prewalked, 0, 3);
    assert_eq!(r, Some("songs/b.mp3".to_string()));
}

#[test]
fn shuffle_finds_the_only_audio_row() {
    let prewalked = vec![elem(FileType::Directory, "sub"), elem(FileType::AudioFile, "songs/a.mp3")];
    let r = get_random_song_bounded(&prewalked);
    assert_eq!(r, Some("songs/a.mp3".to_string()));
}

#[test]
fn loop_replays_the_current_track() {
    let mut s = playing_session();
    let r = handle_song_end(SelectionType::Loop, &mut s, 2000);
    assert_eq!(r.status, "");
    assert_eq!(r.to_play, Some("songs/a.mp3".to_string()));
    // One second of listening flushed into the counter.
    assert_eq!(s.current_song_info.nodisplay_time_listened, 1000);
    // a.mp3 has no stored record, so the passive save wrote nothing.
    assert!(r.write_lines.is_none());
}

#[test]
fn loop_without_a_current_track_reports() {
    let mut s = playing_session();
    s.current_playing_song = None;
    let r = handle_song_end(SelectionType::Loop, &mut s, 2000);
    assert_eq!(r.status, "How did you even cause this error??");
    assert!(r.to_play.is_none());
}

#[test]
fn next_flushes_and_saves_the_track_being_left() {
    let mut s = playing_session();
    s.current_playing_song = Some("songs/b.mp3".to_string());
    s.cur_song_index = 2;
    s.current_song_info.name = "BeeSong".to_string();
    s.current_song_info.artist = "Artist".to_string();
    s.current_song_info.genre = "Genre".to_string();
    s.current_song_info.nodisplay_time_listened = 100;
    let r = handle_song_end(SelectionType::Next, &mut s, 3500);
    // 2500 ms since the anchor at 1000 were flushed and saved for b.mp3.
    assert_eq!(
        r.write_lines,
        Some(vec!["b.mp3,BeeSong,Artist,Genre,2600".to_string()])
    );
    // The next audio row after index 2 (wrapping) is a.mp3.
    assert_eq!(r.to_play, Some("songs/a.mp3".to_string()));
    assert_eq!(r.status, "");
    // a.mp3 has no record: the flag and the shown record say so.
    assert!(!s.song_data_exists);
    assert_eq!(s.current_song_info.name, "");
    assert_eq!(s.current_song_info.nodisplay_time_listened, 0);
    assert_eq!(s.anchor_ms, 3500);
}

#[test]
fn begin_track_prefers_the_probe_duration() {
    let mut s = playing_session();
    let r = s.begin_track("songs/b.mp3", Some(2000), Some(9999), 4000);
    assert_eq!(r, "");
    assert_eq!(s.total_duration, 2000);
    assert_eq!(s.position, 0);
    assert_eq!(s.start_milis, 0);
    assert_eq!(s.anchor_ms, 4000);
    assert_eq!(s.current_playing_song, Some("songs/b.mp3".to_string()));
    assert_eq!(s.cur_song_index, 2);
}

#[test]
fn begin_track_falls_back_to_the_decoder_duration() {
    let mut s = playing_session();
    let r = s.begin_track("songs/b.mp3", None, Some(7000), 4000);
    assert_eq!(r, "");
    assert_eq!(s.total_duration, 7000);
}

#[test]
fn begin_track_without_any_duration_refuses() {
    let mut s = playing_session();
    let r = s.begin_track("songs/b.mp3", None, None, 4000);
    assert_eq!(r, "Error - Couldn't determine song length");
    // Nothing moved.
    assert_eq!(s.total_duration, 30_000);
    assert_eq!(s.current_playing_song, Some("songs/a.mp3".to_string()));
    assert_eq!(s.cur_song_index, 1);
}

#[test]
fn begin_track_defaults_to_index_zero_when_the_path_is_not_listed() {
    let mut s = playing_session();
    let r = s.begin_track("elsewhere/x.mp3", Some(1000), None, 4000);
    assert_eq!(r, "");
    assert_eq!(s.cur_song_index, 0);
}

#[test]
fn pause_flushes_and_freezes_the_offset() {
    let mut s = playing_session();
    s.position = 6_000;
    let w = s.on_pause(2500);
    // 1500 ms since the anchor at 1000.
    assert_eq!(s.current_song_info.nodisplay_time_listened, 1500);
    assert_eq!(s.start_milis, 6_000);
    // a.mp3 has no stored record: passive save wrote nothing.
    assert!(w.is_none());
}

#[test]
fn resume_reanchors_without_double_counting() {
    let mut s = playing_session();
    s.current_song_info.nodisplay_time_listened = 42;
    s.on_resume(9000);
    assert_eq!(s.anchor_ms, 9000);
    assert_eq!(s.current_song_info.nodisplay_time_listened, 42);
}

#[test]
fn seek_reanchors_at_the_dragged_position() {
    let mut s = playing_session();
    s.on_seek(12_345, 2000);
    assert_eq!(s.position, 12_345);
    assert_eq!(s.start_milis, 12_345);
    assert_eq!(s.anchor_ms, 2000);
    assert_eq!(s.current_song_info.nodisplay_time_listened, 1000);
}

#[test]
fn skip_under_the_inactive_policy_resets_bookkeeping() {
    let mut s = playing_session();
    let r = s.skip_track(5000);
    assert_eq!(r.status, "");
    assert!(r.to_play.is_none());
    assert_eq!(s.position, 0);
    assert_eq!(s.start_milis, 0);
    assert_eq!(s.anchor_ms, 5000);
}

#[test]
fn skip_under_the_loop_policy_offers_the_current_track() {
    let mut s = playing_session();
    s.sel_type = SelectionType::Loop;
    let r = s.skip_track(2000);
    assert_eq!(r.status, "");
    assert_eq!(r.to_play, Some("songs/a.mp3".to_string()));
    // One second since the anchor flushed before the switch.
    assert_eq!(s.current_song_info.nodisplay_time_listened, 1000);
    assert_eq!(s.position, 0);
    assert_eq!(s.start_milis, 0);
    assert_eq!(s.anchor_ms, 2000);
}

#[test]
fn update_position_only_advances_while_playing() {
    let mut s = playing_session();
    s.update_position(2000, true, false);
    assert_eq!(s.position, 5_000);
    s.update_position(2000, false, true);
    assert_eq!(s.position, 5_000);
    s.update_position(2000, false, false);
    assert_eq!(s.position, 6_000);
}

#[test]
fn session_startup_reads_the_first_song_record()
{
    let store = MetadataStore::load_lines(&vec!["first.mp3,Name,Art,Gen,9".to_string()]);
    let s = PlaybackSession::new(store, Some(&"first.mp3".to_string()), 7);
    assert!(s.song_data_exists);
    assert_eq!(s.current_song_info.name, "Name");
    assert_eq!(s.current_song_info.nodisplay_time_listened, 9);
    assert_eq!(s.song_folder, "songs/");
    assert_eq!(s.anchor_ms, 7);

    let s2 = PlaybackSession::new(MetadataStore::new(), Some(&"first.mp3".to_string()), 7);
    assert!(!s2.song_data_exists);
    assert_eq!(s2.current_song_info.name, "");
}
