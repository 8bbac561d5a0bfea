use pinetree::filetree::file_path_build;
use pinetree::session::{normalize_folder, parent_folder};
use pinetree::strings::reduce_song_name;

#[test]
fn join_with_trailing_separator() {
    assert_eq!(file_path_build("songs/", "a.mp3"), "songs/a.mp3");
}

#[test]
fn join_without_trailing_separator() {
    assert_eq!(file_path_build("songs", "a.mp3"), "songs/a.mp3");
}

#[test]
fn join_with_trailing_backslash() {
    assert_eq!(file_path_build("songs\\", "a.mp3"), "songs\\a.mp3");
}

#[test]
fn join_empty_folder() {
    assert_eq!(file_path_build("", "a.mp3"), "/a.mp3");
}

#[test]
fn reduce_strips_folders() {
    assert_eq!(reduce_song_name("songs/a.mp3"), "a.mp3");
    assert_eq!(reduce_song_name("a.mp3"), "a.mp3");
    assert_eq!(reduce_song_name("x/y\\z.mp3"), "z.mp3");
    assert_eq!(reduce_song_name("dir/"), "");
    assert_eq!(reduce_song_name(""), "");
}

#[test]
fn normalize_appends_separator_once() {
    assert_eq!(normalize_folder("songs"), "songs/");
    assert_eq!(normalize_folder("songs/"), "songs/");
    assert_eq!(normalize_folder("songs\\"), "songs\\");
    assert_eq!(normalize_folder(""), "");
}

#[test]
fn parent_backs_up_one_level() {
    assert_eq!(parent_folder("songs/rock"), "songs");
    assert_eq!(parent_folder("songs/rock/"), "songs");
    assert_eq!(parent_folder("songs/"), "");
    assert_eq!(parent_folder("songs"), "");
    assert_eq!(parent_folder("/rock"), "");
    assert_eq!(parent_folder(""), "");
}
