use pinetree::filetree::{walk_tree, FileElement, FileTreeNode, FileType, RawEntry, TreeCache};

fn entry(name: &str, is_dir: bool) -> RawEntry {
    RawEntry { name: name.to_string(), is_dir: is_dir }
}

fn names(out: &Vec<FileElement>) -> Vec<(bool, String)> {
    out.iter().map(|e| (e.file_type == FileType::AudioFile, e.file_name.clone())).collect()
}

#[test]
fn walk_of_uncached_root_is_empty() {
    let cache = TreeCache::new();
    let mut out: Vec<FileElement> = vec![FileElement::new(
        FileType::Directory,
        "stale".to_string(),
    )];
    walk_tree(&mut out, "songs/", &cache);
    assert_eq!(out.len(), 0);
}

#[test]
fn flattening_lists_uncached_subfolders_without_expanding() {
    // Root r with subfolders [A, B] and files [x.mp3, y.mp3]; A cached with
    // no children, B not cached.
    let mut cache = TreeCache::new();
    let root = FileTreeNode::new(
        "r".to_string(),
        vec![entry("A", true), entry("B", true), entry("x.mp3", false), entry("y.mp3", false)],
    );
    let node_a = FileTreeNode::new("r/A".to_string(), vec![]);
    cache.insert("r".to_string(), root);
    cache.insert("r/A".to_string(), node_a);

    let mut out: Vec<FileElement> = Vec::new();
    walk_tree(&mut out, "r", &cache);
    let got = names(&out);
    assert_eq!(
        got,
        vec![
            (false, "r".to_string()),
            (false, "A".to_string()),
            (false, "B".to_string()),
            (true, "r/x.mp3".to_string()),
            (true, "r/y.mp3".to_string()),
        ]
    );
}

#[test]
fn scan_order_does_not_change_the_walk() {
    // Two scans of the same directory in different enumeration orders index
    // and flatten identically.
    let mut cache1 = TreeCache::new();
    cache1.insert(
        "songs/".to_string(),
        FileTreeNode::new(
            "songs/".to_string(),
            vec![entry("b.mp3", false), entry("a.mp3", false)],
        ),
    );
    let mut cache2 = TreeCache::new();
    cache2.insert(
        "songs/".to_string(),
        FileTreeNode::new(
            "songs/".to_string(),
            vec![entry("a.mp3", false), entry("b.mp3", false)],
        ),
    );
    let mut out1: Vec<FileElement> = Vec::new();
    let mut out2: Vec<FileElement> = Vec::new();
    walk_tree(&mut out1, "songs/", &cache1);
    walk_tree(&mut out2, "songs/", &cache2);
    assert_eq!(names(&out1), names(&out2));
}

#[test]
fn end_to_end_scan_is_sorted() {
    // Directory songs/ holds b.mp3 then a.mp3 in enumeration order; after
    // index and walk the audio rows come out lexicographically.
    let mut cache = TreeCache::new();
    cache.insert(
        "songs/".to_string(),
        FileTreeNode::new(
            "songs/".to_string(),
            vec![entry("b.mp3", false), entry("a.mp3", false)],
        ),
    );
    let mut out: Vec<FileElement> = Vec::new();
    walk_tree(&mut out, "songs/", &cache);
    let audio: Vec<String> = out
        .iter()
        .filter(|e| e.file_type == FileType::AudioFile)
        .map(|e| e.file_name.clone())
        .collect();
    assert_eq!(audio, vec!["songs/a.mp3".to_string(), "songs/b.mp3".to_string()]);
}

#[test]
fn indexer_keeps_only_audio_files() {
    let mut cache = TreeCache::new();
    cache.insert(
        "songs/".to_string(),
        FileTreeNode::new(
            "songs/".to_string(),
            vec![
                entry("notes.txt", false),
                entry("z.mp3", false),
                entry("cover.png", false),
                entry("sub", true),
            ],
        ),
    );
    let mut out: Vec<FileElement> = Vec::new();
    walk_tree(&mut out, "songs/", &cache);
    let got = names(&out);
    assert_eq!(
        got,
        vec![
            (false, "songs/".to_string()),
            (false, "sub".to_string()),
            (true, "songs/z.mp3".to_string()),
        ]
    );
}

#[test]
fn expanding_a_subfolder_shows_its_cached_contents() {
    let mut cache = TreeCache::new();
    cache.insert(
        "r".to_string(),
        FileTreeNode::new("r".to_string(), vec![entry("A", true)]),
    );
    cache.insert(
        "r/A".to_string(),
        FileTreeNode::new("r/A".to_string(), vec![entry("inner.mp3", false)]),
    );
    let mut out: Vec<FileElement> = Vec::new();
    walk_tree(&mut out, "r", &cache);
    assert_eq!(
        names(&out),
        vec![
            (false, "r".to_string()),
            (false, "A".to_string()),
            (true, "r/A/inner.mp3".to_string()),
        ]
    );
}

#[test]
fn cache_remove_collapses_a_directory() {
    let mut cache = TreeCache::new();
    cache.insert(
        "r".to_string(),
        FileTreeNode::new("r".to_string(), vec![entry("A", true)]),
    );
    cache.insert(
        "r/A".to_string(),
        FileTreeNode::new("r/A".to_string(), vec![entry("inner.mp3", false)]),
    );
    assert!(cache.contains_key("r/A"));
    cache.remove("r/A");
    assert!(!cache.contains_key("r/A"));
    assert!(cache.contains_key("r"));
    let mut out: Vec<FileElement> = Vec::new();
    walk_tree(&mut out, "r", &cache);
    // A is still listed, just no longer expandable.
    assert_eq!(names(&out), vec![(false, "r".to_string()), (false, "A".to_string())]);
}
