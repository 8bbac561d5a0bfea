//! The directory index and tree cache behind the browse panel: one
//! `FileTreeNode` per scanned directory (immediate subfolders plus its audio
//! files in a deterministic sorted order), a `TreeCache` mapping directory
//! paths to nodes, and the depth-first flattening walk that produces the
//! display list. Directory enumeration itself happens outside; a scan's raw
//! entries are handed in as plain values.

use crate::assoc::{
    assoc_has_key, assoc_keys_unique, assoc_max_key_len, assoc_value, lemma_assoc_entry_at,
    lemma_assoc_has_key_exists, lemma_assoc_key_len_le_max, lemma_assoc_remove,
    lemma_assoc_update,
};
use crate::strings::{
    ends_in_separator, ends_with, is_separator, lemma_str_le_total_ordering, spec_ends_with,
    str_le, str_le_exec, str_le_order, string_views,
};
use vstd::prelude::*;
use vstd::relations::sorted_by;
use vstd::seq_lib::lemma_sorted_unique;

verus! {

broadcast use vstd::seq_lib::group_to_multiset_ensures;

/// What one row of the flattened display list stands for.
#[derive(PartialEq, Eq, Structural, Clone, Copy, Debug)]
pub enum FileType {
    AudioFile,
    Directory,
}

/// One row of the flattened display list.
pub struct FileElement {
    pub file_type: FileType,
    pub file_name: String,
}

/// The mathematical value of a `FileElement`.
pub ghost struct ElemModel {
    pub kind: FileType,
    pub name: Seq<char>,
}

impl View for FileElement {
    type V = ElemModel;

    open spec fn view(&self) -> ElemModel {
        ElemModel { kind: self.file_type, name: self.file_name@ }
    }
}

impl FileElement {
    pub fn new(file_type: FileType, file_name: String) -> (r: Self)
        ensures
            r@ == (ElemModel { kind: file_type, name: file_name@ }),
    {
        Self { file_name: file_name, file_type: file_type }
    }
}

/// One raw result of enumerating a directory: a child's name and whether it
/// is itself a directory. Names that the platform could not represent are
/// dropped by the enumerator and never reach this type.
pub struct RawEntry {
    pub name: String,
    pub is_dir: bool,
}

/// The mathematical value of a `RawEntry`.
pub ghost struct EntryModel {
    pub name: Seq<char>,
    pub is_dir: bool,
}

impl View for RawEntry {
    type V = EntryModel;

    open spec fn view(&self) -> EntryModel {
        EntryModel { name: self.name@, is_dir: self.is_dir }
    }
}

/// The views of a sequence of display elements.
pub open spec fn elem_views(s: Seq<FileElement>) -> Seq<ElemModel> {
    s.map_values(|e: FileElement| e@)
}

/// The views of a sequence of raw scan entries.
pub open spec fn entry_views(s: Seq<RawEntry>) -> Seq<EntryModel> {
    s.map_values(|e: RawEntry| e@)
}

/// The audio-file suffix every indexed file name must carry.
pub open spec fn mp3_suffix() -> Seq<char> {
    seq!['.', 'm', 'p', '3']
}

/// The subdirectory names of a scan, in scan order; nameless entries are
/// dropped.
pub open spec fn spec_scan_subfolders(es: Seq<EntryModel>) -> Seq<Seq<char>>
    decreases es.len(),
{
    if es.len() == 0 {
        Seq::empty()
    } else {
        let rest = spec_scan_subfolders(es.drop_last());
        let e = es.last();
        if e.is_dir && e.name.len() > 0 {
            rest.push(e.name)
        } else {
            rest
        }
    }
}

/// The audio-file names of a scan, in scan order.
pub open spec fn spec_scan_songs(es: Seq<EntryModel>) -> Seq<Seq<char>>
    decreases es.len(),
{
    if es.len() == 0 {
        Seq::empty()
    } else {
        let rest = spec_scan_songs(es.drop_last());
        let e = es.last();
        if !e.is_dir && spec_ends_with(e.name, mp3_suffix()) {
            rest.push(e.name)
        } else {
            rest
        }
    }
}

/// The mathematical value of a `FileTreeNode`.
pub ghost struct NodeModel {
    pub folder: Seq<char>,
    pub subfolders: Seq<Seq<char>>,
    pub songs: Seq<Seq<char>>,
}

impl NodeModel {
    /// Every subfolder name is nonempty; scans never produce nameless
    /// children, and the walk's termination leans on it.
    pub open spec fn wf(&self) -> bool {
        forall|i: int| 0 <= i < self.subfolders.len() ==> self.subfolders[i].len() > 0
    }
}

/// The index of one scanned directory: its immediate subfolder names in scan
/// order and its audio file names sorted lexicographically.
pub struct FileTreeNode {
    folder_name: String,
    subfolders: Vec<String>,
    songs: Vec<String>,
}

impl View for FileTreeNode {
    type V = NodeModel;

    closed spec fn view(&self) -> NodeModel {
        NodeModel {
            folder: self.folder_name@,
            subfolders: string_views(self.subfolders@),
            songs: string_views(self.songs@),
        }
    }
}

/// Sorts a list of strings into lexicographic order, keeping exactly the
/// same strings.
fn sort_strings(v: Vec<String>) -> (r: Vec<String>)
    ensures
        sorted_by(string_views(r@), str_le_order()),
        string_views(r@).to_multiset() == string_views(v@).to_multiset(),
{
    let mut out: Vec<String> = Vec::new();
    let mut i: usize = 0;
    proof {
        assert(string_views(v@.take(0)) =~= Seq::<Seq<char>>::empty());
        assert(string_views(out@) =~= Seq::<Seq<char>>::empty());
        assert(string_views(out@).to_multiset() =~= string_views(v@.take(0)).to_multiset());
    }
    while i < v.len()
        invariant
            i <= v.len(),
            sorted_by(string_views(out@), str_le_order()),
            string_views(out@).to_multiset() == string_views(v@.take(i as int)).to_multiset(),
        decreases v.len() - i,
    {
        let x = v[i].clone();
        let mut j: usize = 0;
        while j < out.len()
            invariant_except_break
                j <= out.len(),
                forall|k: int| 0 <= k < j ==> str_le(string_views(out@)[k], x@),
            ensures
                j <= out.len(),
                forall|k: int| 0 <= k < j ==> str_le(string_views(out@)[k], x@),
                j < out.len() ==> !str_le(string_views(out@)[j as int], x@),
            decreases out.len() - j,
        {
            if !str_le_exec(&out[j], x.as_str()) {
                break;
            }
            j = j + 1;
        }
        proof {
            let ov = string_views(out@);
            let nv = string_views(out@.insert(j as int, x));
            assert(nv =~= ov.insert(j as int, x@));
            lemma_str_le_total_ordering();
            assert forall|p: int, q: int| 0 <= p < q < nv.len() implies #[trigger] str_le_order()(
                nv[p],
                nv[q],
            ) by {
                if q < j {
                    assert(nv[p] == ov[p] && nv[q] == ov[q]);
                } else if p < j && q == j {
                    assert(nv[p] == ov[p] && nv[q] == x@);
                } else if p < j && q > j {
                    assert(nv[p] == ov[p] && nv[q] == ov[q - 1]);
                    assert(str_le_order()(ov[p], ov[q - 1]));
                } else if p == j && q > j {
                    assert(nv[p] == x@ && nv[q] == ov[q - 1]);
                    assert(j <= q - 1 < ov.len());
                    assert(!str_le(ov[j as int], x@));
                    crate::strings::lemma_str_le_connected(ov[j as int], x@);
                    assert(str_le(x@, ov[j as int]));
                    if q - 1 > j {
                        assert(str_le_order()(ov[j as int], ov[q - 1]));
                        crate::strings::lemma_str_le_transitive(x@, ov[j as int], ov[q - 1]);
                    }
                } else {
                    assert(p > j && q > j);
                    assert(nv[p] == ov[p - 1] && nv[q] == ov[q - 1]);
                    assert(str_le_order()(ov[p - 1], ov[q - 1]));
                }
            }
            assert(v@.take(i + 1).drop_last() =~= v@.take(i as int));
            assert(string_views(v@.take(i + 1)) =~= string_views(v@.take(i as int)).push(v@[
                i as int]@));
            vstd::seq_lib::to_multiset_insert(ov, j as int, x@);
        }
        out.insert(j, x);
        i = i + 1;
    }
    proof {
        assert(v@.take(v@.len() as int) =~= v@);
    }
    out
}

impl FileTreeNode {
    /// Every node a caller can hold is well formed; exported so proofs
    /// outside this module can retrieve it with `use_type_invariant`.
    #[verifier::type_invariant]
    pub open spec fn inv(&self) -> bool {
        self@.wf()
    }

    /// Indexes one directory scan: keeps the subfolder names in scan order,
    /// keeps exactly the audio files (names ending in `.mp3`), and sorts the
    /// audio files so the list is deterministic whatever order the platform
    /// enumerated them in.
    pub fn new(directory_file_path: String, scan: Vec<RawEntry>) -> (r: Self)
        ensures
            r@.folder == directory_file_path@,
            r@.subfolders == spec_scan_subfolders(entry_views(scan@)),
            sorted_by(r@.songs, str_le_order()),
            r@.songs.to_multiset() == spec_scan_songs(entry_views(scan@)).to_multiset(),
            r@.wf(),
    {
        let mut songs_list: Vec<String> = Vec::new();
        let mut subfolder_list: Vec<String> = Vec::new();
        let mut i: usize = 0;
        proof {
            reveal_strlit(".mp3");
            assert(".mp3"@ =~= mp3_suffix());
            assert(entry_views(scan@.take(0)) =~= Seq::<EntryModel>::empty());
            assert(string_views(songs_list@) =~= Seq::<Seq<char>>::empty());
            assert(string_views(subfolder_list@) =~= Seq::<Seq<char>>::empty());
        }
        while i < scan.len()
            invariant
                i <= scan.len(),
                string_views(subfolder_list@) == spec_scan_subfolders(
                    entry_views(scan@.take(i as int)),
                ),
                string_views(songs_list@) == spec_scan_songs(entry_views(scan@.take(i as int))),
                ".mp3"@ == mp3_suffix(),
            decreases scan.len() - i,
        {
            let entry = &scan[i];
            proof {
                assert(scan@.take(i + 1).drop_last() =~= scan@.take(i as int));
                assert(entry_views(scan@.take(i + 1)).drop_last() =~= entry_views(
                    scan@.take(i as int),
                ));
                assert(entry_views(scan@.take(i + 1)).last() == scan@[i as int]@);
            }
            if entry.is_dir {
                if entry.name.unicode_len() > 0 {
                    subfolder_list.push(entry.name.clone());
                    proof {
                        assert(string_views(subfolder_list@) =~= spec_scan_subfolders(
                            entry_views(scan@.take(i + 1)),
                        ));
                    }
                } else {
                    proof {
                        assert(string_views(subfolder_list@) =~= spec_scan_subfolders(
                            entry_views(scan@.take(i + 1)),
                        ));
                    }
                }
            } else {
                if ends_with(entry.name.as_str(), ".mp3") {
                    songs_list.push(entry.name.clone());
                    proof {
                        assert(string_views(songs_list@) =~= spec_scan_songs(
                            entry_views(scan@.take(i + 1)),
                        ));
                    }
                } else {
                    proof {
                        assert(string_views(songs_list@) =~= spec_scan_songs(
                            entry_views(scan@.take(i + 1)),
                        ));
                    }
                }
            }
            proof {
                assert(string_views(subfolder_list@) == spec_scan_subfolders(
                    entry_views(scan@.take(i + 1)),
                ));
                assert(string_views(songs_list@) == spec_scan_songs(entry_views(scan@.take(i + 1))));
            }
            i = i + 1;
        }
        proof {
            assert(scan@.take(scan@.len() as int) =~= scan@);
        }
        let songs_sorted = sort_strings(songs_list);
        proof {
            lemma_scan_subfolders_nonempty(entry_views(scan@));
        }
        Self { folder_name: directory_file_path, subfolders: subfolder_list, songs: songs_sorted }
    }
}

/// Every name `spec_scan_subfolders` keeps is nonempty.
proof fn lemma_scan_subfolders_nonempty(es: Seq<EntryModel>)
    ensures
        forall|i: int|
            0 <= i < spec_scan_subfolders(es).len() ==> #[trigger] spec_scan_subfolders(
                es,
            )[i].len() > 0,
    decreases es.len(),
{
    if es.len() > 0 {
        lemma_scan_subfolders_nonempty(es.drop_last());
        let rest = spec_scan_subfolders(es.drop_last());
        let s = spec_scan_subfolders(es);
        assert forall|i: int| 0 <= i < s.len() implies #[trigger] s[i].len() > 0 by {
            if es.last().is_dir && es.last().name.len() > 0 {
                if i < rest.len() {
                    assert(s[i] == rest[i]);
                } else {
                    assert(s[i] == es.last().name);
                }
            } else {
                assert(s[i] == rest[i]);
            }
        }
    }
}

/// Two lists of strings that are both sorted lexicographically and hold the
/// same strings are the same list.
pub proof fn lemma_sorted_strings_unique(a: Seq<Seq<char>>, b: Seq<Seq<char>>)
    requires
        sorted_by(a, str_le_order()),
        sorted_by(b, str_le_order()),
        a.to_multiset() == b.to_multiset(),
    ensures
        a == b,
{
    lemma_str_le_total_ordering();
    lemma_sorted_unique(a, b, str_le_order());
}

/// Determinism of the directory indexer: two scans of an unchanged directory
/// — the same children, in whatever order the platform handed them out —
/// index to the same subfolder list and the same sorted song list. The
/// subfolder list asks for the same scan order; the song list only for the
/// same set of files.
pub proof fn lemma_index_deterministic(a: FileTreeNode, b: FileTreeNode, e1: Seq<EntryModel>, e2: Seq<EntryModel>)
    requires
        a@.subfolders == spec_scan_subfolders(e1),
        b@.subfolders == spec_scan_subfolders(e2),
        sorted_by(a@.songs, str_le_order()),
        sorted_by(b@.songs, str_le_order()),
        a@.songs.to_multiset() == spec_scan_songs(e1).to_multiset(),
        b@.songs.to_multiset() == spec_scan_songs(e2).to_multiset(),
        e1 == e2,
    ensures
        a@.subfolders == b@.subfolders,
        a@.songs == b@.songs,
{
    lemma_sorted_strings_unique(a@.songs, b@.songs);
}

/// Every cached node is well formed.
pub open spec fn cache_nodes_wf(c: Seq<(Seq<char>, NodeModel)>) -> bool {
    forall|i: int| 0 <= i < c.len() ==> (#[trigger] c[i]).1.wf()
}

pub open spec fn cache_wf(c: Seq<(Seq<char>, NodeModel)>) -> bool {
    assoc_keys_unique(c) && cache_nodes_wf(c)
}

/// The node held under a key of a well-formed cache is well formed.
pub proof fn lemma_cache_node_wf(c: Seq<(Seq<char>, NodeModel)>, key: Seq<char>)
    requires
        cache_nodes_wf(c),
        assoc_has_key(c, key),
    ensures
        assoc_value(c, key).wf(),
    decreases c.len(),
{
    if c.len() > 0 {
        if c.last().0 == key {
            assert(c[c.len() - 1].1.wf());
        } else {
            assert forall|i: int| 0 <= i < c.drop_last().len() implies (#[trigger] c.drop_last()[
                i]).1.wf() by {
                assert(c.drop_last()[i] == c[i]);
            }
            lemma_cache_node_wf(c.drop_last(), key);
        }
    }
}

/// The memoized per-directory indexes, keyed by the directory path the walk
/// reaches them under: the root by its own path, a subdirectory by its path
/// joined below its parent.
pub struct TreeCache {
    entries: Vec<(String, FileTreeNode)>,
}

impl View for TreeCache {
    type V = Seq<(Seq<char>, NodeModel)>;

    closed spec fn view(&self) -> Seq<(Seq<char>, NodeModel)> {
        self.entries@.map_values(|p: (String, FileTreeNode)| (p.0@, p.1@))
    }
}

impl TreeCache {
    /// Every cache a caller can hold is well formed — keys pairwise distinct
    /// and every cached node's subfolder names nonempty. This is the
    /// condition under which the walk's specification unfolds; proofs
    /// outside this module retrieve it with `use_type_invariant`.
    #[verifier::type_invariant]
    pub open spec fn inv(&self) -> bool {
        cache_wf(self@)
    }

    pub fn new() -> (r: Self)
        ensures
            r@ == Seq::<(Seq<char>, NodeModel)>::empty(),
    {
        let r = Self { entries: Vec::new() };
        proof {
            assert(r@ =~= Seq::<(Seq<char>, NodeModel)>::empty());
        }
        r
    }

    /// The index of the entry holding this key, if any.
    fn position_of(&self, key: &str) -> (r: Option<usize>)
        ensures
            match r {
                Some(i) => i < self@.len() && self@[i as int].0 == key@,
                None => !assoc_has_key(self@, key@),
            },
    {
        let mut i: usize = 0;
        while i < self.entries.len()
            invariant
                i <= self.entries.len(),
                forall|k: int| 0 <= k < i ==> (#[trigger] self@[k]).0 != key@,
            decreases self.entries.len() - i,
        {
            if crate::strings::str_eq(self.entries[i].0.as_str(), key) {
                return Some(i);
            }
            i = i + 1;
        }
        proof {
            lemma_assoc_has_key_exists(self@, key@);
        }
        None
    }

    pub fn contains_key(&self, key: &str) -> (r: bool)
        ensures
            r == assoc_has_key(self@, key@),
    {
        proof {
            use_type_invariant(self);
        }
        let pos = self.position_of(key);
        match pos {
            Some(i) => {
                proof {
                    lemma_assoc_entry_at(self@, i as int);
                }
                true
            },
            None => false,
        }
    }

    pub fn get(&self, key: &str) -> (r: Option<&FileTreeNode>)
        ensures
            match r {
                Some(node) => assoc_has_key(self@, key@) && node@ == assoc_value(self@, key@),
                None => !assoc_has_key(self@, key@),
            },
    {
        proof {
            use_type_invariant(self);
        }
        let pos = self.position_of(key);
        match pos {
            Some(i) => {
                proof {
                    lemma_assoc_entry_at(self@, i as int);
                }
                Some(&self.entries[i].1)
            },
            None => None,
        }
    }

    /// Memoizes a scanned directory: replaces the node when the key is
    /// already held, adds an entry otherwise.
    pub fn insert(&mut self, key: String, node: FileTreeNode)
        ensures
            forall|k: Seq<char>|
                assoc_has_key(final(self)@, k) == (k == key@ || assoc_has_key(old(self)@, k)),
            assoc_value(final(self)@, key@) == node@,
            forall|k: Seq<char>|
                k != key@ && assoc_has_key(old(self)@, k) ==> assoc_value(final(self)@, k)
                    == assoc_value(old(self)@, k),
    {
        proof {
            use_type_invariant(&*self);
            use_type_invariant(&node);
        }
        let ghost c = self@;
        let pos = self.position_of(key.as_str());
        let mut held: Vec<(String, FileTreeNode)> = Vec::new();
        core::mem::swap(&mut held, &mut self.entries);
        proof {
            assert(self@ =~= Seq::<(Seq<char>, NodeModel)>::empty());
        }
        match pos {
            Some(i) => {
                proof {
                    lemma_assoc_entry_at(c, i as int);
                    lemma_assoc_update(c, i as int, node@);
                }
                held.set(i, (key, node));
                proof {
                    let u = held@.map_values(|p: (String, FileTreeNode)| (p.0@, p.1@));
                    assert(u =~= c.update(i as int, (c[i as int].0, node@)));
                    assert forall|p: int| 0 <= p < u.len() implies (#[trigger] u[p]).1.wf() by {
                        if p != i as int {
                            assert(u[p] == c[p]);
                        }
                    }
                }
                core::mem::swap(&mut held, &mut self.entries);
                proof {
                    assert(self@ =~= c.update(i as int, (c[i as int].0, node@)));
                }
            },
            None => {
                proof {
                    lemma_assoc_has_key_exists(c, key@);
                }
                held.push((key, node));
                proof {
                    let u = held@.map_values(|p: (String, FileTreeNode)| (p.0@, p.1@));
                    assert(u =~= c.push((key@, node@)));
                    assert(u.drop_last() =~= c);
                    assert forall|p: int, q: int| 0 <= p < q < u.len() implies (
                    #[trigger] u[p]).0 != (#[trigger] u[q]).0 by {
                        if q < u.len() - 1 {
                            assert(u[p] == c[p] && u[q] == c[q]);
                        } else {
                            assert(u[p] == c[p]);
                        }
                    }
                    assert forall|p: int| 0 <= p < u.len() implies (#[trigger] u[p]).1.wf() by {
                        if p < u.len() - 1 {
                            assert(u[p] == c[p]);
                        }
                    }
                }
                core::mem::swap(&mut held, &mut self.entries);
                proof {
                    assert(self@ =~= c.push((key@, node@)));
                    assert(self@.drop_last() =~= c);
                }
            },
        }
    }

    /// Forgets a cached directory (the collapse action); keys it does not
    /// hold are left alone.
    pub fn remove(&mut self, key: &str)
        ensures
            forall|k: Seq<char>|
                assoc_has_key(final(self)@, k) == (assoc_has_key(old(self)@, k) && k != key@),
            forall|k: Seq<char>|
                k != key@ && assoc_has_key(old(self)@, k) ==> assoc_value(final(self)@, k)
                    == assoc_value(old(self)@, k),
    {
        proof {
            use_type_invariant(&*self);
        }
        let ghost c = self@;
        let pos = self.position_of(key);
        match pos {
            Some(i) => {
                proof {
                    lemma_assoc_entry_at(c, i as int);
                    lemma_assoc_remove(c, i as int);
                }
                let mut held: Vec<(String, FileTreeNode)> = Vec::new();
                core::mem::swap(&mut held, &mut self.entries);
                proof {
                    assert(self@ =~= Seq::<(Seq<char>, NodeModel)>::empty());
                }
                let _ = held.remove(i);
                proof {
                    let u = held@.map_values(|p: (String, FileTreeNode)| (p.0@, p.1@));
                    assert(u =~= c.remove(i as int));
                    assert forall|p: int| 0 <= p < u.len() implies (#[trigger] u[p]).1.wf() by {
                        if p < i as int {
                            assert(u[p] == c[p]);
                        } else {
                            assert(u[p] == c[p + 1]);
                        }
                    }
                }
                core::mem::swap(&mut held, &mut self.entries);
                proof {
                    assert(self@ =~= c.remove(i as int));
                }
            },
            None => {
                proof {
                    lemma_assoc_has_key_exists(c, key@);
                    assert forall|k: Seq<char>|
                        assoc_has_key(final(self)@, k) == (assoc_has_key(old(self)@, k) && k
                            != key@) by {}
                }
            },
        }
    }
}

/// How much deeper the walk can still descend from this root before every
/// cache key is shorter than the path.
pub open spec fn walk_measure(c: Seq<(Seq<char>, NodeModel)>, root: Seq<char>) -> nat {
    if root.len() <= assoc_max_key_len(c) {
        (assoc_max_key_len(c) + 1 - root.len()) as nat
    } else {
        0
    }
}

/// The display rows of one node's audio files, their paths joined under the
/// node's root.
pub open spec fn song_elems(root: Seq<char>, songs: Seq<Seq<char>>) -> Seq<ElemModel> {
    songs.map_values(
        |s: Seq<char>| ElemModel { kind: FileType::AudioFile, name: spec_path_join(root, s) },
    )
}

/// The display rows a walk emits below the node cached under `root`: a row
/// per immediate subfolder — each followed, when the subfolder's joined path
/// is cached, by the rows below that path — then a row per audio file.
/// Nothing when `root` is not cached.
pub open spec fn spec_walk_entries(c: Seq<(Seq<char>, NodeModel)>, root: Seq<char>) -> Seq<
    ElemModel,
>
    decreases walk_measure(c, root), 1nat, 0nat,
    when cache_wf(c)
    via spec_walk_entries_decreases
{
    if assoc_has_key(c, root) {
        let node = assoc_value(c, root);
        spec_walk_subs(c, root, node.subfolders) + song_elems(root, node.songs)
    } else {
        Seq::<ElemModel>::empty()
    }
}

/// The display rows of the given subfolder list of the node at `root`.
pub open spec fn spec_walk_subs(
    c: Seq<(Seq<char>, NodeModel)>,
    root: Seq<char>,
    subs: Seq<Seq<char>>,
) -> Seq<ElemModel>
    decreases walk_measure(c, root), 0nat, subs.len(),
    when cache_wf(c) && assoc_has_key(c, root) && (forall|j: int|
        0 <= j < subs.len() ==> (#[trigger] subs[j]).len() > 0)
    via spec_walk_subs_decreases
{
    if subs.len() == 0 {
        Seq::<ElemModel>::empty()
    } else {
        let d = subs.first();
        let below = if assoc_has_key(c, spec_path_join(root, d)) {
            spec_walk_entries(c, spec_path_join(root, d))
        } else {
            Seq::<ElemModel>::empty()
        };
        seq![(ElemModel { kind: FileType::Directory, name: d })] + below + spec_walk_subs(
            c,
            root,
            subs.drop_first(),
        )
    }
}

#[via_fn]
proof fn spec_walk_entries_decreases(c: Seq<(Seq<char>, NodeModel)>, root: Seq<char>) {
    if assoc_has_key(c, root) {
        lemma_cache_node_wf(c, root);
    }
}

#[via_fn]
proof fn spec_walk_subs_decreases(
    c: Seq<(Seq<char>, NodeModel)>,
    root: Seq<char>,
    subs: Seq<Seq<char>>,
) {
    if subs.len() > 0 {
        lemma_assoc_key_len_le_max(c, root);
        assert(subs[0].len() > 0);
        assert(spec_path_join(root, subs.first()).len() > root.len());
    }
}

/// The full flattened walk from `root`: the root's own directory row, then
/// everything below it; empty when the root is not cached.
pub open spec fn spec_walk(c: Seq<(Seq<char>, NodeModel)>, root: Seq<char>) -> Seq<ElemModel> {
    if assoc_has_key(c, root) {
        seq![(ElemModel { kind: FileType::Directory, name: root })] + spec_walk_entries(c, root)
    } else {
        Seq::<ElemModel>::empty()
    }
}

/// Splitting a subfolder list splits its display rows.
proof fn lemma_walk_subs_concat(
    c: Seq<(Seq<char>, NodeModel)>,
    root: Seq<char>,
    s1: Seq<Seq<char>>,
    s2: Seq<Seq<char>>,
)
    requires
        cache_wf(c),
        assoc_has_key(c, root),
        forall|j: int| 0 <= j < s1.len() ==> (#[trigger] s1[j]).len() > 0,
        forall|j: int| 0 <= j < s2.len() ==> (#[trigger] s2[j]).len() > 0,
    ensures
        spec_walk_subs(c, root, s1 + s2) == spec_walk_subs(c, root, s1) + spec_walk_subs(
            c,
            root,
            s2,
        ),
    decreases s1.len(),
{
    assert forall|j: int| 0 <= j < (s1 + s2).len() implies (#[trigger] (s1 + s2)[j]).len() > 0 by {
        if j < s1.len() {
            assert((s1 + s2)[j] == s1[j]);
        } else {
            assert((s1 + s2)[j] == s2[j - s1.len()]);
        }
    }
    if s1.len() == 0 {
        assert(s1 + s2 =~= s2);
        assert(spec_walk_subs(c, root, s1) =~= Seq::<ElemModel>::empty());
        assert(spec_walk_subs(c, root, s1) + spec_walk_subs(c, root, s2) =~= spec_walk_subs(
            c,
            root,
            s2,
        ));
    } else {
        assert((s1 + s2).first() == s1.first());
        assert((s1 + s2).drop_first() =~= s1.drop_first() + s2);
        lemma_walk_subs_concat(c, root, s1.drop_first(), s2);
        let d = s1.first();
        let below = if assoc_has_key(c, spec_path_join(root, d)) {
            spec_walk_entries(c, spec_path_join(root, d))
        } else {
            Seq::<ElemModel>::empty()
        };
        let head = seq![(ElemModel { kind: FileType::Directory, name: d })];
        assert(spec_walk_subs(c, root, s1 + s2) == head + below + (spec_walk_subs(
            c,
            root,
            s1.drop_first(),
        ) + spec_walk_subs(c, root, s2)));
        assert(head + below + (spec_walk_subs(c, root, s1.drop_first()) + spec_walk_subs(
            c,
            root,
            s2,
        )) =~= (head + below + spec_walk_subs(c, root, s1.drop_first())) + spec_walk_subs(
            c,
            root,
            s2,
        ));
    }
}

/// Walks the subtree below the directory cached under `root_name`, appending
/// its display rows to `out_vec`; appends nothing when `root_name` is not
/// cached. The root's own row is not emitted here.
pub fn walk_tree_recursive(out_vec: &mut Vec<FileElement>, root_name: &str, hashmap: &TreeCache)
    ensures
        elem_views(final(out_vec)@) == elem_views(old(out_vec)@) + spec_walk_entries(
            hashmap@,
            root_name@,
        ),
    decreases walk_measure(hashmap@, root_name@),
{
    proof {
        use_type_invariant(hashmap);
    }
    let result = hashmap.get(root_name);
    match result {
        Option::None => {
            proof {
                assert(spec_walk_entries(hashmap@, root_name@) =~= Seq::<ElemModel>::empty());
                assert(elem_views(out_vec@) =~= elem_views(out_vec@) + Seq::<ElemModel>::empty());
            }
        },
        Option::Some(root_node) => {
            proof {
                use_type_invariant(root_node);
                lemma_cache_node_wf(hashmap@, root_name@);
            }
            let ghost c = hashmap@;
            let ghost node = assoc_value(c, root_name@);
            let ghost base = elem_views(out_vec@);
            let ghost subs = node.subfolders;
            let mut di: usize = 0;
            proof {
                assert(subs.take(0) =~= Seq::<Seq<char>>::empty());
                assert(base + spec_walk_subs(c, root_name@, subs.take(0)) =~= base);
            }
            while di < root_node.subfolders.len()
                invariant
                    di <= root_node.subfolders.len(),
                    cache_wf(c),
                    c == hashmap@,
                    assoc_has_key(c, root_name@),
                    node == assoc_value(c, root_name@),
                    node == root_node@,
                    subs == node.subfolders,
                    node.wf(),
                    subs.len() == root_node.subfolders@.len(),
                    elem_views(out_vec@) == base + spec_walk_subs(c, root_name@, subs.take(
                        di as int,
                    )),
                decreases root_node.subfolders.len() - di,
            {
                let dir = &root_node.subfolders[di];
                proof {
                    assert(subs[di as int] == dir@);
                    assert(subs[di as int].len() > 0);
                }
                let ghost pre = elem_views(out_vec@);
                out_vec.push(FileElement::new(FileType::Directory, dir.clone()));
                proof {
                    assert(elem_views(out_vec@) =~= pre + seq![
                        (ElemModel { kind: FileType::Directory, name: dir@ }),
                    ]);
                }
                let joined = file_path_build(root_name, dir.as_str());
                if hashmap.contains_key(joined.as_str()) {
                    proof {
                        lemma_assoc_key_len_le_max(c, root_name@);
                        assert(joined@.len() > root_name@.len());
                    }
                    walk_tree_recursive(out_vec, joined.as_str(), hashmap);
                }
                proof {
                    let head = seq![(ElemModel { kind: FileType::Directory, name: dir@ })];
                    let below = if assoc_has_key(c, spec_path_join(root_name@, dir@)) {
                        spec_walk_entries(c, spec_path_join(root_name@, dir@))
                    } else {
                        Seq::<ElemModel>::empty()
                    };
                    assert(elem_views(out_vec@) =~= pre + (head + below));
                    assert(subs.take(di + 1) =~= subs.take(di as int) + seq![subs[di as int]]);
                    lemma_walk_subs_concat(c, root_name@, subs.take(di as int), seq![
                        subs[di as int],
                    ]);
                    let single = seq![subs[di as int]];
                    assert(single.first() == dir@);
                    assert forall|j: int| 0 <= j < single.len() implies (
                    #[trigger] single[j]).len() > 0 by {
                        assert(single[j] == subs[di as int]);
                    }
                    assert(single.drop_first() =~= Seq::<Seq<char>>::empty());
                    assert(spec_walk_subs(c, root_name@, single.drop_first()) == Seq::<
                        ElemModel,
                    >::empty());
                    assert(spec_walk_subs(c, root_name@, single) == head + below + Seq::<
                        ElemModel,
                    >::empty());
                    assert(head + below + Seq::<ElemModel>::empty() =~= head + below);
                    assert(spec_walk_subs(c, root_name@, single) =~= head + below);
                    assert(elem_views(out_vec@) =~= base + spec_walk_subs(c, root_name@, subs.take(
                        di + 1,
                    )));
                }
                di = di + 1;
            }
            proof {
                assert(subs.take(subs.len() as int) =~= subs);
            }
            let ghost base2 = elem_views(out_vec@);
            let mut si: usize = 0;
            proof {
                assert(node.songs.take(0) =~= Seq::<Seq<char>>::empty());
                assert(song_elems(root_name@, node.songs.take(0)) =~= Seq::<ElemModel>::empty());
                assert(base2 + song_elems(root_name@, node.songs.take(0)) =~= base2);
            }
            while si < root_node.songs.len()
                invariant
                    si <= root_node.songs.len(),
                    node == root_node@,
                    node.songs.len() == root_node.songs@.len(),
                    elem_views(out_vec@) == base2 + song_elems(root_name@, node.songs.take(
                        si as int,
                    )),
                decreases root_node.songs.len() - si,
            {
                let song = &root_node.songs[si];
                let ghost pre = elem_views(out_vec@);
                let path = file_path_build(root_name, song.as_str());
                out_vec.push(FileElement::new(FileType::AudioFile, path));
                proof {
                    assert(song@ == node.songs[si as int]);
                    assert(elem_views(out_vec@) =~= pre.push(
                        (ElemModel {
                            kind: FileType::AudioFile,
                            name: spec_path_join(root_name@, node.songs[si as int]),
                        }),
                    ));
                    assert(node.songs.take(si + 1) =~= node.songs.take(si as int).push(
                        node.songs[si as int],
                    ));
                    assert(song_elems(root_name@, node.songs.take(si + 1)) =~= song_elems(
                        root_name@,
                        node.songs.take(si as int),
                    ).push(
                        (ElemModel {
                            kind: FileType::AudioFile,
                            name: spec_path_join(root_name@, node.songs[si as int]),
                        }),
                    ));
                    assert(elem_views(out_vec@) =~= base2 + song_elems(
                        root_name@,
                        node.songs.take(si + 1),
                    ));
                }
                si = si + 1;
            }
            proof {
                assert(node.songs.take(node.songs.len() as int) =~= node.songs);
                assert(elem_views(out_vec@) =~= elem_views(old(out_vec)@) + spec_walk_entries(
                    hashmap@,
                    root_name@,
                ));
            }
        },
    }
}

/// Walks the directory tree below `root_name` through the cache, replacing
/// `out_vec` with the flattened display list: the root's own row, a row per
/// listed subfolder — expanded depth-first when its joined path is cached —
/// then the root's audio files; an uncached root yields an empty list.
pub fn walk_tree(out_vec: &mut Vec<FileElement>, root_name: &str, hashmap: &TreeCache)
    ensures
        elem_views(final(out_vec)@) == spec_walk(hashmap@, root_name@),
{
    out_vec.clear();
    let known = hashmap.contains_key(root_name);
    if known {
        out_vec.push(FileElement::new(FileType::Directory, String::from_str(root_name)));
        proof {
            assert(elem_views(out_vec@) =~= seq![
                (ElemModel { kind: FileType::Directory, name: root_name@ }),
            ]);
        }
        walk_tree_recursive(out_vec, root_name, hashmap);
    } else {
        proof {
            assert(elem_views(out_vec@) =~= Seq::<ElemModel>::empty());
        }
    }
}

/// Joins a folder path and a file name with exactly one separator: when the
/// folder already ends in `/` or `\` the two are concatenated directly,
/// otherwise a `/` is inserted between them.
pub open spec fn spec_path_join(folder: Seq<char>, file: Seq<char>) -> Seq<char> {
    if folder.len() > 0 && is_separator(folder.last()) {
        folder + file
    } else {
        folder + seq!['/'] + file
    }
}

/// Builds the path of a file inside a folder, inserting a `/` only when the
/// folder path does not already end in a separator, so the result never
/// holds a doubled separator at the seam.
pub fn file_path_build(folder_paths: &str, file_name: &str) -> (r: String)
    ensures
        r@ == spec_path_join(folder_paths@, file_name@),
{
    let ends_sep = ends_in_separator(folder_paths);
    let mut r = String::from_str(folder_paths);
    if !ends_sep {
        r.append("/");
        proof {
            reveal_strlit("/");
            assert(r@ =~= folder_paths@ + seq!['/']);
        }
    }
    r.append(file_name);
    proof {
        if ends_sep {
            assert(r@ =~= folder_paths@ + file_name@);
        } else {
            assert(r@ =~= folder_paths@ + seq!['/'] + file_name@);
        }
    }
    r
}

} // verus!
