//! The playback session: the one piece of state the interface thread and the
//! watchdog thread share. It keeps the current track, the end-of-track
//! policy, the wall-clock anchor that position bookkeeping is computed from,
//! the metadata map and the flattened browse list. The output sink, the
//! decoder and the clock live outside; their observations (paused, drained,
//! the time now in milliseconds) are handed in as plain values, and every
//! state change is decided here.

use crate::assoc::{assoc_has_key, assoc_value};
use crate::filetree::{
    elem_views, spec_walk, walk_tree, ElemModel, FileElement, FileType, TreeCache,
};
use crate::metadata::{
    spec_info_of_line, spec_passive_save, song_info_from_line, MetadataStore, SongInfo,
    SongInfoModel,
};
use crate::strings::{
    ends_in_separator, find_last_separator, is_separator, last_sep_index, lemma_last_sep_index,
    reduce_song_name, spec_ends_in_separator, spec_reduced, str_eq, string_views,
};
use rand::Rng;
use vstd::prelude::*;

verus! {

/// What plays when the current track ends.
#[derive(PartialEq, Eq, Structural, Clone, Copy, Debug)]
pub enum SelectionType {
    Nothing,
    Loop,
    Shuffle,
    Next,
}

/// Relies on `rand::thread_rng` and `rand::Rng::gen_range`: a random index
/// below `n`; `gen_range` panics on an empty range, so `n` must be positive.
#[verifier::external_body]
pub(crate) fn rand_index_below(n: usize) -> (r: usize)
    requires
        n > 0,
    ensures
        r < n,
{
    rand::thread_rng().gen_range(0..n)
}

/// The shared session state.
pub struct PlaybackSession {
    pub search_text_results: String,
    pub search_results: Vec<usize>,
    pub sel_type: SelectionType,
    pub cur_song_index: usize,
    pub anchor_ms: u64,
    pub song_folder: String,
    pub start_milis: u64,
    pub position: u64,
    pub total_duration: u64,
    pub current_song_info: SongInfo,
    pub dat_map: MetadataStore,
    pub song_data_exists: bool,
    pub current_playing_song: Option<String>,
    pub prewalked: Vec<FileElement>,
}

/// The view of an optional track path.
pub open spec fn opt_view(o: Option<String>) -> Option<Seq<char>> {
    match o {
        Option::Some(s) => Option::Some(s@),
        Option::None => Option::None,
    }
}

/// The views of an optional list of lines to write.
pub open spec fn opt_lines_views(o: Option<Vec<String>>) -> Option<Seq<Seq<char>>> {
    match o {
        Option::Some(v) => Option::Some(string_views(v@)),
        Option::None => Option::None,
    }
}

/// The cumulative listened time after flushing the span since the anchor.
pub open spec fn spec_flushed_time(time: u128, anchor_ms: u64, now_ms: u64) -> u128 {
    let e: int = if now_ms >= anchor_ms {
        now_ms - anchor_ms
    } else {
        0
    };
    if time + e > u128::MAX {
        u128::MAX
    } else {
        (time + e) as u128
    }
}

/// The displayed position at wall-clock `now_ms`: the offset frozen at the
/// anchor plus the time since the anchor, never past the total duration.
pub open spec fn spec_position(anchor_ms: u64, start_milis: u64, total: u64, now_ms: u64) -> u64 {
    let e: int = if now_ms >= anchor_ms {
        now_ms - anchor_ms
    } else {
        0
    };
    let raw: int = if start_milis + e > u64::MAX {
        u64::MAX as int
    } else {
        start_milis + e
    };
    if raw <= total {
        raw as u64
    } else {
        total
    }
}

/// Position monotonicity: with the anchor and offset fixed, the computed
/// position never decreases as the clock advances, and it never exceeds the
/// total duration.
pub proof fn lemma_position_monotonic(
    anchor_ms: u64,
    start_milis: u64,
    total: u64,
    t1: u64,
    t2: u64,
)
    requires
        t1 <= t2,
    ensures
        spec_position(anchor_ms, start_milis, total, t1) <= spec_position(
            anchor_ms,
            start_milis,
            total,
            t2,
        ),
        spec_position(anchor_ms, start_milis, total, t1) <= total,
{
}

/// Computes the displayed position from the anchor bookkeeping.
pub fn compute_position(anchor_ms: u64, start_milis: u64, total: u64, now_ms: u64) -> (r: u64)
    ensures
        r == spec_position(anchor_ms, start_milis, total, now_ms),
{
    let elapsed = now_ms.saturating_sub(anchor_ms);
    let raw = start_milis.saturating_add(elapsed);
    if raw <= total {
        raw
    } else {
        total
    }
}

impl PlaybackSession {
    /// Builds the session at startup: no track loaded, the default folder,
    /// the given metadata map, and — when the startup scan found a first
    /// song with a stored record — that record shown as the current one.
    pub fn new(dat_map: MetadataStore, first_song: Option<&String>, now_ms: u64) -> (r: Self)
        ensures
            r.search_text_results@.len() == 0,
            r.search_results@.len() == 0,
            r.sel_type == SelectionType::Nothing,
            r.cur_song_index == 0,
            r.anchor_ms == now_ms,
            r.song_folder@ == "songs/"@,
            r.start_milis == 0,
            r.position == 0,
            r.total_duration == 0,
            r.dat_map@ == dat_map@,
            r.current_playing_song is None,
            r.prewalked@.len() == 0,
            first_song is Some && assoc_has_key(dat_map@, first_song.unwrap()@) ==> (
            r.song_data_exists && r.current_song_info@ == spec_info_of_line(
                assoc_value(dat_map@, first_song.unwrap()@),
            )),
            !(first_song is Some && assoc_has_key(dat_map@, first_song.unwrap()@)) ==> (
            !r.song_data_exists && r.current_song_info@.name.len() == 0
                && r.current_song_info@.artist.len() == 0 && r.current_song_info@.genre.len() == 0
                && r.current_song_info@.time_listened == 0),
    {
        let mut new_si = SongInfo::default();
        let mut data_found = false;
        if let Some(item) = first_song {
            let line = match dat_map.get(item.as_str()) {
                Some(l) => Some(l.clone()),
                None => None,
            };
            if let Some(line) = line {
                new_si = song_info_from_line(line.as_str());
                data_found = true;
            }
        }
        Self {
            search_text_results: String::new(),
            search_results: Vec::new(),
            sel_type: SelectionType::Nothing,
            cur_song_index: 0,
            anchor_ms: now_ms,
            song_folder: String::from_str("songs/"),
            start_milis: 0,
            position: 0,
            total_duration: 0,
            current_song_info: new_si,
            dat_map: dat_map,
            song_data_exists: data_found,
            current_playing_song: None,
            prewalked: Vec::new(),
        }
    }

    /// Adds the span since the anchor to the cumulative listened time.
    fn flush_listened(&mut self, now_ms: u64)
        ensures
            final(self).current_song_info.nodisplay_time_listened == spec_flushed_time(
                old(self).current_song_info.nodisplay_time_listened,
                old(self).anchor_ms,
                now_ms,
            ),
            final(self).current_song_info.name == old(self).current_song_info.name,
            final(self).current_song_info.artist == old(self).current_song_info.artist,
            final(self).current_song_info.genre == old(self).current_song_info.genre,
            final(self).search_text_results == old(self).search_text_results,
            final(self).search_results == old(self).search_results,
            final(self).sel_type == old(self).sel_type,
            final(self).cur_song_index == old(self).cur_song_index,
            final(self).anchor_ms == old(self).anchor_ms,
            final(self).song_folder == old(self).song_folder,
            final(self).start_milis == old(self).start_milis,
            final(self).position == old(self).position,
            final(self).total_duration == old(self).total_duration,
            final(self).dat_map == old(self).dat_map,
            final(self).song_data_exists == old(self).song_data_exists,
            final(self).current_playing_song == old(self).current_playing_song,
            final(self).prewalked == old(self).prewalked,
    {
        let elapsed = now_ms.saturating_sub(self.anchor_ms);
        self.current_song_info.nodisplay_time_listened =
            self.current_song_info.nodisplay_time_listened.saturating_add(elapsed as u128);
    }

    /// The pause transition: the sink is paused outside; here the listened
    /// time is flushed, a passive save runs when the browse list is not
    /// empty, and the displayed position is frozen as the new offset.
    pub fn on_pause(&mut self, now_ms: u64) -> (w: Option<Vec<String>>)
        ensures
            final(self).current_song_info.nodisplay_time_listened == spec_flushed_time(
                old(self).current_song_info.nodisplay_time_listened,
                old(self).anchor_ms,
                now_ms,
            ),
            final(self).current_song_info.name == old(self).current_song_info.name,
            final(self).current_song_info.artist == old(self).current_song_info.artist,
            final(self).current_song_info.genre == old(self).current_song_info.genre,
            final(self).start_milis == old(self).position,
            final(self).anchor_ms == old(self).anchor_ms,
            final(self).position == old(self).position,
            final(self).total_duration == old(self).total_duration,
            final(self).sel_type == old(self).sel_type,
            final(self).cur_song_index == old(self).cur_song_index,
            final(self).song_folder == old(self).song_folder,
            final(self).current_playing_song == old(self).current_playing_song,
            final(self).prewalked == old(self).prewalked,
            final(self).song_data_exists == old(self).song_data_exists,
            final(self).search_text_results == old(self).search_text_results,
            final(self).search_results == old(self).search_results,
            old(self).prewalked@.len() == 0 ==> final(self).dat_map@ == old(self).dat_map@ && w
                is None,
            old(self).prewalked@.len() != 0 ==> spec_passive_save(
                old(self).dat_map@,
                final(self).dat_map@,
                opt_view(old(self).current_playing_song),
                final(self).current_song_info@,
                opt_lines_views(w),
            ),
    {
        self.flush_listened(now_ms);
        let current = match &self.current_playing_song {
            Some(s) => Some(s.clone()),
            None => None,
        };
        let w = if self.prewalked.len() != 0 {
            self.dat_map.save_data_noinsert(current.as_ref(), &self.current_song_info)
        } else {
            None
        };
        self.start_milis = self.position;
        w
    }

    /// The resume transition: the sink is unpaused outside; the anchor is
    /// reset to now so no listened time is counted twice.
    pub fn on_resume(&mut self, now_ms: u64)
        ensures
            final(self).anchor_ms == now_ms,
            final(self).current_song_info == old(self).current_song_info,
            final(self).start_milis == old(self).start_milis,
            final(self).position == old(self).position,
            final(self).total_duration == old(self).total_duration,
            final(self).sel_type == old(self).sel_type,
            final(self).cur_song_index == old(self).cur_song_index,
            final(self).song_folder == old(self).song_folder,
            final(self).current_playing_song == old(self).current_playing_song,
            final(self).prewalked == old(self).prewalked,
            final(self).dat_map == old(self).dat_map,
            final(self).song_data_exists == old(self).song_data_exists,
            final(self).search_text_results == old(self).search_text_results,
            final(self).search_results == old(self).search_results,
    {
        self.anchor_ms = now_ms;
    }

    /// A drag of the position control: the listened time so far is flushed,
    /// the anchor moves to now and the dragged position becomes the new
    /// offset; the seek itself is a best effort of the sink outside.
    pub fn on_seek(&mut self, new_position: u64, now_ms: u64)
        ensures
            final(self).position == new_position,
            final(self).start_milis == new_position,
            final(self).anchor_ms == now_ms,
            final(self).current_song_info.nodisplay_time_listened == spec_flushed_time(
                old(self).current_song_info.nodisplay_time_listened,
                old(self).anchor_ms,
                now_ms,
            ),
            final(self).current_song_info.name == old(self).current_song_info.name,
            final(self).current_song_info.artist == old(self).current_song_info.artist,
            final(self).current_song_info.genre == old(self).current_song_info.genre,
            final(self).total_duration == old(self).total_duration,
            final(self).sel_type == old(self).sel_type,
            final(self).cur_song_index == old(self).cur_song_index,
            final(self).song_folder == old(self).song_folder,
            final(self).current_playing_song == old(self).current_playing_song,
            final(self).prewalked == old(self).prewalked,
            final(self).dat_map == old(self).dat_map,
            final(self).song_data_exists == old(self).song_data_exists,
            final(self).search_text_results == old(self).search_text_results,
            final(self).search_results == old(self).search_results,
    {
        self.position = new_position;
        self.flush_listened(now_ms);
        self.anchor_ms = now_ms;
        self.start_milis = new_position;
    }

    /// Recomputes the displayed position from the anchor while the track is
    /// actually playing and still below its total duration; in every other
    /// state the stored position stays as it is.
    pub fn update_position(&mut self, now_ms: u64, sink_paused: bool, sink_empty: bool)
        ensures
            !sink_paused && !sink_empty && old(self).position < old(self).total_duration ==> final(self).position == spec_position(
                old(self).anchor_ms,
                old(self).start_milis,
                old(self).total_duration,
                now_ms,
            ),
            !(!sink_paused && !sink_empty && old(self).position < old(self).total_duration)
                ==> final(self).position == old(self).position,
            final(self).current_song_info == old(self).current_song_info,
            final(self).start_milis == old(self).start_milis,
            final(self).anchor_ms == old(self).anchor_ms,
            final(self).total_duration == old(self).total_duration,
            final(self).sel_type == old(self).sel_type,
            final(self).cur_song_index == old(self).cur_song_index,
            final(self).song_folder == old(self).song_folder,
            final(self).current_playing_song == old(self).current_playing_song,
            final(self).prewalked == old(self).prewalked,
            final(self).dat_map == old(self).dat_map,
            final(self).song_data_exists == old(self).song_data_exists,
            final(self).search_text_results == old(self).search_text_results,
            final(self).search_results == old(self).search_results,
    {
        if !sink_paused && !sink_empty && self.position < self.total_duration {
            self.position = compute_position(
                self.anchor_ms,
                self.start_milis,
                self.total_duration,
                now_ms,
            );
        }
    }

    /// Shows the stored record of the given track, looked up by its reduced
    /// name: a found record fills every field; a missing one clears only the
    /// display name and the listened time.
    pub fn update_cursong_data(&mut self, song_name: &str) -> (r: bool)
        ensures
            r == assoc_has_key(old(self).dat_map@, spec_reduced(song_name@)),
            r ==> final(self).current_song_info@ == spec_info_of_line(
                assoc_value(old(self).dat_map@, spec_reduced(song_name@)),
            ),
            !r ==> final(self).current_song_info@.name.len() == 0 && final(self).current_song_info@.time_listened == 0 && final(self).current_song_info.artist == old(self).current_song_info.artist && final(self).current_song_info.genre == old(self).current_song_info.genre,
            final(self).start_milis == old(self).start_milis,
            final(self).anchor_ms == old(self).anchor_ms,
            final(self).position == old(self).position,
            final(self).total_duration == old(self).total_duration,
            final(self).sel_type == old(self).sel_type,
            final(self).cur_song_index == old(self).cur_song_index,
            final(self).song_folder == old(self).song_folder,
            final(self).current_playing_song == old(self).current_playing_song,
            final(self).prewalked == old(self).prewalked,
            final(self).dat_map == old(self).dat_map,
            final(self).song_data_exists == old(self).song_data_exists,
            final(self).search_text_results == old(self).search_text_results,
            final(self).search_results == old(self).search_results,
    {
        let reduced = reduce_song_name(song_name);
        let line = match self.dat_map.get(reduced.as_str()) {
            Some(l) => Some(l.clone()),
            None => None,
        };
        match line {
            Some(l) => {
                self.current_song_info = song_info_from_line(l.as_str());
                true
            },
            None => {
                self.current_song_info.name = String::new();
                self.current_song_info.nodisplay_time_listened = 0;
                false
            },
        }
    }

    /// Loads a new track: the duration comes from the format probe when it
    /// succeeded, else from the decoder's own report; with neither the
    /// session is left untouched and the failure is reported. On success the
    /// position bookkeeping is reset and the track is recorded, with its
    /// index in the browse list found by path (the first match), or zero.
    pub fn begin_track(
        &mut self,
        fp: &str,
        probe_ms: Option<u64>,
        decoder_ms: Option<u64>,
        now_ms: u64,
    ) -> (r: String)
        ensures
            probe_ms is None && decoder_ms is None ==> *final(self) == *old(self) && r@
                == "Error - Couldn't determine song length"@,
            probe_ms is Some || decoder_ms is Some ==> ({
                let pv = elem_views(old(self).prewalked@);
                &&& r@.len() == 0
                &&& final(self).total_duration == (if probe_ms is Some {
                    probe_ms.unwrap()
                } else {
                    decoder_ms.unwrap()
                })
                &&& final(self).anchor_ms == now_ms
                &&& final(self).position == 0
                &&& final(self).start_milis == 0
                &&& final(self).current_playing_song matches Some(cur) && cur@ == fp@
                &&& ((exists|i: int| 0 <= i < pv.len() && (#[trigger] pv[i]).name == fp@) ==> (
                final(self).cur_song_index < pv.len() && pv[final(self).cur_song_index as int].name
                    == fp@ && (forall|j: int|
                    0 <= j < final(self).cur_song_index ==> (#[trigger] pv[j]).name != fp@)))
                &&& ((forall|i: int| 0 <= i < pv.len() ==> (#[trigger] pv[i]).name != fp@) ==> final(self).cur_song_index == 0)
                &&& final(self).current_song_info == old(self).current_song_info
                &&& final(self).dat_map == old(self).dat_map
                &&& final(self).prewalked == old(self).prewalked
                &&& final(self).sel_type == old(self).sel_type
                &&& final(self).song_folder == old(self).song_folder
                &&& final(self).song_data_exists == old(self).song_data_exists
                &&& final(self).search_text_results == old(self).search_text_results
                &&& final(self).search_results == old(self).search_results
            }),
    {
        let duration = match probe_ms {
            Some(d) => Some(d),
            None => decoder_ms,
        };
        let total = match duration {
            Some(d) => d,
            None => {
                return String::from_str("Error - Couldn't determine song length");
            },
        };
        self.total_duration = total;
        self.anchor_ms = now_ms;
        self.position = 0;
        self.start_milis = 0;
        self.current_playing_song = Some(String::from_str(fp));
        let mut idx: usize = 0;
        let mut found: usize = 0;
        let mut any = false;
        while idx < self.prewalked.len()
            invariant_except_break
                idx <= self.prewalked.len(),
                !any,
                found == 0,
                forall|j: int|
                    0 <= j < idx ==> (#[trigger] elem_views(self.prewalked@)[j]).name != fp@,
            ensures
                idx <= self.prewalked@.len(),
                any ==> idx < self.prewalked@.len() && elem_views(self.prewalked@)[idx as int].name
                    == fp@ && found == idx,
                forall|j: int|
                    0 <= j < (if any {
                        idx as int
                    } else {
                        self.prewalked@.len() as int
                    }) ==> (#[trigger] elem_views(self.prewalked@)[j]).name != fp@,
                !any ==> found == 0,
            decreases self.prewalked.len() - idx,
        {
            if str_eq(self.prewalked[idx].file_name.as_str(), fp) {
                found = idx;
                any = true;
                break;
            }
            idx = idx + 1;
        }
        self.cur_song_index = found;
        String::new()
    }
}

/// What one end-of-track resolution asks of the caller: a status line for
/// the interface, the path to load and play next (if any), and the lines to
/// rewrite the backing file with (if a passive save ran on a present key).
pub struct EndResolution {
    pub status: String,
    pub to_play: Option<String>,
    pub write_lines: Option<Vec<String>>,
}

/// The wrapping scan index `t` slots after `start`.
pub open spec fn wrap_index(start: int, t: int, len: int) -> int {
    (start + t) % len
}

/// Where the bounded forward scan standing at offset `t` first meets an
/// audio row: an offset below 128, or 128 when the rest of its window holds
/// none.
pub open spec fn next_audio_offset(pv: Seq<ElemModel>, start: int, t: int) -> int
    decreases 128 - t,
    when 1 <= t <= 128 && 0 <= start && pv.len() > 0
{
    if t >= 128 {
        128
    } else if pv[wrap_index(start, t, pv.len() as int)].kind == FileType::AudioFile {
        t
    } else {
        next_audio_offset(pv, start, t + 1)
    }
}

/// Stepping the wrapping scan index by one slot.
proof fn lemma_wrap_step(start: int, t: int, len: int)
    requires
        0 <= start,
        1 <= t,
        len > 0,
    ensures
        0 <= wrap_index(start, t - 1, len) < len,
        0 <= wrap_index(start, t, len) < len,
        wrap_index(start, t, len) == if wrap_index(start, t - 1, len) + 1 == len {
            0int
        } else {
            wrap_index(start, t - 1, len) + 1
        },
{
    let a = start + t - 1;
    vstd::arithmetic::div_mod::lemma_mod_bound(a, len);
    vstd::arithmetic::div_mod::lemma_mod_bound(a + 1, len);
    vstd::arithmetic::div_mod::lemma_add_mod_noop(a, 1, len);
    if len > 1 {
        vstd::arithmetic::div_mod::lemma_small_mod(1nat, len as nat);
        if a % len + 1 == len {
            vstd::arithmetic::div_mod::lemma_mod_self_0(len);
        } else {
            vstd::arithmetic::div_mod::lemma_small_mod((a % len + 1) as nat, len as nat);
        }
    }
}

/// Scans forward from the current index, wrapping around, for the next
/// audio-file row, giving up after a fixed number of slots so a list without
/// audio files cannot hold it forever. The pick is exactly the first audio
/// row of that window.
pub fn get_next_song_bounded(
    prewalked: &Vec<FileElement>,
    start_index: usize,
    vec_size: usize,
) -> (r: Option<String>)
    requires
        vec_size == prewalked@.len(),
        vec_size > 0,
    ensures
        ({
            let pv = elem_views(prewalked@);
            let off = next_audio_offset(pv, start_index as int, 1);
            &&& (off < 128 ==> r is Some && r.unwrap()@ == pv[wrap_index(
                start_index as int,
                off,
                vec_size as int,
            )].name)
            &&& (off == 128 ==> r is None)
        }),
        r is Some ==> (exists|i: int|
            0 <= i < prewalked@.len() && (#[trigger] elem_views(prewalked@)[i]).kind
                == FileType::AudioFile && elem_views(prewalked@)[i].name == r.unwrap()@),
        (forall|i: int|
            0 <= i < prewalked@.len() ==> (#[trigger] elem_views(prewalked@)[i]).kind
                != FileType::AudioFile) ==> r is None,
        (forall|i: int|
            0 <= i < prewalked@.len() ==> (#[trigger] elem_views(prewalked@)[i]).kind
                == FileType::AudioFile) ==> r is Some,
{
    let ghost pv = elem_views(prewalked@);
    let mut probe: usize = start_index % vec_size;
    let mut t: usize = 1;
    proof {
        vstd::arithmetic::div_mod::lemma_mod_bound(start_index as int, vec_size as int);
        assert(probe as int == wrap_index(start_index as int, 0, vec_size as int));
    }
    while t < 128
        invariant
            vec_size == prewalked@.len(),
            vec_size > 0,
            pv == elem_views(prewalked@),
            probe < vec_size,
            1 <= t <= 128,
            probe as int == wrap_index(start_index as int, t as int - 1, vec_size as int),
            next_audio_offset(pv, start_index as int, 1) == next_audio_offset(
                pv,
                start_index as int,
                t as int,
            ),
            t > 1 ==> (exists|i: int|
                0 <= i < prewalked@.len() && (#[trigger] elem_views(prewalked@)[i]).kind
                    != FileType::AudioFile),
        decreases 128 - t,
    {
        proof {
            lemma_wrap_step(start_index as int, t as int, vec_size as int);
        }
        probe = if probe + 1 == vec_size {
            0
        } else {
            probe + 1
        };
        proof {
            assert(probe as int == wrap_index(start_index as int, t as int, vec_size as int));
        }
        let elem = &prewalked[probe];
        proof {
            assert(elem_views(prewalked@)[probe as int] == elem@);
        }
        if elem.file_type == FileType::AudioFile {
            proof {
                assert(next_audio_offset(pv, start_index as int, t as int) == t as int);
            }
            return Some(elem.file_name.clone());
        }
        proof {
            assert(next_audio_offset(pv, start_index as int, t as int) == next_audio_offset(
                pv,
                start_index as int,
                t as int + 1,
            ));
        }
        t = t + 1;
    }
    proof {
        assert(next_audio_offset(pv, start_index as int, 1) == 128);
    }
    None
}

/// Draws random rows until one is an audio file, giving up after a fixed
/// number of draws so a list without audio files cannot hold it forever.
pub fn get_random_song_bounded(prewalked: &Vec<FileElement>) -> (r: Option<String>)
    requires
        prewalked@.len() > 0,
    ensures
        r is Some ==> (exists|i: int|
            0 <= i < prewalked@.len() && (#[trigger] elem_views(prewalked@)[i]).kind
                == FileType::AudioFile && elem_views(prewalked@)[i].name == r.unwrap()@),
        (forall|i: int|
            0 <= i < prewalked@.len() ==> (#[trigger] elem_views(prewalked@)[i]).kind
                != FileType::AudioFile) ==> r is None,
        (forall|i: int|
            0 <= i < prewalked@.len() ==> (#[trigger] elem_views(prewalked@)[i]).kind
                == FileType::AudioFile) ==> r is Some,
{
    let mut t: usize = 0;
    while t < 100
        invariant
            prewalked@.len() > 0,
            t <= 100,
            t > 0 ==> (exists|i: int|
                0 <= i < prewalked@.len() && (#[trigger] elem_views(prewalked@)[i]).kind
                    != FileType::AudioFile),
        decreases 100 - t,
    {
        let random_index = rand_index_below(prewalked.len());
        let elem = &prewalked[random_index];
        proof {
            assert(elem_views(prewalked@)[random_index as int] == elem@);
        }
        if elem.file_type == FileType::AudioFile {
            return Some(elem.file_name.clone());
        }
        t = t + 1;
    }
    None
}

impl PlaybackSession {
    /// The flush, passive save and bounded choice shared by the advancing
    /// policies: the listened time of the track being left is flushed and
    /// passively saved, the anchor moves to now, and when a next track was
    /// found its stored record replaces the shown one.
    fn resolve_advance(&mut self, now_ms: u64, random_pick: bool) -> (r: EndResolution)
        requires
            old(self).prewalked@.len() > 0,
        ensures
            ({
                let pv = elem_views(old(self).prewalked@);
                let flushed = (SongInfoModel {
                    name: old(self).current_song_info@.name,
                    artist: old(self).current_song_info@.artist,
                    genre: old(self).current_song_info@.genre,
                    time_listened: spec_flushed_time(
                        old(self).current_song_info.nodisplay_time_listened,
                        old(self).anchor_ms,
                        now_ms,
                    ),
                });
                &&& final(self).anchor_ms == now_ms
                &&& spec_passive_save(
                    old(self).dat_map@,
                    final(self).dat_map@,
                    opt_view(old(self).current_playing_song),
                    flushed,
                    opt_lines_views(r.write_lines),
                )
                &&& (r.to_play is Some ==> (exists|i: int|
                    0 <= i < pv.len() && (#[trigger] pv[i]).kind == FileType::AudioFile && pv[
                        i].name == r.to_play.unwrap()@))
                &&& ((forall|i: int|
                    0 <= i < pv.len() ==> (#[trigger] pv[i]).kind != FileType::AudioFile)
                    ==> r.to_play is None && r.status@ == "Song you tried to play doesn't exist"@)
                &&& ((forall|i: int|
                    0 <= i < pv.len() ==> (#[trigger] pv[i]).kind == FileType::AudioFile)
                    ==> r.to_play is Some)
                &&& (r.to_play is Some ==> r.status@.len() == 0)
                &&& (r.to_play is None ==> r.status@
                    == "Song you tried to play doesn't exist"@)
                &&& (r.to_play is Some ==> ({
                    let key = spec_reduced(r.to_play.unwrap()@);
                    &&& final(self).song_data_exists == assoc_has_key(final(self).dat_map@, key)
                    &&& (assoc_has_key(final(self).dat_map@, key) ==> final(self).current_song_info@ == spec_info_of_line(
                        assoc_value(final(self).dat_map@, key),
                    ))
                    &&& (!assoc_has_key(final(self).dat_map@, key) ==> final(self).current_song_info@.name.len() == 0 && final(self).current_song_info@.time_listened == 0)
                }))
                &&& (r.to_play is None ==> final(self).current_song_info@ == flushed && final(self).song_data_exists == old(self).song_data_exists)
                &&& (!random_pick ==> ({
                    let off = next_audio_offset(pv, old(self).cur_song_index as int, 1);
                    &&& (off < 128 ==> r.to_play is Some && r.to_play.unwrap()@ == pv[wrap_index(
                        old(self).cur_song_index as int,
                        off,
                        pv.len() as int,
                    )].name)
                    &&& (off == 128 ==> r.to_play is None)
                }))
                &&& final(self).position == old(self).position
                &&& final(self).start_milis == old(self).start_milis
                &&& final(self).total_duration == old(self).total_duration
                &&& final(self).sel_type == old(self).sel_type
                &&& final(self).cur_song_index == old(self).cur_song_index
                &&& final(self).song_folder == old(self).song_folder
                &&& final(self).current_playing_song == old(self).current_playing_song
                &&& final(self).prewalked == old(self).prewalked
                &&& final(self).search_text_results == old(self).search_text_results
                &&& final(self).search_results == old(self).search_results
            }),
    {
        self.flush_listened(now_ms);
        self.anchor_ms = now_ms;
        let current = match &self.current_playing_song {
            Some(s) => Some(s.clone()),
            None => None,
        };
        let w = self.dat_map.save_data_noinsert(current.as_ref(), &self.current_song_info);
        let vec_size = self.prewalked.len();
        let item = if random_pick {
            get_random_song_bounded(&self.prewalked)
        } else {
            get_next_song_bounded(&self.prewalked, self.cur_song_index, vec_size)
        };
        match item {
            Some(item) => {
                let exists_rec = self.update_cursong_data(item.as_str());
                self.song_data_exists = exists_rec;
                EndResolution {
                    status: String::new(),
                    to_play: Some(item),
                    write_lines: w,
                }
            },
            None => EndResolution {
                status: String::from_str("Song you tried to play doesn't exist"),
                to_play: None,
                write_lines: w,
            },
        }
    }
}

/// Resolves the end of a track under the selected policy: the inactive
/// policy leaves the session exactly as it was with an empty status; an
/// active policy over an empty browse list only reports; Loop re-plays the
/// current track after flushing and passively saving its listened time; Next
/// and Shuffle flush and save likewise, then pick the following or a random
/// audio row within a fixed bound, giving up gracefully when none is found.
pub fn handle_song_end(sel_type: SelectionType, app: &mut PlaybackSession, now_ms: u64) -> (r:
    EndResolution)
    ensures
        sel_type == SelectionType::Nothing ==> (*final(app) == *old(app) && r.status@.len() == 0
            && r.to_play is None && r.write_lines is None),
        sel_type != SelectionType::Nothing && old(app).prewalked@.len() == 0 ==> (*final(app)
            == *old(app) && r.status@ == "Error: No songs in current directory"@ && r.to_play
            is None && r.write_lines is None),
        sel_type == SelectionType::Loop && old(app).prewalked@.len() > 0 && old(app).current_playing_song is None ==> (*final(app) == *old(app) && r.status@
            == "How did you even cause this error??"@ && r.to_play is None && r.write_lines
            is None),
        sel_type == SelectionType::Loop && old(app).prewalked@.len() > 0 && old(app).current_playing_song is Some ==> ({
            let flushed = (SongInfoModel {
                name: old(app).current_song_info@.name,
                artist: old(app).current_song_info@.artist,
                genre: old(app).current_song_info@.genre,
                time_listened: spec_flushed_time(
                    old(app).current_song_info.nodisplay_time_listened,
                    old(app).anchor_ms,
                    now_ms,
                ),
            });
            &&& r.status@.len() == 0
            &&& r.to_play is Some
            &&& r.to_play.unwrap()@ == old(app).current_playing_song.unwrap()@
            &&& final(app).current_song_info@ == flushed
            &&& spec_passive_save(
                old(app).dat_map@,
                final(app).dat_map@,
                opt_view(old(app).current_playing_song),
                flushed,
                opt_lines_views(r.write_lines),
            )
            &&& final(app).anchor_ms == old(app).anchor_ms
            &&& final(app).position == old(app).position
            &&& final(app).start_milis == old(app).start_milis
            &&& final(app).total_duration == old(app).total_duration
            &&& final(app).sel_type == old(app).sel_type
            &&& final(app).cur_song_index == old(app).cur_song_index
            &&& final(app).song_folder == old(app).song_folder
            &&& final(app).current_playing_song == old(app).current_playing_song
            &&& final(app).prewalked == old(app).prewalked
            &&& final(app).song_data_exists == old(app).song_data_exists
            &&& final(app).search_text_results == old(app).search_text_results
            &&& final(app).search_results == old(app).search_results
        }),
        (sel_type == SelectionType::Next || sel_type == SelectionType::Shuffle) && old(app).prewalked@.len() > 0 ==> ({
            let pv = elem_views(old(app).prewalked@);
            let flushed = (SongInfoModel {
                name: old(app).current_song_info@.name,
                artist: old(app).current_song_info@.artist,
                genre: old(app).current_song_info@.genre,
                time_listened: spec_flushed_time(
                    old(app).current_song_info.nodisplay_time_listened,
                    old(app).anchor_ms,
                    now_ms,
                ),
            });
            &&& final(app).anchor_ms == now_ms
            &&& spec_passive_save(
                old(app).dat_map@,
                final(app).dat_map@,
                opt_view(old(app).current_playing_song),
                flushed,
                opt_lines_views(r.write_lines),
            )
            &&& (r.to_play is Some ==> (exists|i: int|
                0 <= i < pv.len() && (#[trigger] pv[i]).kind == FileType::AudioFile && pv[i].name
                    == r.to_play.unwrap()@))
            &&& ((forall|i: int|
                0 <= i < pv.len() ==> (#[trigger] pv[i]).kind != FileType::AudioFile) ==> r.to_play
                is None && r.status@ == "Song you tried to play doesn't exist"@)
            &&& ((forall|i: int|
                0 <= i < pv.len() ==> (#[trigger] pv[i]).kind == FileType::AudioFile) ==> r.to_play
                is Some)
            &&& (r.to_play is Some ==> r.status@.len() == 0)
            &&& (r.to_play is None ==> r.status@ == "Song you tried to play doesn't exist"@)
            &&& (sel_type == SelectionType::Next ==> ({
                let off = next_audio_offset(pv, old(app).cur_song_index as int, 1);
                &&& (off < 128 ==> r.to_play is Some && r.to_play.unwrap()@ == pv[wrap_index(
                    old(app).cur_song_index as int,
                    off,
                    pv.len() as int,
                )].name)
                &&& (off == 128 ==> r.to_play is None)
            }))
            &&& (r.to_play is Some ==> ({
                let key = spec_reduced(r.to_play.unwrap()@);
                &&& final(app).song_data_exists == assoc_has_key(final(app).dat_map@, key)
                &&& (assoc_has_key(final(app).dat_map@, key) ==> final(app).current_song_info@
                    == spec_info_of_line(assoc_value(final(app).dat_map@, key)))
                &&& (!assoc_has_key(final(app).dat_map@, key) ==> final(app).current_song_info@.name.len() == 0 && final(app).current_song_info@.time_listened == 0)
            }))
            &&& (r.to_play is None ==> final(app).current_song_info@ == flushed && final(app).song_data_exists == old(app).song_data_exists)
            &&& final(app).prewalked == old(app).prewalked
            &&& final(app).current_playing_song == old(app).current_playing_song
            &&& final(app).sel_type == old(app).sel_type
            &&& final(app).song_folder == old(app).song_folder
            &&& final(app).position == old(app).position
            &&& final(app).start_milis == old(app).start_milis
            &&& final(app).total_duration == old(app).total_duration
            &&& final(app).cur_song_index == old(app).cur_song_index
            &&& final(app).search_text_results == old(app).search_text_results
            &&& final(app).search_results == old(app).search_results
        }),
{
    if sel_type != SelectionType::Nothing && app.prewalked.len() == 0 {
        return EndResolution {
            status: String::from_str("Error: No songs in current directory"),
            to_play: None,
            write_lines: None,
        };
    }
    match sel_type {
        SelectionType::Nothing => EndResolution {
            status: String::new(),
            to_play: None,
            write_lines: None,
        },
        SelectionType::Loop => {
            let fp = match &app.current_playing_song {
                Some(s) => Some(s.clone()),
                None => None,
            };
            match fp {
                Some(fp) => {
                    app.flush_listened(now_ms);
                    let current = match &app.current_playing_song {
                        Some(s) => Some(s.clone()),
                        None => None,
                    };
                    let w = app.dat_map.save_data_noinsert(
                        current.as_ref(),
                        &app.current_song_info,
                    );
                    EndResolution { status: String::new(), to_play: Some(fp), write_lines: w }
                },
                None => EndResolution {
                    status: String::from_str("How did you even cause this error??"),
                    to_play: None,
                    write_lines: None,
                },
            }
        },
        SelectionType::Next => app.resolve_advance(now_ms, false),
        SelectionType::Shuffle => app.resolve_advance(now_ms, true),
    }
}

impl PlaybackSession {
    /// The skip action: the sink was stopped outside; the position is
    /// cleared, the end-of-track policy resolved as if the track had
    /// drained, and the anchor bookkeeping reset. The resolution itself is
    /// exactly what the end-of-track resolver promises for the session's
    /// policy.
    pub fn skip_track(&mut self, now_ms: u64) -> (r: EndResolution)
        ensures
            final(self).position == 0,
            final(self).start_milis == 0,
            final(self).anchor_ms == now_ms,
            final(self).sel_type == old(self).sel_type,
            final(self).song_folder == old(self).song_folder,
            final(self).prewalked == old(self).prewalked,
            final(self).current_playing_song == old(self).current_playing_song,
            final(self).total_duration == old(self).total_duration,
            final(self).cur_song_index == old(self).cur_song_index,
            final(self).search_text_results == old(self).search_text_results,
            final(self).search_results == old(self).search_results,
            old(self).sel_type == SelectionType::Nothing ==> (r.status@.len() == 0 && r.to_play
                is None && r.write_lines is None && final(self).dat_map@ == old(self).dat_map@
                && final(self).current_song_info == old(self).current_song_info && final(self).song_data_exists == old(self).song_data_exists),
            old(self).sel_type != SelectionType::Nothing && old(self).prewalked@.len() == 0 ==> (
            r.status@ == "Error: No songs in current directory"@ && r.to_play is None
                && r.write_lines is None && final(self).dat_map@ == old(self).dat_map@ && final(self).current_song_info == old(self).current_song_info && final(self).song_data_exists
                == old(self).song_data_exists),
            old(self).sel_type == SelectionType::Loop && old(self).prewalked@.len() > 0 && old(self).current_playing_song is None ==> (r.status@
                == "How did you even cause this error??"@ && r.to_play is None && r.write_lines
                is None && final(self).dat_map@ == old(self).dat_map@ && final(self).current_song_info == old(self).current_song_info && final(self).song_data_exists
                == old(self).song_data_exists),
            old(self).sel_type == SelectionType::Loop && old(self).prewalked@.len() > 0 && old(self).current_playing_song is Some ==> ({
                let flushed = (SongInfoModel {
                    name: old(self).current_song_info@.name,
                    artist: old(self).current_song_info@.artist,
                    genre: old(self).current_song_info@.genre,
                    time_listened: spec_flushed_time(
                        old(self).current_song_info.nodisplay_time_listened,
                        old(self).anchor_ms,
                        now_ms,
                    ),
                });
                &&& r.status@.len() == 0
                &&& r.to_play is Some
                &&& r.to_play.unwrap()@ == old(self).current_playing_song.unwrap()@
                &&& final(self).current_song_info@ == flushed
                &&& spec_passive_save(
                    old(self).dat_map@,
                    final(self).dat_map@,
                    opt_view(old(self).current_playing_song),
                    flushed,
                    opt_lines_views(r.write_lines),
                )
                &&& final(self).song_data_exists == old(self).song_data_exists
            }),
            (old(self).sel_type == SelectionType::Next || old(self).sel_type
                == SelectionType::Shuffle) && old(self).prewalked@.len() > 0 ==> ({
                let pv = elem_views(old(self).prewalked@);
                let flushed = (SongInfoModel {
                    name: old(self).current_song_info@.name,
                    artist: old(self).current_song_info@.artist,
                    genre: old(self).current_song_info@.genre,
                    time_listened: spec_flushed_time(
                        old(self).current_song_info.nodisplay_time_listened,
                        old(self).anchor_ms,
                        now_ms,
                    ),
                });
                &&& spec_passive_save(
                    old(self).dat_map@,
                    final(self).dat_map@,
                    opt_view(old(self).current_playing_song),
                    flushed,
                    opt_lines_views(r.write_lines),
                )
                &&& (r.to_play is Some ==> (exists|i: int|
                    0 <= i < pv.len() && (#[trigger] pv[i]).kind == FileType::AudioFile && pv[
                        i].name == r.to_play.unwrap()@))
                &&& ((forall|i: int|
                    0 <= i < pv.len() ==> (#[trigger] pv[i]).kind != FileType::AudioFile)
                    ==> r.to_play is None && r.status@
                    == "Song you tried to play doesn't exist"@)
                &&& ((forall|i: int|
                    0 <= i < pv.len() ==> (#[trigger] pv[i]).kind == FileType::AudioFile)
                    ==> r.to_play is Some)
                &&& (r.to_play is Some ==> r.status@.len() == 0)
                &&& (r.to_play is None ==> r.status@
                    == "Song you tried to play doesn't exist"@)
                &&& (old(self).sel_type == SelectionType::Next ==> ({
                    let off = next_audio_offset(pv, old(self).cur_song_index as int, 1);
                    &&& (off < 128 ==> r.to_play is Some && r.to_play.unwrap()@ == pv[wrap_index(
                        old(self).cur_song_index as int,
                        off,
                        pv.len() as int,
                    )].name)
                    &&& (off == 128 ==> r.to_play is None)
                }))
                &&& (r.to_play is Some ==> ({
                    let key = spec_reduced(r.to_play.unwrap()@);
                    &&& final(self).song_data_exists == assoc_has_key(final(self).dat_map@, key)
                    &&& (assoc_has_key(final(self).dat_map@, key) ==> final(self).current_song_info@ == spec_info_of_line(
                        assoc_value(final(self).dat_map@, key),
                    ))
                    &&& (!assoc_has_key(final(self).dat_map@, key) ==> final(self).current_song_info@.name.len() == 0 && final(self).current_song_info@.time_listened == 0)
                }))
                &&& (r.to_play is None ==> final(self).current_song_info@ == flushed && final(self).song_data_exists == old(self).song_data_exists)
            }),
    {
        self.position = 0;
        let sel = self.sel_type;
        let r = handle_song_end(sel, self, now_ms);
        self.anchor_ms = now_ms;
        self.start_milis = 0;
        r
    }

    /// One refresh of the browse list: the folder text becomes the active
    /// folder, the listened time is flushed and passively saved, the
    /// flattened walk is rebuilt from the cache, the playing track's row is
    /// looked up again in the fresh list, and its stored record re-read.
    pub fn refresh_walk(&mut self, cache: &TreeCache, new_folder: String, now_ms: u64) -> (w:
        Option<Vec<String>>)
        ensures
            ({
                let flushed = (SongInfoModel {
                    name: old(self).current_song_info@.name,
                    artist: old(self).current_song_info@.artist,
                    genre: old(self).current_song_info@.genre,
                    time_listened: spec_flushed_time(
                        old(self).current_song_info.nodisplay_time_listened,
                        old(self).anchor_ms,
                        now_ms,
                    ),
                });
                let newpv = spec_walk(cache@, new_folder@);
                &&& final(self).song_folder == new_folder
                &&& final(self).anchor_ms == now_ms
                &&& elem_views(final(self).prewalked@) == newpv
                &&& spec_passive_save(
                    old(self).dat_map@,
                    final(self).dat_map@,
                    opt_view(old(self).current_playing_song),
                    flushed,
                    opt_lines_views(w),
                )
                &&& final(self).current_playing_song == old(self).current_playing_song
                &&& final(self).position == old(self).position
                &&& final(self).start_milis == old(self).start_milis
                &&& final(self).total_duration == old(self).total_duration
                &&& final(self).sel_type == old(self).sel_type
                &&& final(self).song_data_exists == old(self).song_data_exists
                &&& final(self).search_text_results == old(self).search_text_results
                &&& final(self).search_results == old(self).search_results
                &&& (old(self).cur_song_index >= old(self).prewalked@.len() ==> final(self).cur_song_index == 0)
                &&& (old(self).cur_song_index < old(self).prewalked@.len() ==> ({
                    let ofn = elem_views(old(self).prewalked@)[old(self).cur_song_index as int].name;
                    &&& ((exists|i: int|
                        0 <= i < newpv.len() && (#[trigger] newpv[i]).kind == FileType::AudioFile
                            && newpv[i].name == ofn) ==> (final(self).cur_song_index < newpv.len()
                        && newpv[final(self).cur_song_index as int].kind == FileType::AudioFile
                        && newpv[final(self).cur_song_index as int].name == ofn && (forall|j: int|
                        0 <= j < final(self).cur_song_index ==> !((#[trigger] newpv[j]).kind
                            == FileType::AudioFile && newpv[j].name == ofn))))
                    &&& ((forall|i: int|
                        0 <= i < newpv.len() ==> !((#[trigger] newpv[i]).kind
                            == FileType::AudioFile && newpv[i].name == ofn)) ==> final(self).cur_song_index == old(self).cur_song_index)
                }))
                &&& (old(self).current_playing_song is Some ==> ({
                    let key = spec_reduced(old(self).current_playing_song.unwrap()@);
                    &&& (assoc_has_key(final(self).dat_map@, key) ==> final(self).current_song_info@ == spec_info_of_line(
                        assoc_value(final(self).dat_map@, key),
                    ))
                    &&& (!assoc_has_key(final(self).dat_map@, key) ==> final(self).current_song_info@.name.len() == 0 && final(self).current_song_info@.time_listened == 0)
                }))
                &&& (old(self).current_playing_song is None ==> final(self).current_song_info@
                    == flushed)
            }),
    {
        self.song_folder = new_folder;
        self.flush_listened(now_ms);
        self.anchor_ms = now_ms;
        let current = match &self.current_playing_song {
            Some(s) => Some(s.clone()),
            None => None,
        };
        let w = self.dat_map.save_data_noinsert(current.as_ref(), &self.current_song_info);
        let (ofn, ofn_exists) = if self.cur_song_index < self.prewalked.len() {
            (self.prewalked[self.cur_song_index].file_name.clone(), true)
        } else {
            (String::new(), false)
        };
        let folder_now = self.song_folder.clone();
        walk_tree(&mut self.prewalked, folder_now.as_str(), cache);
        if ofn_exists {
            let mut i: usize = 0;
            while i < self.prewalked.len()
                invariant_except_break
                    i <= self.prewalked.len(),
                    forall|j: int|
                        0 <= j < i ==> !((#[trigger] elem_views(self.prewalked@)[j]).kind
                            == FileType::AudioFile && elem_views(self.prewalked@)[j].name == ofn@),
                ensures
                    i <= self.prewalked@.len(),
                    i < self.prewalked@.len() ==> elem_views(self.prewalked@)[i as int].kind
                        == FileType::AudioFile && elem_views(self.prewalked@)[i as int].name
                        == ofn@,
                    forall|j: int|
                        0 <= j < i ==> !((#[trigger] elem_views(self.prewalked@)[j]).kind
                            == FileType::AudioFile && elem_views(self.prewalked@)[j].name == ofn@),
                decreases self.prewalked.len() - i,
            {
                let e = &self.prewalked[i];
                proof {
                    assert(elem_views(self.prewalked@)[i as int] == e@);
                }
                if e.file_type == FileType::AudioFile && str_eq(e.file_name.as_str(), ofn.as_str())
                {
                    break;
                }
                i = i + 1;
            }
            if i < self.prewalked.len() {
                self.cur_song_index = i;
            }
        } else {
            self.cur_song_index = 0;
        }
        let rslt = match &self.current_playing_song {
            Some(s) => Some(s.clone()),
            None => None,
        };
        if let Some(song) = rslt {
            let _ = self.update_cursong_data(song.as_str());
        }
        w
    }
}

/// The folder text as the walk keys it: kept as typed when empty or already
/// ending in a separator, else with a `/` appended.
pub fn normalize_folder(displayed: &str) -> (r: String)
    ensures
        displayed@.len() == 0 || spec_ends_in_separator(displayed@) ==> r@ == displayed@,
        !(displayed@.len() == 0 || spec_ends_in_separator(displayed@)) ==> r@ == displayed@
            + seq!['/'],
{
    let n = displayed.unicode_len();
    if n == 0 || ends_in_separator(displayed) {
        String::from_str(displayed)
    } else {
        let mut r = String::from_str(displayed);
        r.append("/");
        proof {
            reveal_strlit("/");
            assert(r@ =~= displayed@ + seq!['/']);
        }
        r
    }
}

/// The folder one level above the typed one: any trailing separator is
/// ignored, then everything from the last separator on is cut; a path with
/// no separator left (or one whose only separator leads it) backs up to the
/// empty folder, the current directory.
pub fn parent_folder(displayed: &str) -> (r: String)
    ensures
        ({
            let op = if spec_ends_in_separator(displayed@) {
                displayed@.drop_last()
            } else {
                displayed@
            };
            let l = last_sep_index(op);
            r@ == if l <= 0 {
                Seq::<char>::empty()
            } else {
                displayed@.take(l)
            }
        }),
{
    let n = displayed.unicode_len();
    let operated: &str = if ends_in_separator(displayed) {
        displayed.substring_char(0, n - 1)
    } else {
        displayed
    };
    proof {
        if spec_ends_in_separator(displayed@) {
            assert(operated@ =~= displayed@.drop_last());
        }
        lemma_last_sep_index(operated@);
    }
    match find_last_separator(operated) {
        Some(i) => {
            proof {
                let l = last_sep_index(operated@);
                if l < i as int {
                    assert(!is_separator(operated@[i as int]));
                } else if l > i as int {
                    assert(!is_separator(operated@[l]));
                }
                assert(l == i as int);
            }
            if i == 0 {
                String::new()
            } else {
                let piece = displayed.substring_char(0, i);
                proof {
                    assert(piece@ =~= displayed@.take(i as int));
                }
                String::from_str(piece)
            }
        },
        None => {
            String::new()
        },
    }
}

impl PlaybackSession {
    /// A click on a browse row: when a track was already current, its
    /// listened time is flushed (only if the sink was actually playing) and
    /// passively saved, and the current index moves to the clicked row; then
    /// the clicked track's stored record is shown, the anchor reset, and its
    /// path returned for the caller to open and play.
    pub fn select_song(&mut self, activate_song: usize, now_ms: u64, sink_playing: bool) -> (res: (
        String,
        Option<Vec<String>>,
    ))
        requires
            activate_song < old(self).prewalked@.len(),
        ensures
            ({
                let item = elem_views(old(self).prewalked@)[activate_song as int].name;
                let flushed = (SongInfoModel {
                    name: old(self).current_song_info@.name,
                    artist: old(self).current_song_info@.artist,
                    genre: old(self).current_song_info@.genre,
                    time_listened: if sink_playing {
                        spec_flushed_time(
                            old(self).current_song_info.nodisplay_time_listened,
                            old(self).anchor_ms,
                            now_ms,
                        )
                    } else {
                        old(self).current_song_info.nodisplay_time_listened
                    },
                });
                let key = spec_reduced(item);
                &&& res.0@ == item
                &&& final(self).anchor_ms == now_ms
                &&& final(self).prewalked == old(self).prewalked
                &&& final(self).current_playing_song == old(self).current_playing_song
                &&& final(self).position == old(self).position
                &&& final(self).start_milis == old(self).start_milis
                &&& final(self).total_duration == old(self).total_duration
                &&& final(self).sel_type == old(self).sel_type
                &&& final(self).song_folder == old(self).song_folder
                &&& final(self).search_text_results == old(self).search_text_results
                &&& final(self).search_results == old(self).search_results
                &&& (old(self).current_playing_song is Some ==> final(self).cur_song_index
                    == activate_song)
                &&& (old(self).current_playing_song is None ==> final(self).cur_song_index == old(self).cur_song_index)
                &&& (old(self).current_playing_song is Some ==> spec_passive_save(
                    old(self).dat_map@,
                    final(self).dat_map@,
                    opt_view(old(self).current_playing_song),
                    flushed,
                    opt_lines_views(res.1),
                ))
                &&& (old(self).current_playing_song is None ==> final(self).dat_map@ == old(self).dat_map@ && res.1 is None)
                &&& final(self).song_data_exists == assoc_has_key(final(self).dat_map@, key)
                &&& (assoc_has_key(final(self).dat_map@, key) ==> final(self).current_song_info@
                    == spec_info_of_line(assoc_value(final(self).dat_map@, key)))
                &&& (!assoc_has_key(final(self).dat_map@, key) ==> final(self).current_song_info@.name.len() == 0 && final(self).current_song_info@.time_listened == 0)
            }),
    {
        let item = self.prewalked[activate_song].file_name.clone();
        proof {
            assert(elem_views(self.prewalked@)[activate_song as int]
                == self.prewalked@[activate_song as int]@);
        }
        let old_song = match &self.current_playing_song {
            Some(s) => Some(s.clone()),
            None => None,
        };
        let w = match old_song {
            Some(old_s) => {
                if sink_playing {
                    self.flush_listened(now_ms);
                }
                let held = Some(old_s);
                let w = self.dat_map.save_data_noinsert(held.as_ref(), &self.current_song_info);
                self.cur_song_index = activate_song;
                w
            },
            None => None,
        };
        let data_exists = self.update_cursong_data(item.as_str());
        self.anchor_ms = now_ms;
        self.song_data_exists = data_exists;
        (item, w)
    }
}

} // verus!
