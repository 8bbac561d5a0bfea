//! The search and filter pass over the flattened browse list: a row survives
//! when its lowercased path contains the lowercased search text and, for each
//! nonempty filter, when the track's stored record exists and the filtered
//! field (artist or genre) contains the filter text, case-insensitively.

use crate::assoc::{assoc_has_key, assoc_value};
use crate::filetree::{elem_views, ElemModel, FileElement};
use crate::metadata::{spec_split, split_commas, MetadataStore};
use crate::session::PlaybackSession;
use crate::strings::{
    contains_sub, lower_of, lowercase, reduce_song_name, spec_contains_sub, spec_reduced,
    string_views,
};
use vstd::prelude::*;

verus! {

/// The field a filter reads from a stored record line: empty when the line
/// has too few columns.
pub open spec fn spec_field_of_line(l: Seq<char>, idx: int) -> Seq<char> {
    let fields = spec_split(l);
    if fields.len() > idx {
        fields[idx]
    } else {
        Seq::empty()
    }
}

/// Whether one browse row passes the search text and the two record filters.
pub open spec fn spec_matches_filters(
    e: ElemModel,
    m: Seq<(Seq<char>, Seq<char>)>,
    search: Seq<char>,
    genre: Seq<char>,
    artist: Seq<char>,
) -> bool {
    let reduced = spec_reduced(e.name);
    let genre_ok = genre.len() == 0 || (assoc_has_key(m, reduced) && spec_contains_sub(
        lower_of(spec_field_of_line(assoc_value(m, reduced), 3)),
        lower_of(genre),
    ));
    let artist_ok = artist.len() == 0 || (assoc_has_key(m, reduced) && spec_contains_sub(
        lower_of(spec_field_of_line(assoc_value(m, reduced), 2)),
        lower_of(artist),
    ));
    let search_ok = search.len() == 0 || spec_contains_sub(lower_of(e.name), lower_of(search));
    genre_ok && artist_ok && search_ok
}

/// The indices of the rows that pass the filters, in row order.
pub open spec fn spec_search_results(
    pv: Seq<ElemModel>,
    m: Seq<(Seq<char>, Seq<char>)>,
    search: Seq<char>,
    genre: Seq<char>,
    artist: Seq<char>,
) -> Seq<int>
    decreases pv.len(),
{
    if pv.len() == 0 {
        Seq::empty()
    } else {
        let rest = spec_search_results(pv.drop_last(), m, search, genre, artist);
        if spec_matches_filters(pv.last(), m, search, genre, artist) {
            rest.push(pv.len() - 1)
        } else {
            rest
        }
    }
}

/// The mathematical values of a list of indices.
pub open spec fn usize_views(s: Seq<usize>) -> Seq<int> {
    s.map_values(|u: usize| u as int)
}

/// Computes the browse rows that pass the current search text and filters.
pub fn compute_search_results(
    prewalked: &Vec<FileElement>,
    dat_map: &MetadataStore,
    search_text: &str,
    genre_filter: &str,
    artist_filter: &str,
) -> (r: Vec<usize>)
    ensures
        usize_views(r@) == spec_search_results(
            elem_views(prewalked@),
            dat_map@,
            search_text@,
            genre_filter@,
            artist_filter@,
        ),
{
    let ghost pv = elem_views(prewalked@);
    let ghost m = dat_map@;
    let search_l = lowercase(search_text);
    let genre_l = lowercase(genre_filter);
    let artist_l = lowercase(artist_filter);
    let mut out: Vec<usize> = Vec::new();
    let mut i: usize = 0;
    proof {
        assert(pv.take(0) =~= Seq::<ElemModel>::empty());
        assert(usize_views(out@) =~= spec_search_results(
            pv.take(0),
            m,
            search_text@,
            genre_filter@,
            artist_filter@,
        ));
    }
    while i < prewalked.len()
        invariant
            i <= prewalked.len(),
            pv == elem_views(prewalked@),
            m == dat_map@,
            pv.len() == prewalked@.len(),
            search_l@ == lower_of(search_text@),
            genre_l@ == lower_of(genre_filter@),
            artist_l@ == lower_of(artist_filter@),
            usize_views(out@) == spec_search_results(
                pv.take(i as int),
                m,
                search_text@,
                genre_filter@,
                artist_filter@,
            ),
        decreases prewalked.len() - i,
    {
        let entry = &prewalked[i];
        proof {
            assert(pv[i as int] == entry@);
        }
        let reduced = reduce_song_name(entry.file_name.as_str());
        let mut keep = true;
        if genre_filter.unicode_len() != 0 {
            let line = match dat_map.get(reduced.as_str()) {
                Some(l) => Some(l.clone()),
                None => None,
            };
            match line {
                Some(l) => {
                    let fields = split_commas(l.as_str());
                    let field = if fields.len() > 3 {
                        fields[3].clone()
                    } else {
                        String::new()
                    };
                    proof {
                        if fields@.len() > 3 {
                            assert(string_views(fields@)[3] == fields@[3]@);
                        }
                        assert(field@ == spec_field_of_line(assoc_value(m, reduced@), 3));
                    }
                    let field_l = lowercase(field.as_str());
                    if !contains_sub(field_l.as_str(), genre_l.as_str()) {
                        keep = false;
                    }
                },
                None => {
                    keep = false;
                },
            }
        }
        if keep && artist_filter.unicode_len() != 0 {
            let line = match dat_map.get(reduced.as_str()) {
                Some(l) => Some(l.clone()),
                None => None,
            };
            match line {
                Some(l) => {
                    let fields = split_commas(l.as_str());
                    let field = if fields.len() > 2 {
                        fields[2].clone()
                    } else {
                        String::new()
                    };
                    proof {
                        if fields@.len() > 2 {
                            assert(string_views(fields@)[2] == fields@[2]@);
                        }
                        assert(field@ == spec_field_of_line(assoc_value(m, reduced@), 2));
                    }
                    let field_l = lowercase(field.as_str());
                    if !contains_sub(field_l.as_str(), artist_l.as_str()) {
                        keep = false;
                    }
                },
                None => {
                    keep = false;
                },
            }
        }
        if keep && search_text.unicode_len() != 0 {
            let name_l = lowercase(entry.file_name.as_str());
            if !contains_sub(name_l.as_str(), search_l.as_str()) {
                keep = false;
            }
        }
        proof {
            assert(keep == spec_matches_filters(
                pv[i as int],
                m,
                search_text@,
                genre_filter@,
                artist_filter@,
            ));
            assert(pv.take(i + 1).drop_last() =~= pv.take(i as int));
            assert(pv.take(i + 1).last() == pv[i as int]);
        }
        if keep {
            out.push(i);
            proof {
                assert(usize_views(out@) =~= spec_search_results(
                    pv.take(i + 1),
                    m,
                    search_text@,
                    genre_filter@,
                    artist_filter@,
                ));
            }
        } else {
            proof {
                assert(usize_views(out@) =~= spec_search_results(
                    pv.take(i + 1),
                    m,
                    search_text@,
                    genre_filter@,
                    artist_filter@,
                ));
            }
        }
        i = i + 1;
    }
    proof {
        assert(pv.take(pv.len() as int) =~= pv);
    }
    out
}

/// Recomputes and stores the search results for the current browse list,
/// remembering the search text they were computed for.
pub fn refresh_search(
    session: &mut PlaybackSession,
    search_text: &str,
    genre_filter: &str,
    artist_filter: &str,
)
    ensures
        usize_views(final(session).search_results@) == spec_search_results(
            elem_views(old(session).prewalked@),
            old(session).dat_map@,
            search_text@,
            genre_filter@,
            artist_filter@,
        ),
        final(session).search_text_results@ == search_text@,
        final(session).prewalked == old(session).prewalked,
        final(session).dat_map == old(session).dat_map,
        final(session).current_song_info == old(session).current_song_info,
        final(session).current_playing_song == old(session).current_playing_song,
        final(session).cur_song_index == old(session).cur_song_index,
        final(session).anchor_ms == old(session).anchor_ms,
        final(session).start_milis == old(session).start_milis,
        final(session).position == old(session).position,
        final(session).total_duration == old(session).total_duration,
        final(session).sel_type == old(session).sel_type,
        final(session).song_folder == old(session).song_folder,
        final(session).song_data_exists == old(session).song_data_exists,
{
    let results = compute_search_results(
        &session.prewalked,
        &session.dat_map,
        search_text,
        genre_filter,
        artist_filter,
    );
    session.search_results = results;
    session.search_text_results = String::from_str(search_text);
}

} // verus!
