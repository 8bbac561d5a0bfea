//! The per-track metadata store: a mapping from a track's reduced name (its
//! basename) to one verbatim line of the delimited backing file, in column
//! order key, display name, artist, genre, cumulative listened milliseconds.
//! Reading and writing the backing file happens outside; this module parses,
//! validates, serializes and keeps the in-memory map, and proves that a saved
//! record survives a reload.

use crate::assoc::{
    assoc_has_key, assoc_keys_unique, assoc_value, lemma_assoc_entry_at,
    lemma_assoc_has_key_exists, lemma_assoc_update,
};
use crate::numtext::{all_digits, digits_val, parse_u128_or_zero, spec_digits, u128_to_string};
use crate::strings::string_views;
use vstd::prelude::*;

verus! {

/// The editable per-track record: display name, artist, genre and the
/// cumulative milliseconds the track has been listened to.
pub struct SongInfo {
    pub name: String,
    pub artist: String,
    pub genre: String,
    pub nodisplay_time_listened: u128,
}

/// The mathematical value of a `SongInfo`.
pub ghost struct SongInfoModel {
    pub name: Seq<char>,
    pub artist: Seq<char>,
    pub genre: Seq<char>,
    pub time_listened: u128,
}

impl View for SongInfo {
    type V = SongInfoModel;

    open spec fn view(&self) -> SongInfoModel {
        SongInfoModel {
            name: self.name@,
            artist: self.artist@,
            genre: self.genre@,
            time_listened: self.nodisplay_time_listened,
        }
    }
}

impl Default for SongInfo {
    /// The empty record: blank fields, nothing listened yet.
    fn default() -> (r: Self)
        ensures
            r@.name.len() == 0,
            r@.artist.len() == 0,
            r@.genre.len() == 0,
            r@.time_listened == 0,
    {
        Self {
            name: String::new(),
            artist: String::new(),
            genre: String::new(),
            nodisplay_time_listened: 0,
        }
    }
}

/// How a save attempt ended. `NoError` means no attempt has run yet.
#[derive(PartialEq, Eq, Structural, Clone, Copy, Debug)]
pub enum DataSaveError {
    Success,
    NoError,
    FileOpenFail,
    NoSongToSave,
    NonexistentSong,
    IllegalChar,
}

/// The string holds the record delimiter.
pub open spec fn has_delim(s: Seq<char>) -> bool {
    exists|i: int| 0 <= i < s.len() && s[i] == ','
}

/// Whether any character of the string is the record delimiter.
pub fn contains_comma(s: &str) -> (r: bool)
    ensures
        r == has_delim(s@),
{
    let n = s.unicode_len();
    let mut i: usize = 0;
    while i < n
        invariant
            n == s@.len(),
            i <= n,
            forall|k: int| 0 <= k < i ==> s@[k] != ',',
        decreases n - i,
    {
        if s.get_char(i) == ',' {
            return true;
        }
        i = i + 1;
    }
    false
}

/// The index of the first delimiter, or the length when there is none.
pub open spec fn first_comma(s: Seq<char>) -> nat
    decreases s.len(),
{
    if s.len() == 0 {
        0
    } else if s[0] == ',' {
        0
    } else {
        1 + first_comma(s.drop_first())
    }
}

pub proof fn lemma_first_comma(s: Seq<char>)
    ensures
        first_comma(s) <= s.len(),
        first_comma(s) < s.len() ==> s[first_comma(s) as int] == ',',
        forall|j: int| 0 <= j < first_comma(s) ==> s[j] != ',',
        first_comma(s) == s.len() ==> !has_delim(s),
        has_delim(s) ==> first_comma(s) < s.len(),
    decreases s.len(),
{
    if s.len() > 0 && s[0] != ',' {
        lemma_first_comma(s.drop_first());
        let t = s.drop_first();
        assert forall|j: int| 0 <= j < first_comma(s) implies s[j] != ',' by {
            if j > 0 {
                assert(s[j] == t[j - 1]);
            }
        }
        if first_comma(s) < s.len() {
            assert(s[first_comma(s) as int] == t[first_comma(t) as int]);
        }
        if first_comma(s) == s.len() && has_delim(s) {
            let w = choose|w: int| 0 <= w < s.len() && s[w] == ',';
            assert(false);
        }
    } else if s.len() > 0 {
        assert(has_delim(s));
    } else {
        if has_delim(s) {
            let w = choose|w: int| 0 <= w < s.len() && s[w] == ',';
            assert(false);
        }
    }
}

/// The first delimiter of a string known to have one at `k` with none
/// before.
pub proof fn lemma_first_comma_at(s: Seq<char>, k: int)
    requires
        0 <= k < s.len(),
        s[k] == ',',
        forall|j: int| 0 <= j < k ==> s[j] != ',',
    ensures
        first_comma(s) == k,
{
    lemma_first_comma(s);
    if first_comma(s) < k {
        assert(s[first_comma(s) as int] == ',');
        assert(false);
    }
    if first_comma(s) > k {
        assert(s[k] != ',');
        assert(false);
    }
}

/// The fields of a delimited line, splitting at every delimiter; always at
/// least one field.
pub open spec fn spec_split(s: Seq<char>) -> Seq<Seq<char>>
    decreases s.len(),
{
    let i = first_comma(s);
    if i < s.len() {
        seq![s.take(i as int)] + spec_split(s.skip(i as int + 1))
    } else {
        seq![s]
    }
}

/// Splitting a comma-free field off the front.
pub proof fn lemma_split_prefix(a: Seq<char>, rest: Seq<char>)
    requires
        !has_delim(a),
    ensures
        spec_split(a + seq![','] + rest) == seq![a] + spec_split(rest),
        first_comma(a + seq![','] + rest) == a.len(),
{
    let s = a + seq![','] + rest;
    assert(s[a.len() as int] == ',');
    assert forall|j: int| 0 <= j < a.len() implies s[j] != ',' by {
        assert(s[j] == a[j]);
        assert(!(exists|i: int| 0 <= i < a.len() && a[i] == ','));
    }
    lemma_first_comma_at(s, a.len() as int);
    assert(s.take(a.len() as int) =~= a);
    assert(s.skip(a.len() as int + 1) =~= rest);
}

/// A comma-free string is one whole field.
pub proof fn lemma_split_single(a: Seq<char>)
    requires
        !has_delim(a),
    ensures
        spec_split(a) == seq![a],
{
    lemma_first_comma(a);
    if first_comma(a) < a.len() {
        assert(has_delim(a));
    }
}

/// Splits a line at every delimiter, yielding its fields in order.
pub fn split_commas(s: &str) -> (r: Vec<String>)
    ensures
        string_views(r@) == spec_split(s@),
{
    let n = s.unicode_len();
    let mut fields: Vec<String> = Vec::new();
    let mut start: usize = 0;
    proof {
        assert(s@.skip(0) =~= s@);
        assert(string_views(fields@) =~= Seq::<Seq<char>>::empty());
        assert(string_views(fields@) + spec_split(s@.skip(0)) =~= spec_split(s@));
    }
    loop
        invariant
            n == s@.len(),
            start <= n,
            spec_split(s@) == string_views(fields@) + spec_split(s@.skip(start as int)),
        decreases n - start,
    {
        let ghost tail = s@.skip(start as int);
        let mut j: usize = start;
        while j < n
            invariant_except_break
                start <= j <= n,
                n == s@.len(),
                forall|k: int| start <= k < j ==> s@[k] != ',',
            ensures
                start <= j <= n,
                forall|k: int| start <= k < j ==> s@[k] != ',',
                j < n ==> s@[j as int] == ',',
            decreases n - j,
        {
            if s.get_char(j) == ',' {
                break;
            }
            j = j + 1;
        }
        let piece = s.substring_char(start, j);
        let field = String::from_str(piece);
        fields.push(field);
        proof {
            assert(field@ =~= tail.take(j - start as int));
        }
        if j < n {
            proof {
                assert(tail[j - start as int] == ',');
                assert forall|k: int| 0 <= k < j - start as int implies tail[k] != ',' by {
                    assert(tail[k] == s@[start + k]);
                }
                lemma_first_comma_at(tail, j - start as int);
                assert(spec_split(tail) == seq![tail.take(j - start as int)] + spec_split(
                    tail.skip(j - start as int + 1),
                ));
                assert(tail.skip(j - start as int + 1) =~= s@.skip(j + 1));
                assert(string_views(fields@) =~= string_views(fields@.drop_last()).push(field@));
                assert(string_views(fields@) + spec_split(s@.skip(j + 1)) =~= (string_views(
                    fields@.drop_last(),
                ) + spec_split(tail)));
            }
            start = j + 1;
        } else {
            proof {
                assert forall|k: int| 0 <= k < tail.len() implies tail[k] != ',' by {
                    assert(tail[k] == s@[start + k]);
                }
                if has_delim(tail) {
                    let w = choose|w: int| 0 <= w < tail.len() && tail[w] == ',';
                    assert(false);
                }
                lemma_split_single(tail);
                assert(field@ =~= tail);
                assert(string_views(fields@) =~= string_views(fields@.drop_last()).push(field@));
                assert(string_views(fields@) =~= string_views(fields@.drop_last()) + spec_split(
                    tail,
                ));
            }
            return fields;
        }
    }
}

/// One serialized record: the five fields joined by the delimiter, with the
/// listened time in canonical decimal.
pub open spec fn spec_record_line(
    key: Seq<char>,
    name: Seq<char>,
    artist: Seq<char>,
    genre: Seq<char>,
    time: u128,
) -> Seq<char> {
    key + seq![','] + name + seq![','] + artist + seq![','] + genre + seq![','] + spec_digits(
        time as nat,
    )
}

/// Serializes one record for the backing file.
pub fn record_line(key: &str, info: &SongInfo) -> (r: String)
    ensures
        r@ == spec_record_line(key@, info@.name, info@.artist, info@.genre, info@.time_listened),
{
    let mut r = String::from_str(key);
    r.append(",");
    r.append(info.name.as_str());
    r.append(",");
    r.append(info.artist.as_str());
    r.append(",");
    r.append(info.genre.as_str());
    r.append(",");
    let time = u128_to_string(info.nodisplay_time_listened);
    r.append(time.as_str());
    proof {
        reveal_strlit(",");
        assert(","@ =~= seq![',']);
        assert(r@ =~= spec_record_line(
            key@,
            info@.name,
            info@.artist,
            info@.genre,
            info@.time_listened,
        ));
    }
    r
}

/// The value a parsed time field stands for: the digits' value when the
/// field is a plain in-range digit string, zero otherwise.
pub open spec fn spec_parse_time(s: Seq<char>) -> u128 {
    if s.len() > 0 && all_digits(s) && digits_val(s) <= u128::MAX as int {
        digits_val(s) as u128
    } else {
        0
    }
}

/// The record a stored line stands for: missing trailing fields default to
/// empty strings and zero time.
pub open spec fn spec_info_of_line(l: Seq<char>) -> SongInfoModel {
    let fields = spec_split(l);
    SongInfoModel {
        name: if fields.len() > 1 {
            fields[1]
        } else {
            Seq::empty()
        },
        artist: if fields.len() > 2 {
            fields[2]
        } else {
            Seq::empty()
        },
        genre: if fields.len() > 3 {
            fields[3]
        } else {
            Seq::empty()
        },
        time_listened: if fields.len() > 4 {
            spec_parse_time(fields[4])
        } else {
            0
        },
    }
}

/// Parses a stored line into its record, tolerating missing trailing fields.
pub fn song_info_from_line(l: &str) -> (r: SongInfo)
    ensures
        r@ == spec_info_of_line(l@),
{
    let fields = split_commas(l);
    let name = if fields.len() > 1 {
        fields[1].clone()
    } else {
        String::new()
    };
    let artist = if fields.len() > 2 {
        fields[2].clone()
    } else {
        String::new()
    };
    let genre = if fields.len() > 3 {
        fields[3].clone()
    } else {
        String::new()
    };
    let time: u128 = if fields.len() > 4 {
        parse_u128_or_zero(fields[4].as_str())
    } else {
        0
    };
    proof {
        if fields@.len() > 1 {
            assert(string_views(fields@)[1] == fields@[1]@);
        }
        if fields@.len() > 2 {
            assert(string_views(fields@)[2] == fields@[2]@);
        }
        if fields@.len() > 3 {
            assert(string_views(fields@)[3] == fields@[3]@);
        }
        if fields@.len() > 4 {
            assert(string_views(fields@)[4] == fields@[4]@);
        }
    }
    SongInfo { name: name, artist: artist, genre: genre, nodisplay_time_listened: time }
}

/// The key a stored line is filed under: its first field.
pub open spec fn line_key(l: Seq<char>) -> Seq<char> {
    l.take(first_comma(l) as int)
}

/// After loading these lines in order, some line filed a record under `k`.
pub open spec fn spec_load_has(ls: Seq<Seq<char>>, k: Seq<char>) -> bool
    decreases ls.len(),
{
    if ls.len() == 0 {
        false
    } else {
        (has_delim(ls.last()) && line_key(ls.last()) == k) || spec_load_has(ls.drop_last(), k)
    }
}

/// The record loading these lines leaves under `k`: the last line keyed by
/// it.
pub open spec fn spec_load_value(ls: Seq<Seq<char>>, k: Seq<char>) -> Seq<char>
    decreases ls.len(),
{
    if ls.len() == 0 {
        arbitrary()
    } else if has_delim(ls.last()) && line_key(ls.last()) == k {
        ls.last()
    } else {
        spec_load_value(ls.drop_last(), k)
    }
}

/// The stored lines, in store order.
pub open spec fn assoc_vals(m: Seq<(Seq<char>, Seq<char>)>) -> Seq<Seq<char>> {
    m.map_values(|p: (Seq<char>, Seq<char>)| p.1)
}

/// The in-memory metadata map: reduced track name to verbatim stored line.
pub struct MetadataStore {
    entries: Vec<(String, String)>,
}

impl View for MetadataStore {
    type V = Seq<(Seq<char>, Seq<char>)>;

    closed spec fn view(&self) -> Seq<(Seq<char>, Seq<char>)> {
        self.entries@.map_values(|p: (String, String)| (p.0@, p.1@))
    }
}

impl MetadataStore {
    /// Every store a caller can hold keys its records uniquely; exported so
    /// proofs outside this module can retrieve it with `use_type_invariant`
    /// and discharge the round-trip lemma's premises.
    #[verifier::type_invariant]
    pub open spec fn inv(&self) -> bool {
        assoc_keys_unique(self@)
    }

    pub fn new() -> (r: Self)
        ensures
            r@ == Seq::<(Seq<char>, Seq<char>)>::empty(),
    {
        let r = Self { entries: Vec::new() };
        proof {
            assert(r@ =~= Seq::<(Seq<char>, Seq<char>)>::empty());
        }
        r
    }

    /// The index of the entry holding this key, if any.
    fn position_of(&self, key: &str) -> (r: Option<usize>)
        ensures
            match r {
                Some(i) => i < self@.len() && self@[i as int].0 == key@,
                None => !assoc_has_key(self@, key@),
            },
    {
        let mut i: usize = 0;
        while i < self.entries.len()
            invariant
                i <= self.entries.len(),
                forall|k: int| 0 <= k < i ==> (#[trigger] self@[k]).0 != key@,
            decreases self.entries.len() - i,
        {
            if crate::strings::str_eq(self.entries[i].0.as_str(), key) {
                return Some(i);
            }
            i = i + 1;
        }
        proof {
            lemma_assoc_has_key_exists(self@, key@);
        }
        None
    }

    pub fn contains_key(&self, key: &str) -> (r: bool)
        ensures
            r == assoc_has_key(self@, key@),
    {
        proof {
            use_type_invariant(self);
        }
        let pos = self.position_of(key);
        match pos {
            Some(i) => {
                proof {
                    lemma_assoc_entry_at(self@, i as int);
                }
                true
            },
            None => false,
        }
    }

    pub fn get(&self, key: &str) -> (r: Option<&String>)
        ensures
            match r {
                Some(line) => assoc_has_key(self@, key@) && line@ == assoc_value(self@, key@),
                None => !assoc_has_key(self@, key@),
            },
    {
        proof {
            use_type_invariant(self);
        }
        let pos = self.position_of(key);
        match pos {
            Some(i) => {
                proof {
                    lemma_assoc_entry_at(self@, i as int);
                }
                Some(&self.entries[i].1)
            },
            None => None,
        }
    }

    pub fn len(&self) -> (r: usize)
        ensures
            r == self@.len(),
    {
        self.entries.len()
    }

    /// Files `value` under `key`, replacing any record already there.
    pub fn insert(&mut self, key: String, value: String)
        ensures
            forall|k: Seq<char>|
                assoc_has_key(final(self)@, k) == (k == key@ || assoc_has_key(old(self)@, k)),
            assoc_value(final(self)@, key@) == value@,
            forall|k: Seq<char>|
                k != key@ && assoc_has_key(old(self)@, k) ==> assoc_value(final(self)@, k)
                    == assoc_value(old(self)@, k),
            forall|i: int|
                0 <= i < final(self)@.len() ==> ((#[trigger] final(self)@[i]) == (key@, value@)
                    || old(self)@.contains(final(self)@[i])),
    {
        proof {
            use_type_invariant(&*self);
        }
        let ghost c = self@;
        let pos = self.position_of(key.as_str());
        let mut held: Vec<(String, String)> = Vec::new();
        core::mem::swap(&mut held, &mut self.entries);
        proof {
            assert(self@ =~= Seq::<(Seq<char>, Seq<char>)>::empty());
        }
        match pos {
            Some(i) => {
                proof {
                    lemma_assoc_entry_at(c, i as int);
                    lemma_assoc_update(c, i as int, value@);
                }
                held.set(i, (key, value));
                proof {
                    let u = held@.map_values(|p: (String, String)| (p.0@, p.1@));
                    assert(u =~= c.update(i as int, (c[i as int].0, value@)));
                }
                core::mem::swap(&mut held, &mut self.entries);
                proof {
                    assert(self@ =~= c.update(i as int, (c[i as int].0, value@)));
                    assert forall|w: int| 0 <= w < self@.len() implies ((#[trigger] self@[w]) == (
                        key@,
                        value@,
                    ) || c.contains(self@[w])) by {
                        if w != i as int {
                            assert(self@[w] == c[w]);
                            assert(c.contains(self@[w]));
                        } else {
                            assert(self@[w] == (key@, value@));
                        }
                    }
                }
            },
            None => {
                proof {
                    lemma_assoc_has_key_exists(c, key@);
                }
                held.push((key, value));
                proof {
                    let u = held@.map_values(|p: (String, String)| (p.0@, p.1@));
                    assert(u =~= c.push((key@, value@)));
                    assert(u.drop_last() =~= c);
                    assert forall|p: int, q: int| 0 <= p < q < u.len() implies (
                    #[trigger] u[p]).0 != (#[trigger] u[q]).0 by {
                        if q < u.len() - 1 {
                            assert(u[p] == c[p] && u[q] == c[q]);
                        } else {
                            assert(u[p] == c[p]);
                        }
                    }
                }
                core::mem::swap(&mut held, &mut self.entries);
                proof {
                    assert(self@ =~= c.push((key@, value@)));
                    assert(self@.drop_last() =~= c);
                    assert forall|w: int| 0 <= w < self@.len() implies ((#[trigger] self@[w]) == (
                        key@,
                        value@,
                    ) || c.contains(self@[w])) by {
                        if w < self@.len() - 1 {
                            assert(self@[w] == c[w]);
                            assert(c.contains(self@[w]));
                        }
                    }
                }
            },
        }
    }

    /// Every stored line in store order: what a full rewrite of the backing
    /// file writes.
    pub fn lines(&self) -> (r: Vec<String>)
        ensures
            string_views(r@) == assoc_vals(self@),
    {
        let mut out: Vec<String> = Vec::new();
        let mut i: usize = 0;
        proof {
            assert(string_views(out@) =~= assoc_vals(self@.take(0)));
        }
        while i < self.entries.len()
            invariant
                i <= self.entries.len(),
                self@.len() == self.entries@.len(),
                string_views(out@) == assoc_vals(self@.take(i as int)),
            decreases self.entries.len() - i,
        {
            out.push(self.entries[i].1.clone());
            proof {
                assert(self@.take(i + 1).drop_last() =~= self@.take(i as int));
                assert(string_views(out@) =~= assoc_vals(self@.take(i as int)).push(self@[
                    i as int].1));
                assert(assoc_vals(self@.take(i + 1)) =~= assoc_vals(self@.take(i as int)).push(
                    self@[i as int].1,
                ));
            }
            i = i + 1;
        }
        proof {
            assert(self@.take(self@.len() as int) =~= self@);
        }
        out
    }

    /// Loads the backing file: each line with a delimiter is filed under its
    /// first field, later lines replacing earlier ones; lines without a
    /// delimiter are skipped.
    pub fn load_lines(lines: &Vec<String>) -> (r: Self)
        ensures
            forall|k: Seq<char>|
                assoc_has_key(r@, k) == spec_load_has(string_views(lines@), k),
            forall|k: Seq<char>|
                spec_load_has(string_views(lines@), k) ==> assoc_value(r@, k) == spec_load_value(
                    string_views(lines@),
                    k,
                ),
            forall|i: int|
                0 <= i < r@.len() ==> has_delim((#[trigger] r@[i]).1) && line_key(r@[i].1)
                    == r@[i].0,
    {
        let ghost lv = string_views(lines@);
        let mut store = Self::new();
        let mut i: usize = 0;
        proof {
            assert(lv.take(0) =~= Seq::<Seq<char>>::empty());
        }
        while i < lines.len()
            invariant
                i <= lines.len(),
                lv == string_views(lines@),
                lv.len() == lines@.len(),
                forall|k: Seq<char>| assoc_has_key(store@, k) == spec_load_has(lv.take(i as int), k),
                forall|k: Seq<char>|
                    spec_load_has(lv.take(i as int), k) ==> assoc_value(store@, k)
                        == spec_load_value(lv.take(i as int), k),
                forall|w: int|
                    0 <= w < store@.len() ==> has_delim((#[trigger] store@[w]).1) && line_key(
                        store@[w].1,
                    ) == store@[w].0,
            decreases lines.len() - i,
        {
            let line = &lines[i];
            let n = line.as_str().unicode_len();
            let mut j: usize = 0;
            while j < n
                invariant_except_break
                    j <= n,
                    n == line@.len(),
                    forall|k: int| 0 <= k < j ==> line@[k] != ',',
                ensures
                    j <= n,
                    n == line@.len(),
                    forall|k: int| 0 <= k < j ==> line@[k] != ',',
                    j < n ==> line@[j as int] == ',',
                decreases n - j,
            {
                if line.as_str().get_char(j) == ',' {
                    break;
                }
                j = j + 1;
            }
            proof {
                assert(lv.take(i + 1).drop_last() =~= lv.take(i as int));
                assert(lv.take(i + 1).last() == line@);
            }
            let ghost pre = store@;
            if j < n {
                let piece = line.as_str().substring_char(0, j);
                let key = String::from_str(piece);
                proof {
                    lemma_first_comma_at(line@, j as int);
                    assert(has_delim(line@));
                    assert(key@ =~= line_key(line@));
                }
                store.insert(key, line.clone());
                proof {
                    assert forall|k: Seq<char>|
                        assoc_has_key(store@, k) == spec_load_has(lv.take(i + 1), k) by {
                        assert(assoc_has_key(store@, k) == (k == line_key(line@)
                            || assoc_has_key(pre, k)));
                    }
                    assert forall|w: int|
                        0 <= w < store@.len() implies has_delim((#[trigger] store@[w]).1)
                        && line_key(store@[w].1) == store@[w].0 by {
                        if store@[w] != (line_key(line@), line@) {
                            assert(pre.contains(store@[w]));
                            let u = choose|u: int| 0 <= u < pre.len() && pre[u] == store@[w];
                            assert(has_delim(pre[u].1) && line_key(pre[u].1) == pre[u].0);
                        }
                    }
                    assert forall|k: Seq<char>| spec_load_has(lv.take(i + 1), k) implies assoc_value(
                        store@,
                        k,
                    ) == spec_load_value(lv.take(i + 1), k) by {
                        if k != line_key(line@) {
                            assert(assoc_value(store@, k) == assoc_value(pre, k));
                        }
                    }
                }
            } else {
                proof {
                    lemma_first_comma(line@);
                    if has_delim(line@) {
                        assert(line@[first_comma(line@) as int] == ',');
                        assert(false);
                    }
                    assert forall|k: Seq<char>|
                        assoc_has_key(store@, k) == spec_load_has(lv.take(i + 1), k) by {}
                }
            }
            i = i + 1;
        }
        proof {
            assert(lv.take(lv.len() as int) =~= lv);
        }
        store
    }

    /// The explicit save: refuses when the browse list is empty, when no
    /// track is active, or when any field of the record — the reduced key
    /// included — holds the delimiter; on success files the fresh record
    /// under the track's reduced name and yields every line for a full
    /// rewrite of the backing file.
    pub fn save_data(
        &mut self,
        current_song: Option<&String>,
        info: &SongInfo,
        have_songs: bool,
    ) -> (r: Result<Vec<String>, DataSaveError>)
        ensures
            !have_songs ==> (r == Err::<Vec<String>, DataSaveError>(DataSaveError::NoSongToSave)
                && final(self)@ == old(self)@),
            have_songs && current_song is None ==> (r == Err::<Vec<String>, DataSaveError>(
                DataSaveError::NonexistentSong,
            ) && final(self)@ == old(self)@),
            have_songs && current_song is Some && (has_delim(info@.name) || has_delim(info@.artist)
                || has_delim(info@.genre) || has_delim(
                crate::strings::spec_reduced(current_song.unwrap()@),
            )) ==> (r == Err::<Vec<String>, DataSaveError>(
                DataSaveError::IllegalChar,
            ) && final(self)@ == old(self)@),
            have_songs && current_song is Some && !has_delim(info@.name) && !has_delim(info@.artist)
                && !has_delim(info@.genre) && !has_delim(
                crate::strings::spec_reduced(current_song.unwrap()@),
            ) ==> (r matches Ok(lines) && ({
                let key = crate::strings::spec_reduced(current_song.unwrap()@);
                let line = spec_record_line(
                    key,
                    info@.name,
                    info@.artist,
                    info@.genre,
                    info@.time_listened,
                );
                &&& assoc_has_key(final(self)@, key)
                &&& assoc_value(final(self)@, key) == line
                &&& forall|k: Seq<char>|
                    assoc_has_key(final(self)@, k) == (k == key || assoc_has_key(old(self)@, k))
                &&& forall|k: Seq<char>|
                    k != key && assoc_has_key(old(self)@, k) ==> assoc_value(final(self)@, k)
                        == assoc_value(old(self)@, k)
                &&& forall|i: int|
                    0 <= i < final(self)@.len() ==> ((#[trigger] final(self)@[i]) == (key, line)
                        || old(self)@.contains(final(self)@[i]))
                &&& string_views(lines@) == assoc_vals(final(self)@)
            })),
    {
        if !have_songs {
            return Err(DataSaveError::NoSongToSave);
        }
        match current_song {
            Some(current_s) => {
                let sname = crate::strings::reduce_song_name(current_s.as_str());
                if contains_comma(info.name.as_str()) || contains_comma(info.artist.as_str())
                    || contains_comma(info.genre.as_str()) || contains_comma(sname.as_str()) {
                    return Err(DataSaveError::IllegalChar);
                }
                let data = record_line(sname.as_str(), info);
                self.insert(sname, data);
                Ok(self.lines())
            },
            None => Err(DataSaveError::NonexistentSong),
        }
    }

    /// The passive save: writes the fresh record only when the track already
    /// has one and no field of the record — its key included — holds the
    /// delimiter; in every other case it silently gives up, leaving the
    /// store untouched and asking for no write at all.
    pub fn save_data_noinsert(&mut self, current_song: Option<&String>, info: &SongInfo) -> (r:
        Option<Vec<String>>)
        ensures
            spec_passive_save(
                old(self)@,
                final(self)@,
                match current_song {
                    Option::Some(s) => Option::Some(s@),
                    Option::None => Option::None,
                },
                info@,
                match r {
                    Option::Some(v) => Option::Some(string_views(v@)),
                    Option::None => Option::None,
                },
            ),
    {
        match current_song {
            Some(current_s) => {
                let sname = crate::strings::reduce_song_name(current_s.as_str());
                if contains_comma(sname.as_str()) || contains_comma(info.name.as_str())
                    || contains_comma(info.artist.as_str()) || contains_comma(
                    info.genre.as_str(),
                ) {
                    return None;
                }
                let data = record_line(sname.as_str(), info);
                if self.contains_key(sname.as_str()) {
                    self.insert(sname, data);
                    Some(self.lines())
                } else {
                    None
                }
            },
            None => None,
        }
    }
}

/// What a passive save leaves behind: nothing moves without a current
/// track, without an existing record, or when any field of the fresh record
/// — its key included — holds the delimiter; otherwise exactly the track's
/// record is replaced by the fresh one and every stored line is written out.
pub open spec fn spec_passive_save(
    m0: Seq<(Seq<char>, Seq<char>)>,
    m1: Seq<(Seq<char>, Seq<char>)>,
    song: Option<Seq<char>>,
    info: SongInfoModel,
    wrote: Option<Seq<Seq<char>>>,
) -> bool {
    match song {
        Option::None => m1 == m0 && wrote is None,
        Option::Some(sv) => {
            let key = crate::strings::spec_reduced(sv);
            if !assoc_has_key(m0, key) || has_delim(key) || has_delim(info.name) || has_delim(
                info.artist,
            ) || has_delim(info.genre) {
                m1 == m0 && wrote is None
            } else {
                let line = spec_record_line(
                    key,
                    info.name,
                    info.artist,
                    info.genre,
                    info.time_listened,
                );
                &&& assoc_value(m1, key) == line
                &&& forall|k: Seq<char>| assoc_has_key(m1, k) == assoc_has_key(m0, k)
                &&& forall|k: Seq<char>|
                    k != key && assoc_has_key(m0, k) ==> assoc_value(m1, k) == assoc_value(m0, k)
                &&& forall|i: int|
                    0 <= i < m1.len() ==> ((#[trigger] m1[i]) == (key, line) || m0.contains(m1[i]))
                &&& wrote matches Some(ls) && ls == assoc_vals(m1)
            }
        },
    }
}

/// Splitting a saved record recovers exactly the five fields it was built
/// from, and its first field is its key.
pub proof fn lemma_record_line_fields(
    key: Seq<char>,
    name: Seq<char>,
    artist: Seq<char>,
    genre: Seq<char>,
    time: u128,
)
    requires
        !has_delim(key),
        !has_delim(name),
        !has_delim(artist),
        !has_delim(genre),
    ensures
        spec_split(spec_record_line(key, name, artist, genre, time)) == seq![
            key,
            name,
            artist,
            genre,
            spec_digits(time as nat),
        ],
        has_delim(spec_record_line(key, name, artist, genre, time)),
        line_key(spec_record_line(key, name, artist, genre, time)) == key,
        spec_info_of_line(spec_record_line(key, name, artist, genre, time)) == (SongInfoModel {
            name: name,
            artist: artist,
            genre: genre,
            time_listened: time,
        }),
{
    let digits = spec_digits(time as nat);
    crate::numtext::lemma_digits_roundtrip(time as nat);
    crate::numtext::lemma_digits_no_comma(time as nat);
    if has_delim(digits) {
        let w = choose|w: int| 0 <= w < digits.len() && digits[w] == ',';
        assert(false);
    }
    let line = spec_record_line(key, name, artist, genre, time);
    let r3 = genre + seq![','] + digits;
    let r2 = artist + seq![','] + r3;
    let r1 = name + seq![','] + r2;
    assert(line =~= key + seq![','] + r1);
    lemma_split_prefix(key, r1);
    lemma_split_prefix(name, r2);
    lemma_split_prefix(artist, r3);
    lemma_split_prefix(genre, digits);
    lemma_split_single(digits);
    assert(spec_split(line) == seq![key] + (seq![name] + (seq![artist] + (seq![genre] + seq![
        digits,
    ]))));
    assert(spec_split(line) =~= seq![key, name, artist, genre, digits]);
    assert(line[key.len() as int] == ',');
    assert(has_delim(line));
    assert(line.take(key.len() as int) =~= key);
    assert(spec_parse_time(digits) == time);
}

/// Reloading every stored line of a store whose lines are each keyed by
/// their own first field recovers exactly the store.
pub proof fn lemma_load_of_store(m: Seq<(Seq<char>, Seq<char>)>)
    requires
        assoc_keys_unique(m),
        forall|i: int|
            0 <= i < m.len() ==> has_delim((#[trigger] m[i]).1) && line_key(m[i].1) == m[i].0,
    ensures
        forall|k: Seq<char>| spec_load_has(assoc_vals(m), k) == assoc_has_key(m, k),
        forall|k: Seq<char>|
            assoc_has_key(m, k) ==> spec_load_value(assoc_vals(m), k) == assoc_value(m, k),
    decreases m.len(),
{
    if m.len() > 0 {
        let d = m.drop_last();
        assert forall|i: int| 0 <= i < d.len() implies has_delim((#[trigger] d[i]).1) && line_key(
            d[i].1,
        ) == d[i].0 by {
            assert(d[i] == m[i]);
        }
        lemma_load_of_store(d);
        assert(assoc_vals(m).drop_last() =~= assoc_vals(d));
        assert(assoc_vals(m).last() == m.last().1);
        assert(m[m.len() - 1] == m.last());
        assert(has_delim(m.last().1));
        assert(line_key(m.last().1) == m.last().0);
        assert forall|k: Seq<char>|
            spec_load_has(assoc_vals(m), k) == #[trigger] assoc_has_key(m, k) by {
            assert(spec_load_has(assoc_vals(m), k) == ((has_delim(assoc_vals(m).last())
                && line_key(assoc_vals(m).last()) == k) || spec_load_has(assoc_vals(d), k)));
            assert(assoc_has_key(m, k) == (m.last().0 == k || assoc_has_key(d, k)));
        }
        assert forall|k: Seq<char>| #[trigger] assoc_has_key(m, k) implies spec_load_value(
            assoc_vals(m),
            k,
        ) == assoc_value(m, k) by {
            if k == m.last().0 {
            } else {
                assert(assoc_value(m, k) == assoc_value(d, k));
            }
        }
    }
}

/// Round trip of the metadata store: after a record with a delimiter-free
/// key and delimiter-free fields is filed, rewriting every stored line and
/// loading them back yields a store that holds the key, whose stored line is
/// the record's line, whose first field is the key, and whose parsed fields
/// are exactly what was written. The store's other lines must each be keyed
/// by their own first field, as every loaded or saved line is.
pub proof fn lemma_metadata_roundtrip(
    m: Seq<(Seq<char>, Seq<char>)>,
    key: Seq<char>,
    name: Seq<char>,
    artist: Seq<char>,
    genre: Seq<char>,
    time: u128,
)
    requires
        assoc_keys_unique(m),
        forall|i: int|
            0 <= i < m.len() ==> has_delim((#[trigger] m[i]).1) && line_key(m[i].1) == m[i].0,
        assoc_has_key(m, key),
        assoc_value(m, key) == spec_record_line(key, name, artist, genre, time),
        !has_delim(key),
        !has_delim(name),
        !has_delim(artist),
        !has_delim(genre),
    ensures
        spec_load_has(assoc_vals(m), key),
        spec_load_value(assoc_vals(m), key) == spec_record_line(key, name, artist, genre, time),
        spec_split(spec_load_value(assoc_vals(m), key))[0] == key,
        spec_info_of_line(spec_load_value(assoc_vals(m), key)) == (SongInfoModel {
            name: name,
            artist: artist,
            genre: genre,
            time_listened: time,
        }),
{
    lemma_load_of_store(m);
    lemma_record_line_fields(key, name, artist, genre, time);
}


} // verus!
