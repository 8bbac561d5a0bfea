//! Character-level string utilities shared by the directory tree, the
//! metadata store and the search filter: path-separator tests, suffix tests,
//! a lexicographic order on character sequences, substring search, and a
//! trusted lowercase conversion.

use vstd::prelude::*;

verus! {

/// Path separators accepted everywhere: both `/` and `\`.
pub open spec fn is_separator(c: char) -> bool {
    c == '/' || c == '\\'
}

/// A string ends in a path separator.
pub open spec fn spec_ends_in_separator(s: Seq<char>) -> bool {
    s.len() > 0 && is_separator(s.last())
}

pub fn ends_in_separator(s: &str) -> (r: bool)
    ensures
        r == spec_ends_in_separator(s@),
{
    let n = s.unicode_len();
    if n == 0 {
        false
    } else {
        let c = s.get_char(n - 1);
        c == '/' || c == '\\'
    }
}

/// A string ends with the given suffix.
pub open spec fn spec_ends_with(s: Seq<char>, suffix: Seq<char>) -> bool {
    s.len() >= suffix.len() && s.subrange(s.len() - suffix.len(), s.len() as int) == suffix
}

pub fn ends_with(s: &str, suffix: &str) -> (r: bool)
    ensures
        r == spec_ends_with(s@, suffix@),
{
    let n = s.unicode_len();
    let m = suffix.unicode_len();
    if m > n {
        return false;
    }
    let mut j: usize = 0;
    while j < m
        invariant
            m <= n,
            n == s@.len(),
            m == suffix@.len(),
            j <= m,
            forall|k: int| 0 <= k < j ==> s@[n - m + k] == suffix@[k],
        decreases m - j,
    {
        let cs = s.get_char(n - m + j);
        let cf = suffix.get_char(j);
        if cs != cf {
            assert(s@.subrange(n - m, n as int)[j as int] != suffix@[j as int]);
            return false;
        }
        j = j + 1;
    }
    assert(s@.subrange(n - m, n as int) =~= suffix@);
    true
}

/// Some character of the string is a path separator.
pub open spec fn has_separator(s: Seq<char>) -> bool {
    exists|i: int| 0 <= i < s.len() && is_separator(s[i])
}

/// The character index of the last path separator, if any.
pub fn find_last_separator(s: &str) -> (r: Option<usize>)
    ensures
        match r {
            Some(i) => i < s@.len() && is_separator(s@[i as int]) && (forall|j: int|
                i < j < s@.len() ==> !is_separator(s@[j])),
            None => !has_separator(s@),
        },
{
    let n = s.unicode_len();
    let mut k: usize = n;
    while k > 0
        invariant
            k <= n,
            n == s@.len(),
            forall|j: int| k <= j < s@.len() ==> !is_separator(s@[j]),
        decreases k,
    {
        let c = s.get_char(k - 1);
        if c == '/' || c == '\\' {
            return Some(k - 1);
        }
        k = k - 1;
    }
    None
}

/// The suffix of a path after its last separator: the string itself when it
/// holds no separator.
pub open spec fn spec_reduced(s: Seq<char>) -> Seq<char>
    decreases s.len(),
{
    if s.len() > 0 && has_separator(s) {
        spec_reduced(s.drop_first())
    } else {
        s
    }
}

pub proof fn lemma_reduced_no_separator(s: Seq<char>)
    requires
        !has_separator(s),
    ensures
        spec_reduced(s) == s,
{
}

/// When `i` is the last separator of `s`, the reduced form is exactly the
/// suffix after it.
pub proof fn lemma_reduced_after_last_separator(s: Seq<char>, i: int)
    requires
        0 <= i < s.len(),
        is_separator(s[i]),
        forall|j: int| i < j < s.len() ==> !is_separator(s[j]),
    ensures
        spec_reduced(s) == s.subrange(i + 1, s.len() as int),
    decreases s.len(),
{
    assert(has_separator(s));
    if i == 0 {
        if has_separator(s.drop_first()) {
            let k = choose|k: int| 0 <= k < s.drop_first().len() && is_separator(s.drop_first()[k]);
            assert(s[k + 1] == s.drop_first()[k]);
            assert(false);
        }
        assert(spec_reduced(s.drop_first()) == s.drop_first());
        assert(s.drop_first() =~= s.subrange(1, s.len() as int));
    } else {
        let t = s.drop_first();
        assert(t[i - 1] == s[i]);
        assert forall|j: int| i - 1 < j < t.len() implies !is_separator(t[j]) by {
            assert(t[j] == s[j + 1]);
        }
        lemma_reduced_after_last_separator(t, i - 1);
        assert(t.subrange(i, t.len() as int) =~= s.subrange(i + 1, s.len() as int));
    }
}

/// Strips every folder component of a path, leaving only the part after the
/// last separator (the whole path when it has no separator).
pub fn reduce_song_name(song_name: &str) -> (r: String)
    ensures
        r@ == spec_reduced(song_name@),
{
    let n = song_name.unicode_len();
    match find_last_separator(song_name) {
        Some(i) => {
            let slice = song_name.substring_char(i + 1, n);
            proof {
                lemma_reduced_after_last_separator(song_name@, i as int);
            }
            String::from_str(slice)
        },
        None => {
            proof {
                lemma_reduced_no_separator(song_name@);
            }
            String::from_str(song_name)
        },
    }
}

/// The character index of the last path separator, or a negative value when
/// the string holds none.
pub open spec fn last_sep_index(s: Seq<char>) -> int
    decreases s.len(),
{
    if s.len() == 0 {
        -1
    } else if is_separator(s.last()) {
        s.len() - 1
    } else {
        last_sep_index(s.drop_last())
    }
}

pub proof fn lemma_last_sep_index(s: Seq<char>)
    ensures
        -1 <= last_sep_index(s) < s.len(),
        last_sep_index(s) >= 0 ==> is_separator(s[last_sep_index(s)]) && (forall|j: int|
            last_sep_index(s) < j < s.len() ==> !is_separator(s[j])),
        last_sep_index(s) == -1 ==> !has_separator(s),
    decreases s.len(),
{
    if s.len() > 0 && !is_separator(s.last()) {
        lemma_last_sep_index(s.drop_last());
        let t = s.drop_last();
        if last_sep_index(s) >= 0 {
            assert(s[last_sep_index(s)] == t[last_sep_index(t)]);
            assert forall|j: int| last_sep_index(s) < j < s.len() implies !is_separator(s[j]) by {
                if j < s.len() - 1 {
                    assert(s[j] == t[j]);
                }
            }
        } else {
            if has_separator(s) {
                let w = choose|w: int| 0 <= w < s.len() && is_separator(s[w]);
                assert(w < s.len() - 1);
                assert(t[w] == s[w]);
                assert(has_separator(t));
            }
        }
    }
}

/// The views of a sequence of strings.
pub open spec fn string_views(s: Seq<String>) -> Seq<Seq<char>> {
    s.map_values(|x: String| x@)
}

/// Character-wise string equality.
pub fn str_eq(a: &str, b: &str) -> (r: bool)
    ensures
        r == (a@ == b@),
{
    let na = a.unicode_len();
    let nb = b.unicode_len();
    if na != nb {
        return false;
    }
    let mut i: usize = 0;
    while i < na
        invariant
            na == a@.len(),
            na == b@.len(),
            i <= na,
            forall|k: int| 0 <= k < i ==> a@[k] == b@[k],
        decreases na - i,
    {
        let ca = a.get_char(i);
        let cb = b.get_char(i);
        if ca != cb {
            return false;
        }
        i = i + 1;
    }
    proof {
        assert(a@ =~= b@);
    }
    true
}

/// Lexicographic order on character sequences, by Unicode code point.
pub open spec fn str_le(a: Seq<char>, b: Seq<char>) -> bool
    decreases a.len(),
{
    if a.len() == 0 {
        true
    } else if b.len() == 0 {
        false
    } else if a[0] == b[0] {
        str_le(a.drop_first(), b.drop_first())
    } else {
        (a[0] as u32) < (b[0] as u32)
    }
}

/// The lexicographic order as a relation value, for `sorted_by`.
pub open spec fn str_le_order() -> spec_fn(Seq<char>, Seq<char>) -> bool {
    |a: Seq<char>, b: Seq<char>| str_le(a, b)
}

pub proof fn lemma_str_le_reflexive(a: Seq<char>)
    ensures
        str_le(a, a),
    decreases a.len(),
{
    if a.len() > 0 {
        lemma_str_le_reflexive(a.drop_first());
    }
}

pub proof fn lemma_str_le_antisymmetric(a: Seq<char>, b: Seq<char>)
    requires
        str_le(a, b),
        str_le(b, a),
    ensures
        a == b,
    decreases a.len(),
{
    if a.len() == 0 {
        assert(b.len() == 0);
        assert(a =~= b);
    } else {
        assert(b.len() > 0);
        if a[0] == b[0] {
            lemma_str_le_antisymmetric(a.drop_first(), b.drop_first());
            assert(a.drop_first() == b.drop_first());
            assert(a.drop_first().len() == a.len() - 1);
            assert(b.drop_first().len() == b.len() - 1);
            assert(a.len() == b.len());
            assert forall|i: int| 0 <= i < a.len() implies a[i] == b[i] by {
                if i > 0 {
                    assert(a[i] == a.drop_first()[i - 1]);
                    assert(b[i] == b.drop_first()[i - 1]);
                }
            }
            assert(a =~= b);
        }
    }
}

pub proof fn lemma_str_le_transitive(a: Seq<char>, b: Seq<char>, c: Seq<char>)
    requires
        str_le(a, b),
        str_le(b, c),
    ensures
        str_le(a, c),
    decreases a.len(),
{
    if a.len() > 0 && b.len() > 0 && c.len() > 0 {
        if a[0] == b[0] && b[0] == c[0] {
            lemma_str_le_transitive(a.drop_first(), b.drop_first(), c.drop_first());
        }
    }
}

pub proof fn lemma_str_le_connected(a: Seq<char>, b: Seq<char>)
    ensures
        str_le(a, b) || str_le(b, a),
    decreases a.len(),
{
    if a.len() > 0 && b.len() > 0 {
        if a[0] == b[0] {
            lemma_str_le_connected(a.drop_first(), b.drop_first());
        } else {
            vstd::utf8::char_u32_cast(a[0], a[0] as u32);
            vstd::utf8::char_u32_cast(b[0], b[0] as u32);
            assert(a[0] as u32 != b[0] as u32);
        }
    }
}

/// The lexicographic order is a total order, as `vstd::relations` states it.
pub proof fn lemma_str_le_total_ordering()
    ensures
        vstd::relations::total_ordering(str_le_order()),
{
    let leq = str_le_order();
    assert forall|x: Seq<char>| #[trigger] leq(x, x) by {
        lemma_str_le_reflexive(x);
    }
    assert forall|x: Seq<char>, y: Seq<char>| #[trigger] leq(x, y) && #[trigger] leq(y, x)
        implies x == y by {
        lemma_str_le_antisymmetric(x, y);
    }
    assert forall|x: Seq<char>, y: Seq<char>, z: Seq<char>|
        #[trigger] leq(x, y) && #[trigger] leq(y, z) implies leq(x, z) by {
        lemma_str_le_transitive(x, y, z);
    }
    assert forall|x: Seq<char>, y: Seq<char>| !(#[trigger] leq(x, y)) implies leq(y, x) by {
        lemma_str_le_connected(x, y);
    }
}

/// Decides the lexicographic order on two strings.
pub fn str_le_exec(a: &str, b: &str) -> (r: bool)
    ensures
        r == str_le(a@, b@),
{
    let na = a.unicode_len();
    let nb = b.unicode_len();
    let mut i: usize = 0;
    proof {
        assert(a@.skip(0) =~= a@);
        assert(b@.skip(0) =~= b@);
    }
    loop
        invariant
            na == a@.len(),
            nb == b@.len(),
            i <= na,
            i <= nb,
            str_le(a@, b@) == str_le(a@.skip(i as int), b@.skip(i as int)),
            str_le(b@, a@) == str_le(b@.skip(i as int), a@.skip(i as int)),
        decreases na - i,
    {
        if i == na {
            assert(a@.skip(i as int).len() == 0);
            return true;
        }
        if i == nb {
            assert(b@.skip(i as int).len() == 0);
            assert(a@.skip(i as int).len() > 0);
            return false;
        }
        let ca = a.get_char(i);
        let cb = b.get_char(i);
        assert(a@.skip(i as int)[0] == a@[i as int]);
        assert(b@.skip(i as int)[0] == b@[i as int]);
        if ca == cb {
            proof {
                assert(a@.skip(i as int).drop_first() =~= a@.skip(i as int + 1));
                assert(b@.skip(i as int).drop_first() =~= b@.skip(i as int + 1));
            }
            i = i + 1;
        } else {
            return (ca as u32) < (cb as u32);
        }
    }
}

/// `p` occurs as a contiguous substring of `t`.
pub open spec fn spec_contains_sub(t: Seq<char>, p: Seq<char>) -> bool {
    exists|i: int| 0 <= i && i + p.len() <= t.len() && #[trigger] t.subrange(i, i + p.len()) == p
}

/// Substring search: whether `p` occurs contiguously in `t`.
pub fn contains_sub(t: &str, p: &str) -> (r: bool)
    ensures
        r == spec_contains_sub(t@, p@),
{
    let nt = t.unicode_len();
    let np = p.unicode_len();
    if np > nt {
        return false;
    }
    if np == 0 {
        proof {
            assert(t@.subrange(0, 0) =~= p@);
            assert(0 <= 0int && 0int + p@.len() <= t@.len() && t@.subrange(0, 0int + p@.len())
                == p@);
        }
        return true;
    }
    let mut i: usize = 0;
    while i <= nt - np
        invariant
            0 < np <= nt,
            nt == t@.len(),
            np == p@.len(),
            i <= nt - np + 1,
            forall|k: int| 0 <= k < i ==> #[trigger] t@.subrange(k, k + p@.len()) != p@,
        decreases nt - i,
    {
        let mut j: usize = 0;
        let mut matched = true;
        while j < np
            invariant
                np <= nt,
                nt == t@.len(),
                np == p@.len(),
                i + np <= nt,
                j <= np,
                matched ==> forall|k: int| 0 <= k < j ==> t@[i + k] == p@[k],
                !matched ==> t@.subrange(i as int, i + p@.len()) != p@,
            decreases np - j,
        {
            let ct = t.get_char(i + j);
            let cp = p.get_char(j);
            if ct != cp {
                assert(t@.subrange(i as int, i + p@.len())[j as int] != p@[j as int]);
                matched = false;
                j = np;
            } else {
                j = j + 1;
            }
        }
        if matched {
            proof {
                assert(t@.subrange(i as int, i + p@.len()) =~= p@);
                assert(0 <= i as int && i as int + p@.len() <= t@.len() && t@.subrange(
                    i as int,
                    i as int + p@.len(),
                ) == p@);
            }
            return true;
        }
        i = i + 1;
    }
    assert forall|k: int| 0 <= k && k + p@.len() <= t@.len() implies #[trigger] t@.subrange(
        k,
        k + p@.len(),
    ) != p@ by {
        assert(k < i);
    }
    false
}

/// The lowercase form of a string, named after `str::to_lowercase`: the
/// result depends on the characters alone.
pub uninterp spec fn lower_of(s: Seq<char>) -> Seq<char>;

/// Relies on `str::to_lowercase`: a pure function of the characters; an empty
/// string stays empty.
#[verifier::external_body]
pub(crate) fn lowercase(s: &str) -> (r: String)
    ensures
        r@ == lower_of(s@),
        s@.len() == 0 ==> r@.len() == 0,
{
    s.to_lowercase()
}

} // verus!
