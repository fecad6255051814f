//! Character sequences: the searches that patterns and paths are built on.
//!
//! Every string is seen as its sequence of characters. Positions and lengths
//! count characters, never bytes.

use vstd::prelude::*;

verus! {

/// `lit` stands in `s` at position `i`.
pub open spec fn occurs_at(s: Seq<char>, lit: Seq<char>, i: int) -> bool {
    &&& 0 <= i
    &&& i + lit.len() <= s.len()
    &&& s.subrange(i, i + lit.len()) == lit
}

/// The least position at or after `from` where `lit` stands in `s`.
pub open spec fn find_from(s: Seq<char>, lit: Seq<char>, from: int) -> Option<int>
    decreases s.len() + 1 - from,
{
    if from < 0 || from + lit.len() > s.len() {
        None
    } else if occurs_at(s, lit, from) {
        Some(from)
    } else {
        find_from(s, lit, from + 1)
    }
}

/// The position of the last `c` in `s`, or -1 where `s` holds none.
pub open spec fn last_index_of(s: Seq<char>, c: char) -> int
    decreases s.len(),
{
    if s.len() == 0 {
        -1
    } else if s.last() == c {
        s.len() - 1
    } else {
        last_index_of(s.drop_last(), c)
    }
}

/// The position of the first `c` in `s`, or the length of `s` where it holds
/// none.
pub open spec fn first_index_of(s: Seq<char>, c: char) -> int
    decreases s.len(),
{
    if s.len() == 0 || s[0] == c {
        0
    } else {
        1 + first_index_of(s.drop_first(), c)
    }
}

/// The pieces of `s` around each `sep` in it, in order: one more than `s`
/// holds separators, each free of them, some perhaps empty.
pub open spec fn split(s: Seq<char>, sep: char) -> Seq<Seq<char>>
    decreases s.len(),
{
    let i = first_index_of(s, sep);
    if 0 <= i < s.len() {
        seq![s.take(i)] + split(s.skip(i + 1), sep)
    } else {
        seq![s]
    }
}

/// What each of `v` holds, in order.
pub open spec fn texts(v: Seq<String>) -> Seq<Seq<char>> {
    v.map_values(|x: String| x@)
}

/// What each of `v` holds, in order.
pub open spec fn strs(v: Seq<&str>) -> Seq<Seq<char>> {
    v.map_values(|x: &str| x@)
}

/// Where `s` has no `c` before position `k`, and one at `k` or its end there,
/// `k` is the position of its first `c`.
pub proof fn lemma_first_index_of(s: Seq<char>, c: char, k: int)
    requires
        0 <= k <= s.len(),
        forall|j: int| 0 <= j < k ==> s[j] != c,
        k < s.len() ==> s[k] == c,
    ensures
        first_index_of(s, c) == k,
    decreases s.len(),
{
    if k > 0 {
        let t = s.drop_first();
        assert forall|j: int| 0 <= j < k - 1 implies t[j] != c by {
            assert(t[j] == s[j + 1]);
        }
        lemma_first_index_of(t, c, k - 1);
    }
}

/// The first `c` of `s` lies in `s` or at its end, with no `c` before it.
pub proof fn lemma_first_index_of_is_first(s: Seq<char>, c: char)
    ensures
        0 <= first_index_of(s, c) <= s.len(),
        first_index_of(s, c) < s.len() ==> s[first_index_of(s, c)] == c,
        forall|j: int| 0 <= j < first_index_of(s, c) ==> s[j] != c,
    decreases s.len(),
{
    if s.len() > 0 && s[0] != c {
        let t = s.drop_first();
        lemma_first_index_of_is_first(t, c);
        assert forall|j: int| 0 <= j < first_index_of(s, c) implies s[j] != c by {
            if j > 0 {
                assert(t[j - 1] == s[j]);
            }
        }
    }
}

/// Splitting gives at least one piece.
pub proof fn lemma_split_nonempty(s: Seq<char>, sep: char)
    ensures
        split(s, sep).len() >= 1,
    decreases s.len(),
{
    let i = first_index_of(s, sep);
    if 0 <= i < s.len() {
        lemma_split_nonempty(s.skip(i + 1), sep);
    }
}

/// Where `s` has a separator at `k` and none from `start` up to it, the pieces
/// from `start` on are the run before `k` and the pieces after `k`.
pub proof fn lemma_split_at(s: Seq<char>, sep: char, start: int, k: int)
    requires
        0 <= start <= k < s.len(),
        forall|j: int| start <= j < k ==> s[j] != sep,
        s[k] == sep,
    ensures
        split(s.skip(start), sep) == seq![s.subrange(start, k)] + split(s.skip(k + 1), sep),
{
    let t = s.skip(start);
    lemma_first_index_of(t, sep, k - start);
    assert(t.take(k - start) =~= s.subrange(start, k));
    assert(t.skip(k - start + 1) =~= s.skip(k + 1));
}

/// Where `s` has no separator from `start` on, what is left is one piece.
pub proof fn lemma_split_rest(s: Seq<char>, sep: char, start: int)
    requires
        0 <= start <= s.len(),
        forall|j: int| start <= j < s.len() ==> s[j] != sep,
    ensures
        split(s.skip(start), sep) == seq![s.skip(start)],
{
    let t = s.skip(start);
    lemma_first_index_of(t, sep, t.len() as int);
}

/// How often `c` occurs in `s`.
pub open spec fn occurrences(s: Seq<char>, c: char) -> nat
    decreases s.len(),
{
    if s.len() == 0 {
        0
    } else if s[0] == c {
        1 + occurrences(s.drop_first(), c)
    } else {
        occurrences(s.drop_first(), c)
    }
}

/// The pieces `parts` put together again, with a `sep` between each two.
pub open spec fn join(parts: Seq<Seq<char>>, sep: char) -> Seq<char>
    decreases parts.len(),
{
    if parts.len() == 0 {
        Seq::empty()
    } else if parts.len() == 1 {
        parts[0]
    } else {
        parts[0] + seq![sep] + join(parts.drop_first(), sep)
    }
}

/// What lies before the first `c` of `s` does not count towards the
/// occurrences of `c`, and that `c` counts once.
proof fn lemma_occurrences_after(s: Seq<char>, c: char, k: int)
    requires
        0 <= k < s.len(),
        forall|j: int| 0 <= j < k ==> s[j] != c,
        s[k] == c,
    ensures
        occurrences(s, c) == 1 + occurrences(s.skip(k + 1), c),
    decreases k,
{
    let t = s.drop_first();
    if k == 0 {
        assert(s.skip(1) =~= t);
    } else {
        assert forall|j: int| 0 <= j < k - 1 implies t[j] != c by {
            assert(t[j] == s[j + 1]);
        }
        assert(t[k - 1] == s[k]);
        lemma_occurrences_after(t, c, k - 1);
        assert(t.skip(k) =~= s.skip(k + 1));
    }
}

/// Where `s` holds no `c` it has no occurrence of it.
proof fn lemma_occurrences_none(s: Seq<char>, c: char)
    requires
        forall|j: int| 0 <= j < s.len() ==> s[j] != c,
    ensures
        occurrences(s, c) == 0,
    decreases s.len(),
{
    if s.len() > 0 {
        let t = s.drop_first();
        assert forall|j: int| 0 <= j < t.len() implies t[j] != c by {
            assert(t[j] == s[j + 1]);
        }
        lemma_occurrences_none(t, c);
    }
}

/// Splitting gives one piece more than there are separators, none of the
/// pieces holds a separator, and the pieces joined by the separator are what
/// was split.
pub proof fn lemma_split_parts_the_whole(s: Seq<char>, sep: char)
    ensures
        split(s, sep).len() == occurrences(s, sep) + 1,
        forall|k: int, j: int|
            0 <= k < split(s, sep).len() && 0 <= j < split(s, sep)[k].len() ==> #[trigger] split(
                s,
                sep,
            )[k][j] != sep,
        join(split(s, sep), sep) == s,
    decreases s.len(),
{
    lemma_first_index_of_is_first(s, sep);
    let i = first_index_of(s, sep);
    if 0 <= i < s.len() {
        let rest = s.skip(i + 1);
        lemma_split_parts_the_whole(rest, sep);
        lemma_split_nonempty(rest, sep);
        lemma_occurrences_after(s, sep, i);
        let parts = split(s, sep);
        assert(parts.drop_first() =~= split(rest, sep));
        assert(parts[0] == s.take(i));
        assert forall|k: int, j: int|
            0 <= k < parts.len() && 0 <= j < parts[k].len() implies #[trigger] parts[k][j]
            != sep by {
            if k > 0 {
                assert(parts[k] == split(rest, sep)[k - 1]);
            }
        }
        assert(s.take(i) + seq![sep] + rest =~= s);
    } else {
        lemma_occurrences_none(s, sep);
    }
}

/// `find_from` gives an occurrence, and no occurrence lies between `from` and it;
/// it gives none only where there is none at or after `from`.
pub proof fn lemma_find_from_is_least(s: Seq<char>, lit: Seq<char>, from: int)
    requires
        0 <= from,
    ensures
        match find_from(s, lit, from) {
            Some(i) => from <= i && occurs_at(s, lit, i) && forall|j: int|
                from <= j < i ==> !occurs_at(s, lit, j),
            None => forall|j: int| from <= j ==> !occurs_at(s, lit, j),
        },
    decreases s.len() + 1 - from,
{
    if from + lit.len() > s.len() {
    } else if occurs_at(s, lit, from) {
    } else {
        lemma_find_from_is_least(s, lit, from + 1);
    }
}

/// `last_index_of` gives a position of `c` with no `c` after it, or -1 where
/// `s` holds no `c`.
pub proof fn lemma_last_index_of(s: Seq<char>, c: char)
    ensures
        -1 <= last_index_of(s, c) < s.len(),
        last_index_of(s, c) >= 0 ==> s[last_index_of(s, c)] == c,
        forall|j: int| last_index_of(s, c) < j < s.len() ==> s[j] != c,
    decreases s.len(),
{
    if s.len() > 0 && s.last() != c {
        let t = s.drop_last();
        lemma_last_index_of(t, c);
        assert forall|j: int| last_index_of(s, c) < j < s.len() implies s[j] != c by {
            if j < t.len() {
                assert(t[j] == s[j]);
            }
        }
    }
}

/// The characters of `s`, in order.
pub fn chars_of(s: &str) -> (v: Vec<char>)
    ensures
        v@ == s@,
{
    let mut v: Vec<char> = Vec::new();
    for c in it: s.chars()
        invariant
            it.seq() == s@,
            v@ == it.seq().take(it.index()),
    {
        v.push(c);
    }
    v
}

/// The characters of `s` from position `from` up to `to`, as a string.
pub fn slice_of(s: &str, from: usize, to: usize) -> (r: String)
    requires
        from <= to <= s@.len(),
    ensures
        r@ == s@.subrange(from as int, to as int),
{
    s.substring_char(from, to).to_owned()
}

/// Whether `lit` stands in `s` at position `i`.
pub fn stands_at(s: &Vec<char>, lit: &Vec<char>, i: usize) -> (r: bool)
    requires
        i + lit@.len() <= s@.len(),
    ensures
        r == occurs_at(s@, lit@, i as int),
{
    let n: usize = lit.len();
    let m: usize = s.len();
    let mut k: usize = 0;
    while k < n
        invariant
            n == lit@.len(),
            m == s@.len(),
            i + n <= m,
            k <= n,
            forall|j: int| 0 <= j < k ==> s@[i + j] == lit@[j],
        decreases n - k,
    {
        if s[i + k] != lit[k] {
            assert(s@.subrange(i as int, i + n)[k as int] != lit@[k as int]);
            return false;
        }
        k += 1;
    }
    assert(s@.subrange(i as int, i + n) =~= lit@);
    true
}

/// Whether `s` begins with `lit`.
pub fn starts_with(s: &Vec<char>, lit: &Vec<char>) -> (r: bool)
    ensures
        r == lit@.is_prefix_of(s@),
{
    lit.len() <= s.len() && stands_at(s, lit, 0)
}

/// Whether `s` ends with `lit`.
pub fn ends_with(s: &Vec<char>, lit: &Vec<char>) -> (r: bool)
    ensures
        r == lit@.is_suffix_of(s@),
{
    lit.len() <= s.len() && stands_at(s, lit, s.len() - lit.len())
}

/// Whether `s` and `t` hold the same characters.
pub fn same_chars(s: &Vec<char>, t: &Vec<char>) -> (r: bool)
    ensures
        r == (s@ == t@),
{
    if s.len() != t.len() {
        return false;
    }
    let r = stands_at(s, t, 0);
    assert(s@.subrange(0, s@.len() as int) =~= s@);
    r
}

/// The least position at or after `from` where `lit` stands in `s`.
pub fn find(s: &Vec<char>, lit: &Vec<char>, from: usize) -> (r: Option<usize>)
    ensures
        match r {
            Some(i) => find_from(s@, lit@, from as int) == Some(i as int),
            None => find_from(s@, lit@, from as int) is None,
        },
{
    if lit.len() > s.len() {
        return None;
    }
    let last: usize = s.len() - lit.len();
    let mut i: usize = from;
    while i <= last
        invariant
            last == s@.len() - lit@.len(),
            from <= i,
            find_from(s@, lit@, from as int) == find_from(s@, lit@, i as int),
        decreases last - i,
    {
        if stands_at(s, lit, i) {
            return Some(i);
        }
        if i == last {
            assert(find_from(s@, lit@, i + 1) is None);
            return None;
        }
        i += 1;
    }
    None
}

/// The position of the last `c` in `s`.
pub fn rfind_char(s: &Vec<char>, c: char) -> (r: Option<usize>)
    ensures
        match r {
            Some(i) => last_index_of(s@, c) == i,
            None => last_index_of(s@, c) == -1,
        },
{
    let mut n: usize = s.len();
    assert(s@.take(n as int) =~= s@);
    while n > 0
        invariant
            n <= s@.len(),
            last_index_of(s@, c) == last_index_of(s@.take(n as int), c),
        decreases n,
    {
        if s[n - 1] == c {
            return Some(n - 1);
        }
        assert(s@.take(n as int).drop_last() =~= s@.take(n - 1));
        n -= 1;
    }
    None
}

/// The pieces of `s` around each `sep` in it.
pub fn split_on<'a>(s: &'a str, sep: char) -> (r: Vec<&'a str>)
    ensures
        strs(r@) == split(s@, sep),
{
    let chars = chars_of(s);
    let n: usize = chars.len();
    let mut r: Vec<&'a str> = Vec::new();
    let mut start: usize = 0;
    let mut i: usize = 0;
    proof {
        assert(s@.skip(0) =~= s@);
        assert(strs(r@) + split(s@, sep) =~= split(s@, sep));
    }
    while i < n
        invariant
            chars@ == s@,
            n == s@.len(),
            start <= i <= n,
            forall|j: int| start <= j < i ==> s@[j] != sep,
            split(s@, sep) == strs(r@) + split(s@.skip(start as int), sep),
        decreases n - i,
    {
        if chars[i] == sep {
            let piece = s.substring_char(start, i);
            let ghost before = r@;
            r.push(piece);
            proof {
                lemma_split_at(s@, sep, start as int, i as int);
                assert(strs(r@) =~= strs(before).push(piece@));
                assert(strs(r@) + split(s@.skip(i + 1), sep) =~= strs(before) + split(
                    s@.skip(start as int),
                    sep,
                ));
            }
            start = i + 1;
        }
        i += 1;
    }
    let piece = s.substring_char(start, n);
    let ghost before = r@;
    r.push(piece);
    proof {
        lemma_split_rest(s@, sep, start as int);
        assert(strs(r@) =~= strs(before).push(piece@));
        assert(strs(r@) =~= split(s@, sep));
    }
    r
}

} // verus!
