//! Character-sequence utilities shared by the segmenter, matcher and
//! renderer: conversions between `&str`/`String` and `Vec<char>`, substring
//! search, whitespace trimming and comma splitting, each with a spec-level
//! definition that the executable code is proved against.

use vstd::prelude::*;
use vstd::string::*;

verus! {

/// Relies on `String::push`: appends exactly the given character to the end
/// of the string.
#[verifier::external_body]
pub fn push_char(s: &mut String, c: char)
    ensures
        final(s)@ == old(s)@.push(c),
{
    s.push(c);
}

/// Collects the characters of a string slice into a vector.
pub fn chars_of(s: &str) -> (out: Vec<char>)
    ensures
        out@ == s@,
{
    let n = s.unicode_len();
    let mut out: Vec<char> = Vec::new();
    let mut i: usize = 0;
    while i < n
        invariant
            i <= n,
            n == s@.len(),
            out@ == s@.subrange(0, i as int),
        decreases n - i,
    {
        let c = s.get_char(i);
        out.push(c);
        i = i + 1;
        proof {
            assert(out@ =~= s@.subrange(0, i as int));
        }
    }
    proof {
        assert(out@ =~= s@);
    }
    out
}

/// Builds an owned string from a vector of characters.
pub fn string_of(v: &Vec<char>) -> (out: String)
    ensures
        out@ == v@,
{
    let mut out = String::new();
    let mut i: usize = 0;
    while i < v.len()
        invariant
            i <= v.len(),
            out@ == v@.subrange(0, i as int),
        decreases v.len() - i,
    {
        push_char(&mut out, v[i]);
        i = i + 1;
        proof {
            assert(out@ =~= v@.subrange(0, i as int));
        }
    }
    proof {
        assert(out@ =~= v@);
    }
    out
}

/// Copies the half-open range `[from, to)` of a character vector.
pub fn subvec(v: &Vec<char>, from: usize, to: usize) -> (out: Vec<char>)
    requires
        from <= to <= v@.len(),
    ensures
        out@ == v@.subrange(from as int, to as int),
{
    let mut out: Vec<char> = Vec::new();
    let mut i: usize = from;
    while i < to
        invariant
            from <= i <= to <= v@.len(),
            out@ == v@.subrange(from as int, i as int),
        decreases to - i,
    {
        out.push(v[i]);
        i = i + 1;
        proof {
            assert(out@ =~= v@.subrange(from as int, i as int));
        }
    }
    out
}

/// Whether two character vectors hold the same characters.
pub fn chars_eq(a: &Vec<char>, b: &Vec<char>) -> (r: bool)
    ensures
        r == (a@ == b@),
{
    if a.len() != b.len() {
        return false;
    }
    let mut k: usize = 0;
    while k < a.len()
        invariant
            k <= a@.len(),
            a@.len() == b@.len(),
            forall|m: int| 0 <= m < k ==> a@[m] == b@[m],
        decreases a@.len() - k,
    {
        if a[k] != b[k] {
            return false;
        }
        k = k + 1;
    }
    proof {
        assert(a@ =~= b@);
    }
    true
}

/// Whether the sequence `w` occurs in `s` starting at index `i`.
pub open spec fn occurs_at(s: Seq<char>, w: Seq<char>, i: int) -> bool {
    0 <= i && i + w.len() <= s.len() && s.subrange(i, i + w.len()) == w
}

/// The least index `j >= from` at which `w` occurs in `s`, if any.
pub open spec fn find_sub(s: Seq<char>, w: Seq<char>, from: int) -> Option<int>
    decreases s.len() + 1 - from,
{
    if from < 0 || from + w.len() > s.len() {
        None
    } else if s.subrange(from, from + w.len()) == w {
        Some(from)
    } else {
        find_sub(s, w, from + 1)
    }
}

/// Whether `w` occurs at the start of `v` at offset `i` (executable form of
/// `occurs_at`).
pub fn match_at(v: &Vec<char>, w: &Vec<char>, i: usize) -> (b: bool)
    requires
        i <= v@.len(),
    ensures
        b == occurs_at(v@, w@, i as int),
{
    if v.len() - i < w.len() {
        proof {
            assert(!occurs_at(v@, w@, i as int));
        }
        return false;
    }
    let mut k: usize = 0;
    while k < w.len()
        invariant
            k <= w@.len(),
            i + w@.len() <= v@.len(),
            v@.len() <= usize::MAX,
            forall|m: int| 0 <= m < k ==> v@[i + m] == w@[m],
        decreases w.len() - k,
    {
        proof {
            assert(i + k < v@.len());
        }
        if v[i + k] != w[k] {
            proof {
                assert(v@.subrange(i as int, i + w@.len())[k as int] == v@[i + k]);
                assert(v@.subrange(i as int, i + w@.len()) != w@);
            }
            return false;
        }
        k = k + 1;
    }
    proof {
        assert(v@.subrange(i as int, i + w@.len()) =~= w@);
    }
    true
}

/// First occurrence of `w` in `v` at or after `from` (executable form of
/// `find_sub`).
pub fn find_occurrence(v: &Vec<char>, w: &Vec<char>, from: usize) -> (r: Option<usize>)
    requires
        from <= v@.len(),
    ensures
        find_sub(v@, w@, from as int) == (match r {
            Some(j) => Some(j as int),
            None => None::<int>,
        }),
        r is Some ==> from <= r->0 <= v@.len(),
    decreases v@.len() - from,
{
    if w.len() > v.len() - from {
        None
    } else if match_at(v, w, from) {
        Some(from)
    } else {
        proof {
            if w@.len() == 0 {
                assert(v@.subrange(from as int, from as int) =~= w@);
                assert(occurs_at(v@, w@, from as int));
            }
        }
        find_occurrence(v, w, from + 1)
    }
}

/// The least index `j >= from` holding character `c`, if any.
pub open spec fn find_ch(s: Seq<char>, c: char, from: int) -> Option<int>
    decreases s.len() - from,
{
    if from < 0 || from >= s.len() {
        None
    } else if s[from] == c {
        Some(from)
    } else {
        find_ch(s, c, from + 1)
    }
}

/// `find_ch` returns the first index holding `c`, or misses only when no
/// index at or after `from` holds it.
pub proof fn lemma_find_ch_first(s: Seq<char>, c: char, from: int)
    requires
        0 <= from,
    ensures
        match find_ch(s, c, from) {
            Some(j) => from <= j < s.len() && s[j] == c && forall|k: int|
                from <= k < j ==> s[k] != c,
            None => forall|k: int| from <= k < s.len() ==> s[k] != c,
        },
    decreases s.len() - from,
{
    if from >= s.len() {
    } else if s[from] == c {
    } else {
        lemma_find_ch_first(s, c, from + 1);
    }
}

/// First index at or after `from` holding `c` (executable form of `find_ch`).
pub fn find_char(v: &Vec<char>, c: char, from: usize) -> (r: Option<usize>)
    ensures
        find_ch(v@, c, from as int) == (match r {
            Some(j) => Some(j as int),
            None => None::<int>,
        }),
        r is Some ==> from <= r->0 < v@.len(),
    decreases v@.len() - from,
{
    if from >= v.len() {
        None
    } else if v[from] == c {
        Some(from)
    } else {
        find_char(v, c, from + 1)
    }
}

/// The least index `j >= from` holding either of two characters, if any.
pub open spec fn find_either(s: Seq<char>, a: char, b: char, from: int) -> Option<int>
    decreases s.len() - from,
{
    if from < 0 || from >= s.len() {
        None
    } else if s[from] == a || s[from] == b {
        Some(from)
    } else {
        find_either(s, a, b, from + 1)
    }
}

/// `find_either` returns the first index holding one of the two characters.
pub proof fn lemma_find_either_first(s: Seq<char>, a: char, b: char, from: int)
    requires
        0 <= from,
    ensures
        match find_either(s, a, b, from) {
            Some(j) => from <= j < s.len() && (s[j] == a || s[j] == b) && forall|k: int|
                from <= k < j ==> s[k] != a && s[k] != b,
            None => forall|k: int| from <= k < s.len() ==> s[k] != a && s[k] != b,
        },
    decreases s.len() - from,
{
    if from >= s.len() {
    } else if s[from] == a || s[from] == b {
    } else {
        lemma_find_either_first(s, a, b, from + 1);
    }
}

/// First index at or after `from` holding `a` or `b` (executable form of
/// `find_either`).
pub fn find_either_char(v: &Vec<char>, a: char, b: char, from: usize) -> (r: Option<usize>)
    ensures
        find_either(v@, a, b, from as int) == (match r {
            Some(j) => Some(j as int),
            None => None::<int>,
        }),
        r is Some ==> from <= r->0 < v@.len(),
    decreases v@.len() - from,
{
    if from >= v.len() {
        None
    } else if v[from] == a || v[from] == b {
        Some(from)
    } else {
        find_either_char(v, a, b, from + 1)
    }
}

/// The Unicode white-space characters, as documented for
/// `char::is_whitespace`.
pub open spec fn is_space(c: char) -> bool {
    let n = c as u32;
    n == 0x09 || n == 0x0A || n == 0x0B || n == 0x0C || n == 0x0D || n == 0x20 || n == 0x85
        || n == 0xA0 || n == 0x1680 || (0x2000 <= n && n <= 0x200A) || n == 0x2028 || n == 0x2029
        || n == 0x202F || n == 0x205F || n == 0x3000
}

/// Executable form of `is_space`.
pub fn is_space_char(c: char) -> (b: bool)
    ensures
        b == is_space(c),
{
    let n = c as u32;
    n == 0x09 || n == 0x0A || n == 0x0B || n == 0x0C || n == 0x0D || n == 0x20 || n == 0x85
        || n == 0xA0 || n == 0x1680 || (0x2000 <= n && n <= 0x200A) || n == 0x2028 || n == 0x2029
        || n == 0x202F || n == 0x205F || n == 0x3000
}

/// `s` without its leading white space.
pub open spec fn trim_front(s: Seq<char>) -> Seq<char>
    decreases s.len(),
{
    if s.len() > 0 && is_space(s[0]) {
        trim_front(s.drop_first())
    } else {
        s
    }
}

/// `s` without its trailing white space.
pub open spec fn trim_back(s: Seq<char>) -> Seq<char>
    decreases s.len(),
{
    if s.len() > 0 && is_space(s.last()) {
        trim_back(s.drop_last())
    } else {
        s
    }
}

/// `s` without leading and trailing white space, as `str::trim` leaves it.
pub open spec fn trim_spec(s: Seq<char>) -> Seq<char> {
    trim_back(trim_front(s))
}

proof fn lemma_trim_front_skip(s: Seq<char>, lo: int)
    requires
        0 <= lo < s.len(),
        is_space(s[lo]),
    ensures
        trim_front(s.subrange(lo, s.len() as int)) == trim_front(
            s.subrange(lo + 1, s.len() as int),
        ),
{
    let t = s.subrange(lo, s.len() as int);
    assert(t.len() > 0 && is_space(t[0]));
    assert(t.drop_first() =~= s.subrange(lo + 1, s.len() as int));
}

proof fn lemma_trim_back_skip(s: Seq<char>, hi: int)
    requires
        0 < hi <= s.len(),
        is_space(s[hi - 1]),
    ensures
        trim_back(s.subrange(0, hi)) == trim_back(s.subrange(0, hi - 1)),
{
    let t = s.subrange(0, hi);
    assert(t.len() > 0 && is_space(t.last()));
    assert(t.drop_last() =~= s.subrange(0, hi - 1));
}

/// The characters of the range `[from, to)` of `v`, trimmed of surrounding
/// white space.
pub fn trim_range(v: &Vec<char>, from: usize, to: usize) -> (out: Vec<char>)
    requires
        from <= to <= v@.len(),
    ensures
        out@ == trim_spec(v@.subrange(from as int, to as int)),
{
    let ghost s = v@.subrange(from as int, to as int);
    let mut lo: usize = from;
    let mut hi: usize = to;
    while lo < hi && is_space_char(v[lo])
        invariant
            from <= lo <= hi <= v@.len(),
            hi == to,
            trim_front(s) == trim_front(v@.subrange(lo as int, to as int)),
        decreases hi - lo,
    {
        proof {
            lemma_trim_front_skip(v@, lo as int);
            assert(v@.subrange(lo as int, v@.len() as int).subrange(
                0,
                (to - lo) as int,
            ) =~= v@.subrange(lo as int, to as int));
            // Relate trimming of the suffix within [lo, to) to [lo, len).
        }
        proof {
            lemma_trim_front_prefix(v@, lo as int, to as int);
        }
        lo = lo + 1;
    }
    proof {
        assert(trim_front(s) == v@.subrange(lo as int, to as int)) by {
            let t = v@.subrange(lo as int, to as int);
            if t.len() > 0 {
                assert(t[0] == v@[lo as int]);
            }
            assert(trim_front(t) == t);
        }
    }
    let ghost f = v@.subrange(lo as int, to as int);
    while hi > lo && is_space_char(v[hi - 1])
        invariant
            from <= lo <= hi <= to <= v@.len(),
            trim_front(s) == f,
            f == v@.subrange(lo as int, to as int),
            trim_back(f) == trim_back(v@.subrange(lo as int, hi as int)),
        decreases hi - lo,
    {
        proof {
            let t = v@.subrange(lo as int, hi as int);
            assert(t.len() > 0 && is_space(t.last()));
            assert(t.drop_last() =~= v@.subrange(lo as int, hi as int - 1));
        }
        hi = hi - 1;
    }
    proof {
        let t = v@.subrange(lo as int, hi as int);
        if t.len() > 0 {
            assert(t.last() == v@[hi as int - 1]);
        }
        assert(trim_back(t) == t);
    }
    subvec(v, lo, hi)
}

proof fn lemma_trim_front_prefix(s: Seq<char>, lo: int, to: int)
    requires
        0 <= lo < to <= s.len(),
        is_space(s[lo]),
    ensures
        trim_front(s.subrange(lo, to)) == trim_front(s.subrange(lo + 1, to)),
{
    let t = s.subrange(lo, to);
    assert(t.len() > 0 && is_space(t[0]));
    assert(t.drop_first() =~= s.subrange(lo + 1, to));
}

/// The pieces of `s` split on `','`, as `str::split(',')` yields them: one
/// piece more than there are commas, in order, commas removed.
pub open spec fn split_commas(s: Seq<char>) -> Seq<Seq<char>>
    decreases s.len(),
    via split_commas_decreases
{
    match find_ch(s, ',', 0) {
        Some(i) => seq![s.subrange(0, i)] + split_commas(s.subrange(i + 1, s.len() as int)),
        None => seq![s],
    }
}

#[via_fn]
proof fn split_commas_decreases(s: Seq<char>) {
    lemma_find_ch_first(s, ',', 0);
}

/// Splits `v` on commas (executable form of `split_commas`).
pub fn split_commas_exec(v: &Vec<char>) -> (out: Vec<Vec<char>>)
    ensures
        out@.map_values(|p: Vec<char>| p@) == split_commas(v@),
    decreases v@.len(),
{
    let mut out: Vec<Vec<char>> = Vec::new();
    match find_char(v, ',', 0) {
        Some(i) => {
            proof {
                lemma_find_ch_first(v@, ',', 0);
                assert(i < v.len());
            }
            let head = subvec(v, 0, i);
            let tail = subvec(v, i + 1, v.len());
            let rest = split_commas_exec(&tail);
            out.push(head);
            let mut k: usize = 0;
            while k < rest.len()
                invariant
                    k <= rest@.len(),
                    out@.len() == k + 1,
                    out@[0]@ == v@.subrange(0, i as int),
                    forall|m: int| 0 <= m < k ==> out@[m + 1]@ == rest@[m]@,
                decreases rest.len() - k,
            {
                let piece = subvec(&rest[k], 0, rest[k].len());
                proof {
                    assert(piece@ =~= rest@[k as int]@);
                }
                out.push(piece);
                k = k + 1;
            }
            proof {
                let lhs = out@.map_values(|p: Vec<char>| p@);
                let rhs = split_commas(v@);
                assert(rest@.map_values(|p: Vec<char>| p@) == split_commas(tail@));
                assert(lhs =~= rhs) by {
                    assert(rhs == seq![v@.subrange(0, i as int)] + split_commas(
                        v@.subrange(i + 1, v@.len() as int),
                    ));
                    assert(tail@ == v@.subrange(i + 1, v@.len() as int));
                    assert(lhs.len() == rhs.len());
                    assert forall|m: int| 0 <= m < lhs.len() implies lhs[m] == rhs[m] by {
                        if m > 0 {
                            assert(lhs[m] == rest@[m - 1]@);
                            assert(rest@.map_values(|p: Vec<char>| p@)[m - 1] == rest@[m - 1]@);
                        }
                    }
                }
            }
        },
        None => {
            let whole = subvec(v, 0, v.len());
            proof {
                assert(whole@ =~= v@);
            }
            out.push(whole);
            proof {
                assert(out@.map_values(|p: Vec<char>| p@) =~= split_commas(v@));
            }
        },
    }
    out
}

} // verus!
