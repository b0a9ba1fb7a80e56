//! Character-level text handling: ASCII case folding, whitespace trimming
//! and case-insensitive substring search. Tag names compare and search
//! strings compare through the folded form.

use vstd::prelude::*;

verus! {

/// Case folding of one character: an ASCII uppercase letter maps to its
/// lowercase counterpart, every other character to its own code point.
pub open spec fn fold_char(c: char) -> u32 {
    if 65 <= c as int && c as int <= 90 {
        (c as int + 32) as u32
    } else {
        c as u32
    }
}

/// The case-folded form of a string, as a sequence of code points.
pub open spec fn fold_key(s: Seq<char>) -> Seq<u32> {
    s.map_values(|c: char| fold_char(c))
}

/// The whitespace characters stripped when trimming.
pub open spec fn is_space_char(c: char) -> bool {
    c == ' ' || c == '\t' || c == '\n' || c == '\r'
}

pub open spec fn trim_left(s: Seq<char>) -> Seq<char>
    decreases s.len(),
{
    if s.len() > 0 && is_space_char(s[0]) {
        trim_left(s.drop_first())
    } else {
        s
    }
}

pub open spec fn trim_right(s: Seq<char>) -> Seq<char>
    decreases s.len(),
{
    if s.len() > 0 && is_space_char(s.last()) {
        trim_right(s.drop_last())
    } else {
        s
    }
}

/// A string with leading and trailing whitespace removed.
pub open spec fn trim_spec(s: Seq<char>) -> Seq<char> {
    trim_right(trim_left(s))
}

/// `n` occurs in `h` starting at position `k`.
pub open spec fn occurs_at(h: Seq<u32>, n: Seq<u32>, k: int) -> bool {
    0 <= k && k + n.len() <= h.len() && h.subrange(k, k + n.len() as int) == n
}

/// `n` occurs somewhere in `h`.
pub open spec fn seq_contains(h: Seq<u32>, n: Seq<u32>) -> bool {
    exists|k: int| occurs_at(h, n, k)
}

/// Case-insensitive substring relation on strings.
pub open spec fn contains_fold(hay: Seq<char>, needle: Seq<char>) -> bool {
    seq_contains(fold_key(hay), fold_key(needle))
}

pub fn is_space(c: char) -> (r: bool)
    ensures
        r == is_space_char(c),
{
    c == ' ' || c == '\t' || c == '\n' || c == '\r'
}

pub fn fold_code(c: char) -> (r: u32)
    ensures
        r == fold_char(c),
{
    let x = c as u32;
    if 65 <= x && x <= 90 {
        x + 32
    } else {
        x
    }
}

/// The case-folded code points of a string.
pub fn fold_str(s: &str) -> (v: Vec<u32>)
    ensures
        v@ == fold_key(s@),
{
    let len = s.unicode_len();
    let mut v: Vec<u32> = Vec::new();
    let mut i: usize = 0;
    while i < len
        invariant
            len == s@.len(),
            i <= len,
            v@.len() == i,
            forall|k: int| 0 <= k < i ==> v@[k] == fold_char(s@[k]),
        decreases len - i,
    {
        let c = s.get_char(i);
        v.push(fold_code(c));
        i = i + 1;
    }
    proof {
        assert(v@ =~= fold_key(s@));
    }
    v
}

/// Whether two strings agree up to ASCII case.
pub fn eq_fold(a: &str, b: &str) -> (r: bool)
    ensures
        r == (fold_key(a@) == fold_key(b@)),
{
    let va = fold_str(a);
    let vb = fold_str(b);
    vec_u32_eq(&va, &vb)
}

fn vec_u32_eq(a: &Vec<u32>, b: &Vec<u32>) -> (r: bool)
    ensures
        r == (a@ == b@),
{
    if a.len() != b.len() {
        return false;
    }
    let len = a.len();
    let mut i: usize = 0;
    while i < len
        invariant
            len == a@.len() == b@.len(),
            i <= len,
            forall|k: int| 0 <= k < i ==> a@[k] == b@[k],
        decreases len - i,
    {
        if a[i] != b[i] {
            return false;
        }
        i = i + 1;
    }
    proof {
        assert(a@ =~= b@);
    }
    true
}

/// `n` occurs at position `k` of `h`.
fn occurs_at_exec(h: &Vec<u32>, n: &Vec<u32>, k: usize) -> (r: bool)
    requires
        k + n@.len() <= h@.len(),
    ensures
        r == occurs_at(h@, n@, k as int),
{
    let hl = h.len();
    let nl = n.len();
    let mut j: usize = 0;
    while j < nl
        invariant
            hl == h@.len(),
            nl == n@.len(),
            k + nl <= hl,
            j <= nl,
            forall|m: int| 0 <= m < j ==> h@[k + m] == n@[m],
        decreases nl - j,
    {
        if h[k + j] != n[j] {
            proof {
                assert(h@.subrange(k as int, k + n@.len() as int)[j as int] == h@[k + j]);
            }
            return false;
        }
        j = j + 1;
    }
    proof {
        assert(h@.subrange(k as int, k + n@.len() as int) =~= n@);
    }
    true
}

/// Case-insensitive substring search: does `needle` occur in `hay`,
/// ignoring ASCII case on both sides?
pub fn contains_fold_exec(hay: &str, needle: &str) -> (r: bool)
    ensures
        r == contains_fold(hay@, needle@),
{
    let h = fold_str(hay);
    let n = fold_str(needle);
    let hl = h.len();
    let nl = n.len();
    if nl > hl {
        proof {
            assert(forall|k: int| !occurs_at(h@, n@, k));
        }
        return false;
    }
    if nl == 0 {
        proof {
            assert(h@.subrange(0, 0) =~= n@);
            assert(occurs_at(h@, n@, 0));
        }
        return true;
    }
    let mut k: usize = 0;
    while k <= hl - nl
        invariant
            hl == h@.len(),
            nl == n@.len(),
            h@ == fold_key(hay@),
            n@ == fold_key(needle@),
            0 < nl <= hl,
            k <= hl - nl + 1,
            forall|m: int| 0 <= m < k ==> !occurs_at(h@, n@, m),
        decreases hl - nl + 1 - k,
    {
        if occurs_at_exec(&h, &n, k) {
            proof {
                assert(occurs_at(h@, n@, k as int));
                assert(seq_contains(h@, n@));
            }
            return true;
        }
        k = k + 1;
    }
    proof {
        assert(forall|m: int| occurs_at(h@, n@, m) ==> 0 <= m <= hl - nl);
    }
    false
}

proof fn lemma_trim_left_subrange(s: Seq<char>, start: int)
    requires
        0 <= start <= s.len(),
        forall|k: int| 0 <= k < start ==> is_space_char(s[k]),
        start < s.len() ==> !is_space_char(s[start]),
    ensures
        trim_left(s) == s.subrange(start, s.len() as int),
    decreases start,
{
    if start == 0 {
        assert(s.subrange(0, s.len() as int) =~= s);
    } else {
        assert(is_space_char(s[0]));
        lemma_trim_left_subrange(s.drop_first(), start - 1);
        assert(s.drop_first().subrange(start - 1, s.drop_first().len() as int) =~= s.subrange(
            start,
            s.len() as int,
        ));
    }
}

proof fn lemma_trim_right_subrange(s: Seq<char>, end: int)
    requires
        0 <= end <= s.len(),
        forall|k: int| end <= k < s.len() ==> is_space_char(s[k]),
        end > 0 ==> !is_space_char(s[end - 1]),
    ensures
        trim_right(s) == s.subrange(0, end),
    decreases s.len(),
{
    if end == s.len() {
        if s.len() > 0 {
            assert(!is_space_char(s.last()));
        }
        assert(s.subrange(0, s.len() as int) =~= s);
    } else {
        assert(is_space_char(s.last()));
        lemma_trim_right_subrange(s.drop_last(), end);
        assert(s.drop_last().subrange(0, end) =~= s.subrange(0, end));
    }
}

/// The trimmed form of a string.
pub fn trimmed(s: &str) -> (t: String)
    ensures
        t@ == trim_spec(s@),
{
    let len = s.unicode_len();
    let mut start: usize = 0;
    while start < len && is_space(s.get_char(start))
        invariant
            len == s@.len(),
            start <= len,
            forall|k: int| 0 <= k < start ==> is_space_char(s@[k]),
        decreases len - start,
    {
        start = start + 1;
    }
    let mut end: usize = len;
    while end > start && is_space(s.get_char(end - 1))
        invariant
            start <= end <= len == s@.len(),
            forall|k: int| end <= k < len ==> is_space_char(s@[k]),
            forall|k: int| 0 <= k < start ==> is_space_char(s@[k]),
            start < len ==> !is_space_char(s@[start as int]),
        decreases end,
    {
        end = end - 1;
    }
    let piece = s.substring_char(start, end);
    let t = piece.to_owned();
    proof {
        lemma_trim_left_subrange(s@, start as int);
        let left = s@.subrange(start as int, s@.len() as int);
        lemma_trim_right_subrange(left, end - start);
        assert(left.subrange(0, end - start) =~= s@.subrange(start as int, end as int));
    }
    t
}

} // verus!
