//! Character-sequence helpers: case folding, substring search, prefix tests
//! and counting of non-overlapping occurrences.
use vstd::prelude::*;
use vstd::utf8::{encode_scalar, encode_utf8};

verus! {

/// What `str::to_lowercase` makes of a character sequence.
pub uninterp spec fn lower_of(s: Seq<char>) -> Seq<char>;

/// The Unicode `White_Space` property.
pub open spec fn white_space(c: char) -> bool {
    let u = c as u32;
    (0x9 <= u <= 0xD) || u == 0x20 || u == 0x85 || u == 0xA0 || u == 0x1680 || (0x2000 <= u <= 0x200A)
        || u == 0x2028 || u == 0x2029 || u == 0x202F || u == 0x205F || u == 0x3000
}

/// Relies on `str::to_lowercase`: the result depends on the characters
/// alone, and the empty string stays empty.
#[verifier::external_body]
pub(crate) fn lowercase(s: &str) -> (r: String)
    ensures
        r@ == lower_of(s@),
        s@.len() == 0 ==> r@.len() == 0,
{
    s.to_lowercase()
}

/// Whether `c` has the Unicode `White_Space` property.
pub fn is_white(c: char) -> (r: bool)
    ensures
        r == white_space(c),
{
    let u = c as u32;
    (0x9 <= u && u <= 0xD) || u == 0x20 || u == 0x85 || u == 0xA0 || u == 0x1680 || (0x2000 <= u
        && u <= 0x200A) || u == 0x2028 || u == 0x2029 || u == 0x202F || u == 0x205F || u == 0x3000
}

/// `q` occurs in `s` starting at position `k`.
pub open spec fn occurs_at(s: Seq<char>, q: Seq<char>, k: int) -> bool {
    0 <= k && k + q.len() <= s.len() && s.subrange(k, k + q.len()) == q
}

/// `q` is a substring of `s`.
pub open spec fn contains_spec(s: Seq<char>, q: Seq<char>) -> bool {
    exists|k: int| occurs_at(s, q, k)
}

/// `p` is a prefix of `s`.
pub open spec fn starts_with_spec(s: Seq<char>, p: Seq<char>) -> bool {
    p.len() <= s.len() && s.subrange(0, p.len() as int) == p
}

/// Number of non-overlapping occurrences of a non-empty `q` in `s` found by a
/// left-to-right scan from position `k`.
pub open spec fn count_from(s: Seq<char>, q: Seq<char>, k: int) -> nat
    decreases s.len() - k,
{
    if q.len() == 0 || k < 0 || k + q.len() > s.len() {
        0
    } else if occurs_at(s, q, k) {
        1 + count_from(s, q, k + q.len())
    } else {
        count_from(s, q, k + 1)
    }
}

/// Number of non-overlapping occurrences of `q` in `s`; the empty pattern
/// matches at each of the `s.len() + 1` boundaries.
pub open spec fn count_matches(s: Seq<char>, q: Seq<char>) -> nat {
    if q.len() == 0 {
        s.len() + 1
    } else {
        count_from(s, q, 0)
    }
}

/// The characters of `s`, one by one.
pub fn to_chars(s: &str) -> (r: Vec<char>)
    ensures
        r@ == s@,
{
    let n = s.unicode_len();
    let mut out: Vec<char> = Vec::new();
    let mut i: usize = 0;
    while i < n
        invariant
            i <= n == s@.len(),
            out@ == s@.subrange(0, i as int),
        decreases n - i,
    {
        out.push(s.get_char(i));
        i = i + 1;
        assert(out@ =~= s@.subrange(0, i as int));
    }
    assert(out@ =~= s@);
    out
}

/// Whether `q` occurs in `s` at position `k`.
pub fn occurs_at_exec(s: &Vec<char>, q: &Vec<char>, k: usize) -> (r: bool)
    ensures
        r == occurs_at(s@, q@, k as int),
{
    if k > s.len() || q.len() > s.len() - k {
        return false;
    }
    let mut j: usize = 0;
    while j < q.len()
        invariant
            k + q@.len() <= s@.len(),
            s@.len() <= usize::MAX,
            j <= q@.len(),
            forall|t: int| 0 <= t < j ==> s@[k + t] == q@[t],
        decreases q@.len() - j,
    {
        if s[k + j] != q[j] {
            assert(s@.subrange(k as int, k + q@.len())[j as int] != q@[j as int]);
            return false;
        }
        j = j + 1;
    }
    assert(s@.subrange(k as int, k + q@.len()) =~= q@);
    true
}

/// Whether `q` is a substring of `s`.
pub fn contains_chars(s: &Vec<char>, q: &Vec<char>) -> (r: bool)
    ensures
        r == contains_spec(s@, q@),
{
    if q.len() > s.len() {
        assert(forall|k: int| !occurs_at(s@, q@, k));
        return false;
    }
    let last = s.len() - q.len();
    let mut k: usize = 0;
    loop
        invariant
            last == s@.len() - q@.len(),
            k <= last,
            forall|t: int| 0 <= t < k ==> !occurs_at(s@, q@, t),
        ensures
            forall|t: int| 0 <= t <= last ==> !occurs_at(s@, q@, t),
        decreases last - k,
    {
        if occurs_at_exec(s, q, k) {
            return true;
        }
        if k == last {
            break;
        }
        k = k + 1;
    }
    assert(forall|t: int| !occurs_at(s@, q@, t));
    false
}

/// Whether `q` is a substring of `s`.
pub fn contains(s: &str, q: &str) -> (r: bool)
    ensures
        r == contains_spec(s@, q@),
{
    contains_chars(&to_chars(s), &to_chars(q))
}

/// Whether `p` is a prefix of `s`.
pub fn starts_with(s: &str, p: &str) -> (r: bool)
    ensures
        r == starts_with_spec(s@, p@),
{
    let sc = to_chars(s);
    let pc = to_chars(p);
    let b = occurs_at_exec(&sc, &pc, 0);
    proof {
        if b {
            assert(starts_with_spec(s@, p@));
        }
    }
    b
}

/// Number of non-overlapping occurrences of `q` in `s`.
pub fn count_matches_chars(s: &Vec<char>, q: &Vec<char>) -> (r: u128)
    ensures
        r as nat == count_matches(s@, q@),
        r <= s@.len() + 1,
{
    if q.len() == 0 {
        return s.len() as u128 + 1;
    }
    let mut k: usize = 0;
    let mut found: u128 = 0;
    while k <= s.len() && q.len() <= s.len() - k
        invariant
            q@.len() > 0,
            k <= s@.len(),
            found <= k,
            found + count_from(s@, q@, k as int) == count_from(s@, q@, 0),
        decreases s@.len() - k,
    {
        if occurs_at_exec(s, q, k) {
            found = found + 1;
            k = k + q.len();
        } else {
            k = k + 1;
        }
    }
    found
}

/// Encoding a concatenation is concatenating the encodings.
pub proof fn lemma_encode_concat(a: Seq<char>, b: Seq<char>)
    ensures
        encode_utf8(a + b) == encode_utf8(a) + encode_utf8(b),
    decreases a.len(),
{
    if a.len() == 0 {
        assert(a + b =~= b);
        assert(encode_utf8(a) =~= Seq::<u8>::empty());
        assert(encode_utf8(a) + encode_utf8(b) =~= encode_utf8(b));
    } else {
        lemma_encode_concat(a.drop_first(), b);
        assert((a + b).drop_first() =~= a.drop_first() + b);
        assert((a + b)[0] == a[0]);
        assert(encode_utf8(a + b) =~= encode_scalar(a[0] as u32) + (encode_utf8(a.drop_first()) + encode_utf8(b)));
    }
}

} // verus!
