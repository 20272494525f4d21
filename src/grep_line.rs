//! The line format of the content-grep tool: the path, a NUL character, then
//! `line:column:text`, one line per match, with a 1-based line number and
//! column. A path cannot hold NUL, so any other character may occur in it.
use vstd::prelude::*;
use vstd::string::StringSliceAdditionalSpecFns;
use vstd::utf8::{encode_utf8, encode_utf8_decode_utf8, is_char_boundary};

verus! {

pub open spec fn is_digit(c: char) -> bool {
    '0' <= c && c <= '9'
}

/// The value of a string of decimal digits.
pub open spec fn digits_value(s: Seq<char>) -> nat
    decreases s.len(),
{
    if s.len() == 0 {
        0
    } else {
        digits_value(s.drop_last()) * 10 + ((s.last() as int - '0' as int) as nat)
    }
}

/// `s` is a non-empty run of decimal digits whose value fits in a `usize`.
pub open spec fn is_number(s: Seq<char>) -> bool {
    s.len() > 0 && (forall|i: int| 0 <= i < s.len() ==> is_digit(#[trigger] s[i])) && digits_value(s)
        <= usize::MAX
}

/// Position of the first `c` in `s` at or after `from`, or -1.
pub open spec fn char_from(s: Seq<char>, c: char, from: int) -> int
    decreases s.len() - from,
{
    if from < 0 || from >= s.len() {
        -1
    } else if s[from] == c {
        from
    } else {
        char_from(s, c, from + 1)
    }
}

/// One match reported by the grep tool.
pub struct GrepHit {
    pub path: String,
    pub line_number: usize,
    pub column: usize,
    pub text: String,
}

/// The parts of a grep line: the path up to the first NUL, then the line
/// number and the column, each ended by a colon, then the text.
pub open spec fn grep_parts(s: Seq<char>) -> Option<(Seq<char>, nat, nat, Seq<char>)> {
    let i = char_from(s, '\0', 0);
    let j = char_from(s, ':', i + 1);
    let k = char_from(s, ':', j + 1);
    if i < 0 || j < 0 || k < 0 {
        None
    } else if !is_number(s.subrange(i + 1, j)) || !is_number(s.subrange(j + 1, k)) {
        None
    } else {
        Some((s.subrange(0, i), digits_value(s.subrange(i + 1, j)), digits_value(s.subrange(j + 1, k)), s.subrange(k + 1, s.len() as int)))
    }
}

proof fn lemma_char_from(s: Seq<char>, c: char, from: int)
    requires
        0 <= from,
    ensures
        char_from(s, c, from) == -1 || (from <= char_from(s, c, from) < s.len() && s[char_from(s, c, from)] == c),
    decreases s.len() - from,
{
    if from < s.len() && s[from] != c {
        lemma_char_from(s, c, from + 1);
    }
}

fn find_char(s: &Vec<char>, c: char, from: usize) -> (r: Option<usize>)
    ensures
        match r {
            Some(i) => i as int == char_from(s@, c, from as int),
            None => char_from(s@, c, from as int) == -1,
        },
{
    let mut i = from;
    while i < s.len()
        invariant
            from <= i,
            char_from(s@, c, from as int) == char_from(s@, c, i as int),
        decreases s@.len() - i,
    {
        if s[i] == c {
            return Some(i);
        }
        i = i + 1;
    }
    None
}

/// The number written by `s[from..to]`, when it is one.
fn parse_number(s: &Vec<char>, from: usize, to: usize) -> (r: Option<usize>)
    requires
        from <= to <= s@.len(),
    ensures
        match r {
            Some(v) => is_number(s@.subrange(from as int, to as int)) && v == digits_value(
                s@.subrange(from as int, to as int),
            ),
            None => !is_number(s@.subrange(from as int, to as int)),
        },
{
    let ghost t = s@.subrange(from as int, to as int);
    if from == to {
        return None;
    }
    let mut v: usize = 0;
    let mut i = from;
    assert(s@.subrange(from as int, from as int) =~= Seq::<char>::empty());
    while i < to
        invariant
            from <= i <= to <= s@.len(),
            t == s@.subrange(from as int, to as int),
            forall|k: int| from <= k < i ==> is_digit(#[trigger] s@[k]),
            v == digits_value(s@.subrange(from as int, i as int)),
        decreases to - i,
    {
        let c = s[i];
        assert(s@.subrange(from as int, i + 1).drop_last() =~= s@.subrange(from as int, i as int));
        if !('0' <= c && c <= '9') {
            assert(t[i - from] == c);
            return None;
        }
        let d = (c as u32 - '0' as u32) as usize;
        if v > (usize::MAX - d) / 10 {
            proof {
                let p = s@.subrange(from as int, i + 1);
                assert(p.drop_last() =~= s@.subrange(from as int, i as int));
                assert(p.last() == c);
                assert(digits_value(p) == v * 10 + d);
                assert(v * 10 + d > usize::MAX) by (nonlinear_arith)
                    requires
                        v > (usize::MAX - d) / 10,
                        d <= 9,
                ;
                if forall|k: int| 0 <= k < t.len() ==> is_digit(#[trigger] t[k]) {
                    lemma_digits_prefix(t, (i + 1 - from) as int);
                    assert(t.subrange(0, (i + 1 - from) as int) =~= p);
                }
            }
            return None;
        }
        v = v * 10 + d;
        i = i + 1;
    }
    assert(s@.subrange(from as int, to as int) =~= t);
    Some(v)
}

proof fn lemma_digits_prefix(t: Seq<char>, n: int)
    requires
        0 <= n <= t.len(),
        forall|k: int| 0 <= k < t.len() ==> is_digit(#[trigger] t[k]),
    ensures
        digits_value(t.subrange(0, n)) <= digits_value(t),
    decreases t.len() - n,
{
    if n < t.len() {
        lemma_digits_prefix(t, n + 1);
        let a = t.subrange(0, n + 1);
        assert(a.drop_last() =~= t.subrange(0, n));
        assert(digits_value(a) == digits_value(t.subrange(0, n)) * 10 + ((a.last() as int - '0' as int) as nat));
        assert(digits_value(a) >= digits_value(t.subrange(0, n))) by (nonlinear_arith)
            requires
                digits_value(a) == digits_value(t.subrange(0, n)) * 10 + ((a.last() as int - '0' as int) as nat),
        ;
    } else {
        assert(t.subrange(0, n) =~= t);
    }
}

/// The number of characters of `line` that its first `byte` bytes encode.
fn char_index(line: &str, byte: usize) -> (r: usize)
    requires
        byte <= line.spec_bytes().len(),
        is_char_boundary(line.spec_bytes(), byte as int),
    ensures
        r <= line@.len(),
        encode_utf8(line@.take(r as int)) == line.spec_bytes().take(byte as int),
{
    let (head, tail) = line.split_at(byte);
    let r = head.unicode_len();
    proof {
        assert(line.spec_bytes().subrange(0, byte as int) + line.spec_bytes().subrange(byte as int, line.spec_bytes().len() as int) =~= line.spec_bytes());
        crate::text::lemma_encode_concat(head@, tail@);
        assert(line.spec_bytes() =~= head.spec_bytes() + tail.spec_bytes());
        encode_utf8_decode_utf8(line@);
        encode_utf8_decode_utf8(head@ + tail@);
        assert(line@ == head@ + tail@);
        assert(line@.take(r as int) =~= head@);
        assert(line.spec_bytes().subrange(0, byte as int) =~= line.spec_bytes().take(byte as int));
    }
    r
}

/// The span, in characters of `line`, of a match of `match_bytes` bytes at
/// the 1-based byte column `column`, when both ends fall on character
/// boundaries within the line.
pub fn hit_span(line: &str, column: usize, match_bytes: usize) -> (r: Option<(usize, usize)>)
    ensures
        r is Some <==> column >= 1 && column - 1 + match_bytes <= line.spec_bytes().len()
            && is_char_boundary(line.spec_bytes(), column - 1) && is_char_boundary(
            line.spec_bytes(),
            column - 1 + match_bytes,
        ),
        r matches Some((a, b)) ==> {
            &&& a <= line@.len() && b <= line@.len()
            &&& encode_utf8(line@.take(a as int)) == line.spec_bytes().take(column - 1)
            &&& encode_utf8(line@.take(b as int)) == line.spec_bytes().take(column - 1 + match_bytes)
        },
{
    let n = line.as_bytes().len();
    if column < 1 || match_bytes > n || column - 1 > n - match_bytes {
        return None;
    }
    let start = column - 1;
    let end = start + match_bytes;
    if !line.is_char_boundary(start) || !line.is_char_boundary(end) {
        return None;
    }
    Some((char_index(line, start), char_index(line, end)))
}

/// Reads one output line of the grep tool.
pub fn parse_grep_line(line: &str) -> (r: Option<GrepHit>)
    ensures
        match r {
            Some(h) => grep_parts(line@) == Some(
                (h.path@, h.line_number as nat, h.column as nat, h.text@),
            ),
            None => grep_parts(line@).is_none(),
        },
{
    let s = crate::text::to_chars(line);
    let n = s.len();
    proof {
        lemma_char_from(s@, '\0', 0);
    }
    let i = match find_char(&s, '\0', 0) {
        Some(i) => i,
        None => return None,
    };
    assert(i < n);
    proof {
        lemma_char_from(s@, ':', i + 1);
    }
    let j = match find_char(&s, ':', i + 1) {
        Some(j) => j,
        None => return None,
    };
    assert(j < n);
    proof {
        lemma_char_from(s@, ':', j + 1);
    }
    let k = match find_char(&s, ':', j + 1) {
        Some(k) => k,
        None => return None,
    };
    let ln = match parse_number(&s, i + 1, j) {
        Some(v) => v,
        None => return None,
    };
    let col = match parse_number(&s, j + 1, k) {
        Some(v) => v,
        None => return None,
    };
    Some(
        GrepHit {
            path: line.substring_char(0, i).to_owned(),
            line_number: ln,
            column: col,
            text: line.substring_char(k + 1, n).to_owned(),
        },
    )
}

} // verus!
