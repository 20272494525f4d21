//! Text helpers for presenting results: human-readable sizes, shortened
//! strings, and the output format names.
use vstd::prelude::*;
use crate::text::{lower_of, lowercase};
use vstd::string::StringSliceAdditionalSpecFns;
use vstd::utf8::{encode_utf8, is_char_boundary};

verus! {

pub open spec fn digit_char(d: int) -> char {
    seq!['0', '1', '2', '3', '4', '5', '6', '7', '8', '9'][d]
}

/// The decimal digits of `n`, without leading zeros.
pub open spec fn decimal_digits(n: nat) -> Seq<char>
    decreases n,
{
    if n < 10 {
        seq![digit_char(n as int)]
    } else {
        decimal_digits(n / 10).push(digit_char((n % 10) as int))
    }
}

pub(crate) fn digit_str(d: u64) -> (r: &'static str)
    requires
        d < 10,
    ensures
        r@ == seq![digit_char(d as int)],
{
    proof {
        reveal_strlit("0");
        reveal_strlit("1");
        reveal_strlit("2");
        reveal_strlit("3");
        reveal_strlit("4");
        reveal_strlit("5");
        reveal_strlit("6");
        reveal_strlit("7");
        reveal_strlit("8");
        reveal_strlit("9");
    }
    let r = if d == 0 {
        "0"
    } else if d == 1 {
        "1"
    } else if d == 2 {
        "2"
    } else if d == 3 {
        "3"
    } else if d == 4 {
        "4"
    } else if d == 5 {
        "5"
    } else if d == 6 {
        "6"
    } else if d == 7 {
        "7"
    } else if d == 8 {
        "8"
    } else {
        "9"
    };
    assert(r@ =~= seq![digit_char(d as int)]);
    r
}

/// `n` written in decimal.
pub fn decimal(n: u64) -> (r: String)
    ensures
        r@ == decimal_digits(n as nat),
    decreases n,
{
    if n < 10 {
        let s = String::from_str(digit_str(n));
        s
    } else {
        let mut s = decimal(n / 10);
        s.append(digit_str(n % 10));
        s
    }
}

pub open spec fn pow1024(k: nat) -> nat
    decreases k,
{
    if k == 0 {
        1
    } else {
        1024 * pow1024((k - 1) as nat)
    }
}

/// How many times a size is divided by 1024 before it is shown: while it
/// stays at least 1024, up to terabytes.
pub open spec fn unit_index(size: nat, k: nat) -> nat
    decreases 4 - k,
{
    if k < 4 && size >= pow1024(k + 1) {
        unit_index(size, k + 1)
    } else {
        k
    }
}

pub open spec fn unit_name(k: nat) -> Seq<char> {
    if k == 0 {
        seq!['B']
    } else if k == 1 {
        seq!['K', 'B']
    } else if k == 2 {
        seq!['M', 'B']
    } else if k == 3 {
        seq!['G', 'B']
    } else {
        seq!['T', 'B']
    }
}

/// `size / d` in tenths, rounded to nearest with ties to even.
pub open spec fn tenths(size: nat, d: nat) -> nat {
    let q = size * 10 / d;
    let r = size * 10 % d;
    if 2 * r > d || (2 * r == d && q % 2 == 1) {
        q + 1
    } else {
        q
    }
}

/// A size as text: whole bytes below 1 KB, otherwise the value in the
/// largest unit that keeps it at least 1, with one decimal.
pub open spec fn file_size_text(size: nat) -> Seq<char> {
    let k = unit_index(size, 0);
    if k == 0 {
        decimal_digits(size) + seq![' '] + unit_name(0)
    } else {
        let t = tenths(size, pow1024(k));
        decimal_digits(t / 10) + seq!['.'] + seq![digit_char((t % 10) as int)] + seq![' '] + unit_name(k)
    }
}

fn unit_str(k: usize) -> (r: &'static str)
    requires
        k <= 4,
    ensures
        r@ == unit_name(k as nat),
{
    proof {
        reveal_strlit("B");
        reveal_strlit("KB");
        reveal_strlit("MB");
        reveal_strlit("GB");
        reveal_strlit("TB");
    }
    let r = if k == 0 {
        "B"
    } else if k == 1 {
        "KB"
    } else if k == 2 {
        "MB"
    } else if k == 3 {
        "GB"
    } else {
        "TB"
    };
    assert(r@ =~= unit_name(k as nat));
    r
}

/// A size in bytes as text, such as `512 B` or `1.5 KB`.
pub fn format_file_size(size: u64) -> (r: String)
    ensures
        r@ == file_size_text(size as nat),
{
    let mut k: usize = 0;
    let mut d: u64 = 1;
    proof {
        reveal_strlit(" ");
        reveal_strlit(".");
    }
    while k < 4 && size / d >= 1024
        invariant
            k <= 4,
            d as nat == pow1024(k as nat),
            (k == 0 && d == 1) || (k == 1 && d == 1024) || (k == 2 && d == 1048576) || (k == 3 && d
                == 1073741824) || (k == 4 && d == 1099511627776),
            unit_index(size as nat, 0) == unit_index(size as nat, k as nat),
        decreases 4 - k,
    {
        assert(size >= 1024 * d) by (nonlinear_arith)
            requires
                size / d >= 1024,
                d >= 1,
        ;
        proof {
            assert(pow1024((k + 1) as nat) == 1024 * pow1024(k as nat));
        }
        d = d * 1024;
        k = k + 1;
    }
    proof {
        assert(d >= 1) by {
            lemma_pow_pos(k as nat);
        }
        if k < 4 {
            assert(size < 1024 * d) by (nonlinear_arith)
                requires
                    size / d < 1024,
                    d >= 1,
            ;
            assert(pow1024((k + 1) as nat) == 1024 * pow1024(k as nat));
        }
        assert(unit_index(size as nat, k as nat) == k);
    }
    if k == 0 {
        let mut s = decimal(size);
        s.append(" ");
        s.append(unit_str(0));
        assert(s@ =~= file_size_text(size as nat));
        s
    } else {
        let num: u128 = size as u128 * 10;
        let q: u128 = num / (d as u128);
        let rem: u128 = num % (d as u128);
        let t: u128 = if 2 * rem > d as u128 || (2 * rem == d as u128 && q % 2 == 1) {
            q + 1
        } else {
            q
        };
        assert(q <= num) by (nonlinear_arith)
            requires
                q == num / (d as u128),
                d >= 1,
        ;
        let whole: u64 = (t / 10) as u64;
        let tenth: u64 = (t % 10) as u64;
        let mut s = decimal(whole);
        s.append(".");
        s.append(digit_str(tenth));
        s.append(" ");
        s.append(unit_str(k));
        assert(s@ =~= file_size_text(size as nat));
        s
    }
}

proof fn lemma_pow_pos(k: nat)
    ensures
        pow1024(k) >= 1,
    decreases k,
{
    if k > 0 {
        lemma_pow_pos((k - 1) as nat);
    }
}

/// `s` itself when it has at most `max_len` bytes; otherwise its first
/// `max_len - 3` bytes followed by `...`.
pub fn truncate_string(s: &str, max_len: usize) -> (r: String)
    requires
        s.spec_bytes().len() <= max_len || (max_len >= 3 && is_char_boundary(s.spec_bytes(), max_len - 3)),
    ensures
        s.spec_bytes().len() <= max_len ==> r@ == s@,
        s.spec_bytes().len() > max_len ==> encode_utf8(r@) == s.spec_bytes().take(max_len - 3)
            + encode_utf8(seq!['.', '.', '.']),
{
    let n = s.as_bytes().len();
    if n <= max_len {
        s.to_owned()
    } else {
        let (head, _tail) = s.split_at(max_len - 3);
        let mut r = head.to_owned();
        let dots = "...";
        proof {
            reveal_strlit("...");
            assert(dots@ =~= seq!['.', '.', '.']);
        }
        r.append(dots);
        proof {
            assert(r@ =~= head@ + seq!['.', '.', '.']);
            assert(head.spec_bytes() == encode_utf8(head@));
            crate::text::lemma_encode_concat(head@, seq!['.', '.', '.']);
            assert(head.spec_bytes() =~= s.spec_bytes().subrange(0, max_len - 3));
            assert(s.spec_bytes().subrange(0, max_len - 3) =~= s.spec_bytes().take(max_len - 3));
            assert(encode_utf8(r@) == encode_utf8(head@) + encode_utf8(seq!['.', '.', '.']));
        }
        r
    }
}

/// How results are printed.
#[derive(Clone, Copy, Debug, PartialEq, Eq, Structural)]
pub enum OutputFormat {
    Human,
    Json,
    Csv,
    Table,
}

/// The format named by `s`, ignoring case.
pub open spec fn format_named(s: Seq<char>) -> Option<OutputFormat> {
    let l = lower_of(s);
    if l == seq!['h', 'u', 'm', 'a', 'n'] {
        Some(OutputFormat::Human)
    } else if l == seq!['j', 's', 'o', 'n'] {
        Some(OutputFormat::Json)
    } else if l == seq!['c', 's', 'v'] {
        Some(OutputFormat::Csv)
    } else if l == seq!['t', 'a', 'b', 'l', 'e'] {
        Some(OutputFormat::Table)
    } else {
        None
    }
}

impl OutputFormat {
    /// Parses a format name, ignoring case; an unknown name gives the message
    /// `Invalid output format: ` followed by the name.
    pub fn parse(s: &str) -> (r: Result<OutputFormat, String>)
        ensures
            match r {
                Ok(f) => format_named(s@) == Some(f),
                Err(m) => format_named(s@).is_none() && m@ == seq![
                    'I', 'n', 'v', 'a', 'l', 'i', 'd', ' ', 'o', 'u', 't', 'p', 'u', 't', ' ',
                    'f', 'o', 'r', 'm', 'a', 't', ':', ' ',
                ] + s@,
            },
    {
        let l = lowercase(s);
        proof {
            reveal_strlit("human");
            reveal_strlit("json");
            reveal_strlit("csv");
            reveal_strlit("table");
            reveal_strlit("Invalid output format: ");
        }
        let human = "human".to_owned();
        let json = "json".to_owned();
        let csv = "csv".to_owned();
        let table = "table".to_owned();
        assert(human@ =~= seq!['h', 'u', 'm', 'a', 'n']);
        assert(json@ =~= seq!['j', 's', 'o', 'n']);
        assert(csv@ =~= seq!['c', 's', 'v']);
        assert(table@ =~= seq!['t', 'a', 'b', 'l', 'e']);
        if l == human {
            Ok(OutputFormat::Human)
        } else if l == json {
            Ok(OutputFormat::Json)
        } else if l == csv {
            Ok(OutputFormat::Csv)
        } else if l == table {
            Ok(OutputFormat::Table)
        } else {
            let mut m = "Invalid output format: ".to_owned();
            m.append(s);
            assert(m@ =~= seq![
                'I', 'n', 'v', 'a', 'l', 'i', 'd', ' ', 'o', 'u', 't', 'p', 'u', 't', ' ',
                'f', 'o', 'r', 'm', 'a', 't', ':', ' ',
            ] + s@);
            Err(m)
        }
    }
}

impl std::str::FromStr for OutputFormat {
    type Err = String;

    fn from_str(s: &str) -> Result<OutputFormat, String> {
        OutputFormat::parse(s)
    }
}

} // verus!
