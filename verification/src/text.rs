//! Small text helpers shared by the renderers: repeating a piece of text,
//! padding with spaces and printing integers in decimal.

use vstd::prelude::*;

verus! {

/// The character sequence `s` repeated `n` times.
pub open spec fn rep(s: Seq<char>, n: int) -> Seq<char>
    decreases n,
{
    if n <= 0 {
        Seq::empty()
    } else {
        rep(s, n - 1) + s
    }
}

pub proof fn lemma_rep_len(s: Seq<char>, n: int)
    requires
        n >= 0,
    ensures
        rep(s, n).len() == n * s.len(),
    decreases n,
{
    if n == 0 {
        assert(rep(s, 0).len() == 0);
    } else {
        lemma_rep_len(s, n - 1);
        assert(rep(s, n) == rep(s, n - 1) + s);
        assert(rep(s, n).len() == rep(s, n - 1).len() + s.len());
        assert((n - 1) * s.len() + s.len() == n * s.len()) by (nonlinear_arith);
    }
}

/// `piece` repeated `n` times, as a `String`.
pub fn repeat_str(piece: &str, n: usize) -> (out: String)
    ensures
        out@ == rep(piece@, n as int),
{
    let mut out = String::new();
    let mut i: usize = 0;
    while i < n
        invariant
            i <= n,
            out@ == rep(piece@, i as int),
        decreases n - i,
    {
        out.append(piece);
        i = i + 1;
    }
    out
}

/// The first `k` of the given lines, concatenated.
pub open spec fn cat(lines: Seq<Seq<char>>, k: int) -> Seq<char>
    decreases k,
{
    if k <= 0 {
        Seq::empty()
    } else {
        cat(lines, k - 1) + lines[k - 1]
    }
}

/// When the first `k` lines all have length `width`, their
/// concatenation has length `k * width`.
pub proof fn lemma_cat_len_uniform(lines: Seq<Seq<char>>, k: int, width: int)
    requires
        0 <= k,
        forall|i: int| 0 <= i < k ==> #[trigger] lines[i].len() == width,
    ensures
        cat(lines, k).len() == k * width,
    decreases k,
{
    if k == 0 {
        assert(cat(lines, 0).len() == 0);
    } else {
        lemma_cat_len_uniform(lines, k - 1, width);
        assert((k - 1) * width + width == k * width) by (nonlinear_arith);
    }
}

/// `n` spaces.
pub open spec fn sp(n: int) -> Seq<char> {
    rep(" "@, n)
}

pub fn spaces(n: usize) -> (out: String)
    ensures
        out@ == sp(n as int),
{
    repeat_str(" ", n)
}

/// The decimal digit character for `d`.
pub open spec fn digit_char(d: int) -> char {
    if d == 0 {
        '0'
    } else if d == 1 {
        '1'
    } else if d == 2 {
        '2'
    } else if d == 3 {
        '3'
    } else if d == 4 {
        '4'
    } else if d == 5 {
        '5'
    } else if d == 6 {
        '6'
    } else if d == 7 {
        '7'
    } else if d == 8 {
        '8'
    } else {
        '9'
    }
}

/// Decimal digits of a non-negative integer, most significant first.
pub open spec fn dec_nat(n: int) -> Seq<char>
    decreases n,
{
    if n < 10 {
        seq![digit_char(n)]
    } else {
        dec_nat(n / 10).push(digit_char(n % 10))
    }
}

/// Decimal notation of an integer, with a leading minus sign when negative.
pub open spec fn dec_int(v: int) -> Seq<char> {
    if v < 0 {
        seq!['-'] + dec_nat(-v)
    } else {
        dec_nat(v)
    }
}

fn digit_str(d: u64) -> (out: &'static str)
    requires
        d < 10,
    ensures
        out@ == seq![digit_char(d as int)],
{
    let out = match d {
        0 => "0",
        1 => "1",
        2 => "2",
        3 => "3",
        4 => "4",
        5 => "5",
        6 => "6",
        7 => "7",
        8 => "8",
        _ => "9",
    };
    proof {
        reveal_strlit("0");
        reveal_strlit("1");
        reveal_strlit("2");
        reveal_strlit("3");
        reveal_strlit("4");
        reveal_strlit("5");
        reveal_strlit("6");
        reveal_strlit("7");
        reveal_strlit("8");
        reveal_strlit("9");
        assert(out@ =~= seq![digit_char(d as int)]);
    }
    out
}

fn dec_nat_string(n: u64) -> (out: String)
    ensures
        out@ == dec_nat(n as int),
    decreases n,
{
    if n < 10 {
        let mut out = String::new();
        out.append(digit_str(n));
        proof {
            assert(out@ =~= dec_nat(n as int));
        }
        out
    } else {
        let mut out = dec_nat_string(n / 10);
        out.append(digit_str(n % 10));
        proof {
            assert(out@ =~= dec_nat(n as int));
        }
        out
    }
}

/// Renders `v` in decimal notation.
pub fn int_string(v: i64) -> (out: String)
    requires
        v > i64::MIN,
    ensures
        out@ == dec_int(v as int),
{
    if v < 0 {
        let mut out = String::new();
        out.append("-");
        let rest = dec_nat_string((-v) as u64);
        out.append(rest.as_str());
        proof {
            reveal_strlit("-");
            assert(out@ =~= dec_int(v as int));
        }
        out
    } else {
        dec_nat_string(v as u64)
    }
}

/// The number of characters `dec_int` uses for `v`.
pub open spec fn dec_len(v: int) -> int {
    dec_int(v).len() as int
}

} // verus!
