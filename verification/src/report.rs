//! Rendering one outcome as a result-file line: the probed path padded
//! to a fixed column, an arrow, and the right-aligned decimal status.

use vstd::prelude::*;
use vstd::string::StrSliceExecFns;
use vstd::string::StringExecFns;

verus! {

/// The column the arrow starts at.
pub open spec fn path_column() -> nat {
    26
}

/// The width the status is right-aligned in.
pub open spec fn status_width() -> nat {
    5
}

/// A run of `n` spaces.
pub open spec fn spec_spaces(n: nat) -> Seq<char> {
    Seq::new(n, |i: int| ' ')
}

/// `s` padded with trailing spaces to width `w`; text wider than the
/// column is kept whole.
pub open spec fn spec_pad_right(s: Seq<char>, w: nat) -> Seq<char> {
    if s.len() >= w {
        s
    } else {
        s + spec_spaces((w - s.len()) as nat)
    }
}

/// `s` padded with leading spaces to width `w`; text wider than the
/// column is kept whole.
pub open spec fn spec_pad_left(s: Seq<char>, w: nat) -> Seq<char> {
    if s.len() >= w {
        s
    } else {
        spec_spaces((w - s.len()) as nat) + s
    }
}

/// The character for one decimal digit.
pub open spec fn digit_char(d: nat) -> char
    recommends
        d < 10,
{
    if d == 0 {
        '0'
    } else if d == 1 {
        '1'
    } else if d == 2 {
        '2'
    } else if d == 3 {
        '3'
    } else if d == 4 {
        '4'
    } else if d == 5 {
        '5'
    } else if d == 6 {
        '6'
    } else if d == 7 {
        '7'
    } else if d == 8 {
        '8'
    } else {
        '9'
    }
}

/// The decimal digits of `n`, most significant first, with no leading
/// zero except for zero itself.
pub open spec fn spec_digits(n: nat) -> Seq<char>
    decreases n,
{
    if n < 10 {
        seq![digit_char(n)]
    } else {
        spec_digits(n / 10).push(digit_char(n % 10))
    }
}

/// One line of the result file: the path padded to the arrow column,
/// ` -> `, and the status right-aligned in its width.
pub open spec fn spec_result_line(path: Seq<char>, status: u16) -> Seq<char> {
    spec_pad_right(path, path_column()) + seq![' ', '-', '>', ' '] + spec_pad_left(
        spec_digits(status as nat),
        status_width(),
    )
}

/// The one-character string for a decimal digit.
fn digit_str(d: u16) -> (r: &'static str)
    requires
        d < 10,
    ensures
        r@ == seq![digit_char(d as nat)],
{
    proof {
        reveal_strlit("0");
        reveal_strlit("1");
        reveal_strlit("2");
        reveal_strlit("3");
        reveal_strlit("4");
        reveal_strlit("5");
        reveal_strlit("6");
        reveal_strlit("7");
        reveal_strlit("8");
        reveal_strlit("9");
    }
    let r = match d {
        0 => "0",
        1 => "1",
        2 => "2",
        3 => "3",
        4 => "4",
        5 => "5",
        6 => "6",
        7 => "7",
        8 => "8",
        _ => "9",
    };
    proof {
        assert(r@ =~= seq![digit_char(d as nat)]);
    }
    r
}

/// Renders `n` in decimal.
fn u16_digits(n: u16) -> (r: String)
    ensures
        r@ == spec_digits(n as nat),
    decreases n,
{
    if n < 10 {
        String::from_str(digit_str(n))
    } else {
        let rest = u16_digits(n / 10);
        let r = rest.concat(digit_str(n % 10));
        proof {
            assert(r@ =~= spec_digits((n / 10) as nat).push(digit_char((n % 10) as nat)));
        }
        r
    }
}

/// Appends spaces to `s` until its length reaches `w`.
fn pad_to(s: String, w: usize) -> (r: String)
    ensures
        r@ == spec_pad_right(s@, w as nat),
{
    proof {
        reveal_strlit(" ");
    }
    let mut out = s;
    let ghost base = out@;
    let mut k = out.as_str().unicode_len();
    if k >= w {
        proof {
            assert(out@ =~= spec_pad_right(base, w as nat));
        }
        return out;
    }
    let ghost start = k;
    while k < w
        invariant
            start <= k <= w,
            out@ =~= base + spec_spaces((k - start) as nat),
            base.len() == start,
        decreases w - k,
    {
        out.append(" ");
        k += 1;
        proof {
            reveal_strlit(" ");
            assert(out@ =~= base + spec_spaces((k - start) as nat));
        }
    }
    proof {
        assert(out@ =~= spec_pad_right(base, w as nat));
    }
    out
}

/// The result-file line for one successfully probed path, laid out as
/// the append-only result file expects it.
pub fn format_result_line(path: &str, status: u16) -> (r: String)
    ensures
        r@ == spec_result_line(path@, status),
{
    proof {
        reveal_strlit(" -> ");
        reveal_strlit(" ");
    }
    let left = pad_to(path.to_owned(), 26);
    let digits = u16_digits(status);
    let dlen = digits.as_str().unicode_len();
    let mut mid = String::new();
    let mut k: usize = 0;
    let pad = if dlen >= 5 {
        0
    } else {
        5 - dlen
    };
    while k < pad
        invariant
            0 <= k <= pad,
            mid@ =~= spec_spaces(k as nat),
        decreases pad - k,
    {
        mid.append(" ");
        k += 1;
        proof {
            reveal_strlit(" ");
            assert(mid@ =~= spec_spaces(k as nat));
        }
    }
    let right = mid.concat(digits.as_str());
    proof {
        assert(right@ =~= spec_pad_left(spec_digits(status as nat), status_width()));
    }
    let r = left.concat(" -> ").concat(right.as_str());
    proof {
        assert(" -> "@ =~= seq![' ', '-', '>', ' ']);
        assert(r@ =~= spec_result_line(path@, status));
    }
    r
}

} // verus!
