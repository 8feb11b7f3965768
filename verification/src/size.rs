//! Human-readable byte counts on the binary unit ladder.

use vstd::prelude::*;
use vstd::string::*;

verus! {

/// How many units follow `B` on the ladder before the fallback unit.
pub const LADDER_STEPS: usize = 8;

/// The character that writes the decimal digit `d`.
pub open spec fn digit_char(d: nat) -> char {
    if d == 0 {
        '0'
    } else if d == 1 {
        '1'
    } else if d == 2 {
        '2'
    } else if d == 3 {
        '3'
    } else if d == 4 {
        '4'
    } else if d == 5 {
        '5'
    } else if d == 6 {
        '6'
    } else if d == 7 {
        '7'
    } else if d == 8 {
        '8'
    } else {
        '9'
    }
}

/// Whether `c` is one of the ten decimal digits.
pub open spec fn is_digit(c: char) -> bool {
    exists|d: nat| d < 10 && c == #[trigger] digit_char(d)
}

/// The decimal numeral of `n`, without leading zeros.
pub open spec fn decimal(n: nat) -> Seq<char>
    decreases n,
{
    if n < 10 {
        seq![digit_char(n)]
    } else {
        decimal(n / 10).push(digit_char(n % 10))
    }
}

/// The three digits that write `f` thousandths, for `f < 1000`.
pub open spec fn fraction_text(f: nat) -> Seq<char> {
    seq![digit_char(f / 100), digit_char(f / 10 % 10), digit_char(f % 10)]
}

/// The name of the unit that stands `rank` steps above the byte. Every rank
/// beyond the ladder's end shares the last name.
pub open spec fn unit_text(rank: nat) -> Seq<char> {
    if rank == 0 {
        "B"@
    } else if rank == 1 {
        "KiB"@
    } else if rank == 2 {
        "MiB"@
    } else if rank == 3 {
        "GiB"@
    } else if rank == 4 {
        "TiB"@
    } else if rank == 5 {
        "PiB"@
    } else if rank == 6 {
        "EiB"@
    } else if rank == 7 {
        "ZiB"@
    } else {
        "YiB"@
    }
}

/// How often `value` is divided by 1024 until it is below 1024, with at most
/// `steps` divisions.
pub open spec fn rank_within(value: nat, steps: nat) -> nat
    decreases steps,
{
    if value < 1024 || steps == 0 {
        0
    } else {
        1 + rank_within(value / 1024, (steps - 1) as nat)
    }
}

/// The rank of the unit in which `bytes` is shown.
pub open spec fn unit_rank(bytes: nat) -> nat {
    rank_within(bytes, LADDER_STEPS as nat)
}

/// The number of bytes in one unit of the given rank: 1024 to that power.
pub open spec fn unit_scale(rank: nat) -> nat
    decreases rank,
{
    if rank == 0 {
        1
    } else {
        1024 * unit_scale((rank - 1) as nat)
    }
}

/// The quotient `num / den` rounded to the nearest integer, a tie going to
/// the even neighbour.
pub open spec fn round_half_even(num: nat, den: nat) -> nat
    recommends
        den > 0,
{
    let q = num / den;
    let r = num % den;
    if 2 * r > den || (2 * r == den && q % 2 == 1) {
        q + 1
    } else {
        q
    }
}

/// `bytes` in thousandths of its unit, rounded.
pub open spec fn thousandths(bytes: nat) -> nat {
    round_half_even(bytes * 1000, unit_scale(unit_rank(bytes)))
}

/// The text that shows `bytes`: the value in its unit with three decimals, a
/// space, and the unit's name.
pub open spec fn size_text(bytes: nat) -> Seq<char> {
    let t = thousandths(bytes);
    decimal(t / 1000) + seq!['.'] + fraction_text(t % 1000) + seq![' '] + unit_text(
        unit_rank(bytes),
    )
}

/// Whether every character of `s` is a decimal digit.
pub open spec fn all_digits(s: Seq<char>) -> bool {
    forall|i: int| 0 <= i < s.len() ==> is_digit(#[trigger] s[i])
}

/// Whether `s` is the name of a unit of the ladder.
pub open spec fn is_unit_text(s: Seq<char>) -> bool {
    exists|rank: nat| rank <= LADDER_STEPS && s == #[trigger] unit_text(rank)
}

/// Whether `s` reads: one or more digits, a point, three digits, a space, a
/// unit's name.
pub open spec fn has_size_shape(s: Seq<char>) -> bool {
    exists|whole: Seq<char>, fraction: Seq<char>, unit: Seq<char>|
        {
            &&& whole.len() >= 1
            &&& all_digits(whole)
            &&& fraction.len() == 3
            &&& all_digits(fraction)
            &&& is_unit_text(unit)
            &&& s == #[trigger] (whole + seq!['.'] + fraction + seq![' '] + unit)
        }
}

/// A decimal numeral is never empty and holds digits only.
pub proof fn lemma_decimal_digits(n: nat)
    ensures
        decimal(n).len() >= 1,
        all_digits(decimal(n)),
    decreases n,
{
    if n >= 10 {
        lemma_decimal_digits(n / 10);
        let head = decimal(n / 10);
        assert(is_digit(digit_char(n % 10)));
        assert forall|i: int| 0 <= i < decimal(n).len() implies is_digit(
            #[trigger] decimal(n)[i],
        ) by {
            if i < head.len() {
                assert(decimal(n)[i] == head[i]);
            }
        }
    } else {
        assert(is_digit(digit_char(n)));
    }
}

/// The rank of a unit never passes the end of the ladder.
pub proof fn lemma_rank_within_bound(value: nat, steps: nat)
    ensures
        rank_within(value, steps) <= steps,
    decreases steps,
{
    if !(value < 1024 || steps == 0) {
        lemma_rank_within_bound(value / 1024, (steps - 1) as nat);
    }
}

/// Every size, whatever the byte count, is shown as digits, a point, three
/// digits, a space and one of the nine unit names.
pub proof fn lemma_size_text_shape(bytes: nat)
    ensures
        has_size_shape(size_text(bytes)),
{
    let t = thousandths(bytes);
    let whole = decimal(t / 1000);
    let f = t % 1000;
    let fraction = fraction_text(f);
    let unit = unit_text(unit_rank(bytes));
    lemma_decimal_digits(t / 1000);
    lemma_rank_within_bound(bytes, LADDER_STEPS as nat);
    assert(is_digit(digit_char(f / 100)));
    assert(is_digit(digit_char(f / 10 % 10)));
    assert(is_digit(digit_char(f % 10)));
    assert(all_digits(fraction));
    assert(is_unit_text(unit));
    assert(size_text(bytes) == whole + seq!['.'] + fraction + seq![' '] + unit);
}

/// The powers of 1024 along the ladder.
proof fn lemma_unit_scale_values()
    ensures
        unit_scale(0) == 1,
        unit_scale(1) == 0x400,
        unit_scale(2) == 0x10_0000,
        unit_scale(3) == 0x4000_0000,
        unit_scale(4) == 0x100_0000_0000,
        unit_scale(5) == 0x4_0000_0000_0000,
        unit_scale(6) == 0x1000_0000_0000_0000,
        unit_scale(7) == 0x40_0000_0000_0000_0000,
        unit_scale(8) == 0x1_0000_0000_0000_0000_0000,
{
    reveal_with_fuel(unit_scale, 10);
}

/// The one-character text of a decimal digit.
fn digit_str(d: u128) -> (s: &'static str)
    requires
        d < 10,
    ensures
        s@ == seq![digit_char(d as nat)],
{
    proof {
        reveal_strlit("0");
        reveal_strlit("1");
        reveal_strlit("2");
        reveal_strlit("3");
        reveal_strlit("4");
        reveal_strlit("5");
        reveal_strlit("6");
        reveal_strlit("7");
        reveal_strlit("8");
        reveal_strlit("9");
    }
    let s = if d == 0 {
        "0"
    } else if d == 1 {
        "1"
    } else if d == 2 {
        "2"
    } else if d == 3 {
        "3"
    } else if d == 4 {
        "4"
    } else if d == 5 {
        "5"
    } else if d == 6 {
        "6"
    } else if d == 7 {
        "7"
    } else if d == 8 {
        "8"
    } else {
        "9"
    };
    assert(s@ =~= seq![digit_char(d as nat)]);
    s
}

/// The name of the unit of the given rank.
fn unit_name(rank: usize) -> (s: &'static str)
    ensures
        s@ == unit_text(rank as nat),
{
    if rank == 0 {
        "B"
    } else if rank == 1 {
        "KiB"
    } else if rank == 2 {
        "MiB"
    } else if rank == 3 {
        "GiB"
    } else if rank == 4 {
        "TiB"
    } else if rank == 5 {
        "PiB"
    } else if rank == 6 {
        "EiB"
    } else if rank == 7 {
        "ZiB"
    } else {
        "YiB"
    }
}

/// Appends the decimal numeral of `n` to `out`.
fn append_decimal(out: &mut String, n: u128)
    ensures
        final(out)@ == old(out)@ + decimal(n as nat),
    decreases n,
{
    if n >= 10 {
        append_decimal(out, n / 10);
    }
    out.append(digit_str(n % 10));
    proof {
        assert(final(out)@ =~= old(out)@ + decimal(n as nat));
    }
}

/// Shows a byte count in the largest unit of the ladder in which its value
/// is below 1024, with three decimals: `1024` reads `1.000 KiB`.
pub fn format_size(bytes: u64) -> (text: String)
    ensures
        text@ == size_text(bytes as nat),
        has_size_shape(text@),
{
    let mut rank: usize = 0;
    let mut value: u64 = bytes;
    let mut scale: u128 = 1;
    while rank < LADDER_STEPS && value >= 1024
        invariant
            rank <= LADDER_STEPS,
            scale == unit_scale(rank as nat),
            unit_rank(bytes as nat) == rank + rank_within(
                value as nat,
                (LADDER_STEPS - rank) as nat,
            ),
        decreases LADDER_STEPS - rank,
    {
        proof {
            lemma_unit_scale_values();
        }
        value = value / 1024;
        scale = scale * 1024;
        rank = rank + 1;
    }
    proof {
        lemma_unit_scale_values();
        lemma_size_text_shape(bytes as nat);
    }
    let num: u128 = bytes as u128 * 1000;
    let q: u128 = num / scale;
    let r: u128 = num % scale;
    assert(q <= num) by (nonlinear_arith)
        requires
            q == num / scale,
            scale >= 1,
    ;
    let t: u128 = if 2 * r > scale || (2 * r == scale && q % 2 == 1) {
        q + 1
    } else {
        q
    };
    assert(t == thousandths(bytes as nat));
    let whole: u128 = t / 1000;
    let f: u128 = t % 1000;
    let mut text = String::new();
    append_decimal(&mut text, whole);
    text.append(".");
    text.append(digit_str(f / 100));
    text.append(digit_str(f / 10 % 10));
    text.append(digit_str(f % 10));
    text.append(" ");
    text.append(unit_name(rank));
    proof {
        reveal_strlit(".");
        reveal_strlit(" ");
        assert("."@ =~= seq!['.']);
        assert(" "@ =~= seq![' ']);
        assert(text@ =~= size_text(bytes as nat));
    }
    text
}

} // verus!
