//! What holds of numbers, names and markup as characters, and of the inputs of a
//! sweep.

use vstd::arithmetic::div_mod::{
    lemma_fundamental_div_mod, lemma_fundamental_div_mod_converse, lemma_mod_bound,
};
use vstd::arithmetic::power::{lemma_pow0, lemma_pow1, lemma_pow_adds, pow};
use vstd::arithmetic::power2::pow2;
use vstd::prelude::*;

use crate::clock::{
    file_stamp, human_stamp, is_day_time, is_file_stamp, is_human_stamp, is_time_stamp, is_year,
    three_digits, time_stamp, two_digits,
};
use crate::doc::{figure, joined, law_rounding_is_near, nearest, pow10, size, with_point};
use crate::markup::{escaped, escaped_char, with_breaks};
use crate::number::Number;
use crate::sweeps::{lemma_decimal, lemma_one_piece, lemma_pieces_joined};
use crate::targets::{
    address_bits, base_address, block_targets, dotted, first_place, is_u32, last_place,
    network, non_empty, span_targets, targets,
};
use crate::text::{
    decimal, digit, digits_value, first_at, is_digit, last_at, last_digits, padded, parsed,
    parsed_digits, pieces_of, right_aligned, texts, trimmed, trimmed_end, trimmed_start,
    white_space,
};

verus! {

// ---------------------------------------------------------------------------
// Numbers
// ---------------------------------------------------------------------------

/// The digits are the characters from `0` to `9`, in order.
pub proof fn law_digits(d: nat, c: char)
    ensures
        d < 10 ==> digit(d) as int == '0' as int + d,
        is_digit(c) <==> '0' as int <= c as int <= '9' as int,
{
}

/// A digit behind others counts once, and those ten times.
pub proof fn law_digits_count(s: Seq<char>, d: nat)
    requires
        d < 10,
    ensures
        digits_value(Seq::empty()) == 0,
        digits_value(s.push(digit(d))) == 10 * digits_value(s) + d,
{
    assert(s.push(digit(d)).drop_last() =~= s);
}

/// A number is written in digits that denote it, without zeros in front.
pub proof fn law_decimal_numbers(n: nat)
    ensures
        decimal(n).len() > 0,
        forall|i: int| 0 <= i < decimal(n).len() ==> '0' <= #[trigger] decimal(n)[i] <= '9',
        digits_value(decimal(n)) == n,
        n > 0 ==> decimal(n)[0] != '0',
        n == 0 ==> decimal(n) == seq!['0'],
    decreases n,
{
    lemma_decimal(n);
    assert forall|i: int| 0 <= i < decimal(n).len() implies '0' <= #[trigger] decimal(n)[i]
        <= '9' by {
        assert(is_digit(decimal(n)[i]));
    }
    if n >= 10 {
        law_decimal_numbers(n / 10);
        assert(decimal(n)[0] == decimal(n / 10)[0]);
    }
}

/// The powers of ten.
pub proof fn law_powers_of_ten(p: nat)
    ensures
        pow10(p) == pow(10, p),
        pow10(p) > 0,
    decreases p,
{
    if p == 0 {
        lemma_pow0(10);
    } else {
        let q = (p - 1) as nat;
        law_powers_of_ten(q);
        lemma_pow1(10);
        lemma_pow_adds(10, 1, q);
    }
}

/// The last digits of a number are as many as asked for, and denote what is left
/// of it below that power of ten.
pub proof fn law_last_digits(n: nat, count: nat)
    ensures
        last_digits(n, count).len() == count,
        forall|i: int|
            0 <= i < count ==> '0' <= #[trigger] last_digits(n, count)[i] <= '9',
        digits_value(last_digits(n, count)) == n % pow10(count),
    decreases count,
{
    law_powers_of_ten(count);
    if count > 0 {
        let c = (count - 1) as nat;
        let front = last_digits(n / 10, c);
        let all = last_digits(n, count);
        law_last_digits(n / 10, c);
        law_powers_of_ten(c);
        assert(all.drop_last() =~= front);
        assert forall|i: int| 0 <= i < count implies '0' <= #[trigger] all[i] <= '9' by {
            if i < c {
                assert(all[i] == front[i]);
            }
        }
        let p = pow10(c) as int;
        let q = (n / 10) as int;
        let r = q % p;
        lemma_fundamental_div_mod(q, p);
        lemma_mod_bound(q, p);
        assert(n == (10 * p) * (q / p) + (10 * r + n % 10)) by (nonlinear_arith)
            requires
                n == 10 * q + n % 10,
                q == p * (q / p) + r,
        ;
        assert((10 * p) * (q / p) == (q / p) * (10 * p)) by (nonlinear_arith);
        lemma_fundamental_div_mod_converse(n as int, 10 * p, q / p, 10 * r + n % 10);
    } else {
        assert(last_digits(n, count) =~= Seq::empty());
    }
}

/// Rounding takes the nearest whole number; halfway between two, the even one.
pub proof fn law_rounding(num: nat, den: nat)
    requires
        0 < den,
    ensures
        ({
            let m = nearest(num, den);
            &&& 2 * num - den <= 2 * (m * den) <= 2 * num + den
            &&& 2 * (m * den) == 2 * num - den || 2 * (m * den) == 2 * num + den ==> m % 2 == 0
        }),
{
    law_rounding_is_near(num, den);
    let below = num / den;
    let rest = num % den;
    lemma_fundamental_div_mod(num as int, den as int);
    lemma_mod_bound(num as int, den as int);
    assert(den * below == below * den) by (nonlinear_arith);
    assert((below + 1) * den == below * den + den) by (nonlinear_arith);
}

/// A number is written as a minus sign, where it is below zero, the digits
/// before the point, and, where there are any behind it, a point and as many
/// digits as asked for. What is written is the number rounded to these digits.
pub proof fn law_figures(n: Number, precision: nat)
    requires
        0 < n.den,
    ensures
        ({
            let x = n.scaled();
            let above = if x < 0 {
                -x
            } else {
                x
            };
            let unit = pow(10, precision);
            let m = nearest((above * unit) as nat, n.den as nat);
            let whole = decimal((m as int / unit) as nat);
            let part = last_digits(m, precision);
            let digits = if precision == 0 {
                whole
            } else {
                whole.push('.') + part
            };
            &&& unit > 0
            &&& figure(n, precision) == (if x < 0 {
                seq!['-'] + digits
            } else {
                digits
            })
            &&& digits_value(whole) == m as int / unit
            &&& part.len() == precision
            &&& digits_value(part) == m as int % unit
        }),
{
    reveal(figure);
    reveal_strlit("-");
    reveal_strlit(".");
    law_powers_of_ten(precision);
    let x = n.scaled();
    let unit = pow(10, precision);
    let m = nearest(size(x) * pow10(precision), n.den as nat);
    law_last_digits(m, precision);
    law_decimal_numbers((m as int / unit) as nat);
    assert("-"@ =~= seq!['-']);
    assert("."@ =~= seq!['.']);
    let whole = decimal((m as int / unit) as nat);
    let part = last_digits(m, precision);
    if precision == 0 {
        lemma_pow0(10);
        assert(m as int / 1 == m);
    } else {
        assert(with_point(m, precision) =~= whole.push('.') + part);
    }
}

/// A text that does not begin with a plus sign is read as a number where it is
/// one or more digits.
pub proof fn law_digits_are_read(s: Seq<char>)
    requires
        s.len() > 0 ==> s[0] != '+',
    ensures
        parsed(s) is Some <==> s.len() > 0 && forall|i: int|
            0 <= i < s.len() ==> '0' <= #[trigger] s[i] <= '9',
        parsed(s) is Some ==> parsed(s)->0 == digits_value(s),
{
    lemma_all_digits(s);
}

/// One plus sign before the digits makes no difference.
pub proof fn law_plus_sign_is_read(s: Seq<char>)
    ensures
        parsed(seq!['+'] + s) is Some <==> s.len() > 0 && forall|i: int|
            0 <= i < s.len() ==> '0' <= #[trigger] s[i] <= '9',
        parsed(seq!['+'] + s) is Some ==> parsed(seq!['+'] + s)->0 == digits_value(s),
{
    lemma_all_digits(s);
    assert((seq!['+'] + s).skip(1) =~= s);
}

proof fn lemma_all_digits(s: Seq<char>)
    ensures
        parsed_digits(s) is Some <==> s.len() > 0 && forall|i: int|
            0 <= i < s.len() ==> '0' <= #[trigger] s[i] <= '9',
{
    if parsed_digits(s) is Some {
        assert forall|i: int| 0 <= i < s.len() implies '0' <= #[trigger] s[i] <= '9' by {
            assert(is_digit(s[i]));
        }
    }
    if forall|i: int| 0 <= i < s.len() ==> '0' <= #[trigger] s[i] <= '9' {
        assert forall|i: int| 0 <= i < s.len() implies is_digit(#[trigger] s[i]) by {
            assert('0' <= s[i] <= '9');
        }
    }
}

// ---------------------------------------------------------------------------
// Characters
// ---------------------------------------------------------------------------

/// White space: the tabs, new lines and blanks.
pub proof fn law_white_space(c: char)
    ensures
        white_space(c) <==> {
            let u = c as int;
            ||| 0x9 <= u <= 0xd
            ||| u == 0x20
            ||| u == 0x85
            ||| u == 0xa0
            ||| u == 0x1680
            ||| 0x2000 <= u <= 0x200a
            ||| 0x2028 <= u <= 0x2029
            ||| u == 0x202f
            ||| u == 0x205f
            ||| u == 0x3000
        },
{
}

proof fn lemma_trimmed_start(s: Seq<char>) -> (i: int)
    ensures
        0 <= i <= s.len(),
        trimmed_start(s) == s.skip(i),
        forall|k: int| 0 <= k < i ==> white_space(#[trigger] s[k]),
        i < s.len() ==> !white_space(s[i]),
    decreases s.len(),
{
    if s.len() > 0 && white_space(s[0]) {
        let j = lemma_trimmed_start(s.skip(1));
        assert(s.skip(1).skip(j) =~= s.skip(j + 1));
        assert forall|k: int| 0 <= k < j + 1 implies white_space(#[trigger] s[k]) by {
            if k > 0 {
                assert(s.skip(1)[k - 1] == s[k]);
            }
        }
        if j + 1 < s.len() {
            assert(s.skip(1)[j] == s[j + 1]);
        }
        j + 1
    } else {
        assert(s.skip(0) =~= s);
        0
    }
}

proof fn lemma_trimmed_end(s: Seq<char>) -> (j: int)
    ensures
        0 <= j <= s.len(),
        trimmed_end(s) == s.take(j),
        forall|k: int| j <= k < s.len() ==> white_space(#[trigger] s[k]),
        j > 0 ==> !white_space(s[j - 1]),
    decreases s.len(),
{
    if s.len() > 0 && white_space(s.last()) {
        let front = s.drop_last();
        let j = lemma_trimmed_end(front);
        assert(front.take(j) =~= s.take(j));
        assert forall|k: int| j <= k < s.len() implies white_space(#[trigger] s[k]) by {
            if k < front.len() {
                assert(front[k] == s[k]);
            }
        }
        if j > 0 {
            assert(front[j - 1] == s[j - 1]);
        }
        j
    } else {
        assert(s.take(s.len() as int) =~= s);
        s.len() as int
    }
}

/// Trimming leaves a run of the characters that neither begins nor ends with
/// white space, and takes away white space alone.
pub proof fn law_trimming(s: Seq<char>)
    ensures
        exists|i: int, j: int|
            #![trigger s.subrange(i, j)]
            {
                &&& 0 <= i <= j <= s.len()
                &&& trimmed(s) == s.subrange(i, j)
                &&& forall|k: int| 0 <= k < i || j <= k < s.len() ==> white_space(#[trigger] s[k])
                &&& i < j ==> !white_space(s[i]) && !white_space(s[j - 1])
            },
{
    let i = lemma_trimmed_start(s);
    let rest = s.skip(i);
    let m = lemma_trimmed_end(rest);
    let j = i + m;
    assert(rest.take(m) =~= s.subrange(i, j));
    assert forall|k: int| 0 <= k < i || j <= k < s.len() implies white_space(#[trigger] s[k]) by {
        if j <= k {
            assert(rest[k - i] == s[k]);
        }
    }
    if i < j {
        assert(rest[m - 1] == s[j - 1]);
    }
    assert(trimmed(s) == s.subrange(i, j));
}

/// Splitting cuts at every separator and nowhere else.
pub proof fn law_splitting(a: Seq<char>, b: Seq<char>, sep: char)
    ensures
        !a.contains(sep) ==> pieces_of(a, sep) == seq![a],
        pieces_of(a.push(sep) + b, sep) == pieces_of(a, sep) + pieces_of(b, sep),
{
    if !a.contains(sep) {
        lemma_one_piece(a, sep);
    }
    lemma_pieces_joined(a, b, sep);
}

/// Filling up adds blanks alone, behind a text or before it, up to the width and
/// not beyond.
pub proof fn law_filling_up(s: Seq<char>, width: nat)
    ensures
        ({
            let left = padded(s, width);
            let right = right_aligned(s, width);
            let n = if s.len() < width {
                width as int
            } else {
                s.len() as int
            };
            &&& left.len() == n && right.len() == n
            &&& left.take(s.len() as int) == s
            &&& right.skip(n - s.len()) == s
            &&& forall|i: int| s.len() <= i < n ==> #[trigger] left[i] == ' '
            &&& forall|i: int| 0 <= i < n - s.len() ==> #[trigger] right[i] == ' '
        }),
{
    let left = padded(s, width);
    let right = right_aligned(s, width);
    assert(left.take(s.len() as int) =~= s);
    assert(right.skip(right.len() - s.len()) =~= s);
}

/// The characters of strings are those of each of them, in order.
pub proof fn law_characters_of_strings(strings: Seq<String>, i: int)
    requires
        0 <= i < strings.len(),
    ensures
        texts(strings).len() == strings.len(),
        texts(strings)[i] == strings[i]@,
{
}

/// The parts of a document are joined one behind the other.
pub proof fn law_parts_are_joined(parts: Seq<Seq<char>>)
    ensures
        joined(parts) == parts.flatten(),
    decreases parts.len(),
{
    if parts.len() > 0 {
        law_parts_are_joined(parts.drop_last());
        parts.lemma_flatten_and_flatten_alt_are_equivalent();
        parts.drop_last().lemma_flatten_and_flatten_alt_are_equivalent();
    }
}

/// Escaping replaces the four characters that markup reserves, one by one, and
/// keeps all others.
pub proof fn law_escaping(s: Seq<char>, c: char)
    ensures
        escaped(s) == s.map_values(|c: char| escaped_char(c)).flatten(),
        c == '&' ==> escaped_char(c) == "&amp;"@,
        c == '<' ==> escaped_char(c) == "&lt;"@,
        c == '>' ==> escaped_char(c) == "&gt;"@,
        c == '"' ==> escaped_char(c) == "&quot;"@,
        c != '&' && c != '<' && c != '>' && c != '"' ==> escaped_char(c) == seq![c],
    decreases s.len(),
{
    let f = |c: char| escaped_char(c);
    if s.len() == 0 {
        assert(s.map_values(f) =~= Seq::empty());
    } else {
        law_escaping(s.skip(1), c);
        assert(s.map_values(f).drop_first() =~= s.skip(1).map_values(f));
        assert(s.map_values(f).first() == escaped_char(s[0]));
    }
}

/// A line break of markup stands for every new line, and all else is kept.
pub proof fn law_line_breaks(s: Seq<char>)
    ensures
        with_breaks(s) == s.map_values(
            |c: char|
                if c == '\n' {
                    "<br>"@
                } else {
                    seq![c]
                },
        ).flatten(),
    decreases s.len(),
{
    broadcast use Seq::lemma_flatten_push;

    let f = |c: char|
        if c == '\n' {
            "<br>"@
        } else {
            seq![c]
        };
    if s.len() == 0 {
        assert(s.map_values(f) =~= Seq::empty());
    } else {
        law_line_breaks(s.drop_last());
        assert(s.map_values(f) =~= s.drop_last().map_values(f).push(f(s.last())));
        assert(with_breaks(s) =~= with_breaks(s.drop_last()) + f(s.last()));
    }
}

// ---------------------------------------------------------------------------
// Dates and times
// ---------------------------------------------------------------------------

proof fn lemma_two_digits(n: nat)
    requires
        n < 100,
    ensures
        two_digits(n).len() == 2,
        digits_value(two_digits(n)) == n,
{
    let s = two_digits(n);
    assert(s.drop_last() =~= Seq::empty().push(digit(n / 10)));
    law_digits_count(Seq::empty(), n / 10);
    law_digits_count(s.drop_last(), n % 10);
    assert(s =~= s.drop_last().push(digit(n % 10)));
}

proof fn lemma_three_digits(n: nat)
    requires
        n < 1000,
    ensures
        three_digits(n).len() == 3,
        digits_value(three_digits(n)) == n,
{
    let s = three_digits(n);
    let front = Seq::empty().push(digit(n / 100)).push(digit(n / 10 % 10));
    law_digits_count(Seq::empty(), n / 100);
    law_digits_count(Seq::empty().push(digit(n / 100)), n / 10 % 10);
    law_digits_count(front, n % 10);
    assert(s =~= front.push(digit(n % 10)));
}

/// A time of day is written as two digits each for the hour, the minute and the
/// second, with colons between them, and three digits for the millisecond behind
/// a point.
pub proof fn law_time_of_day(hour: nat, minute: nat, second: nat, milli: nat)
    requires
        hour < 100,
        minute < 100,
        second < 100,
        milli < 1000,
    ensures
        ({
            let s = time_stamp(hour, minute, second, milli);
            &&& s.len() == 12
            &&& s[2] == ':' && s[5] == ':' && s[8] == '.'
            &&& digits_value(s.subrange(0, 2)) == hour
            &&& digits_value(s.subrange(3, 5)) == minute
            &&& digits_value(s.subrange(6, 8)) == second
            &&& digits_value(s.subrange(9, 12)) == milli
        }),
{
    let s = time_stamp(hour, minute, second, milli);
    lemma_two_digits(hour);
    lemma_two_digits(minute);
    lemma_two_digits(second);
    lemma_three_digits(milli);
    assert(s.subrange(0, 2) =~= two_digits(hour));
    assert(s.subrange(3, 5) =~= two_digits(minute));
    assert(s.subrange(6, 8) =~= two_digits(second));
    assert(s.subrange(9, 12) =~= three_digits(milli));
}

/// A date and a time are written from the year down to the second: in the name
/// of a file without signs but one between the two, and in its text with dashes,
/// a blank and colons.
pub proof fn law_dates(
    year: Seq<char>,
    month: nat,
    day: nat,
    hour: nat,
    minute: nat,
    second: nat,
)
    requires
        month < 100,
        day < 100,
        hour < 100,
        minute < 100,
        second < 100,
    ensures
        ({
            let f = file_stamp(year, month, day, hour, minute, second);
            let h = human_stamp(year, month, day, hour, minute, second);
            let n = year.len() as int;
            &&& f.len() == n + 11 && h.len() == n + 15
            &&& f.take(n) == year && h.take(n) == year
            &&& digits_value(f.subrange(n, n + 2)) == month
            &&& digits_value(f.subrange(n + 2, n + 4)) == day
            &&& f[n + 4] == '_'
            &&& digits_value(f.subrange(n + 5, n + 7)) == hour
            &&& digits_value(f.subrange(n + 7, n + 9)) == minute
            &&& digits_value(f.subrange(n + 9, n + 11)) == second
            &&& h[n] == '-' && h[n + 3] == '-' && h[n + 6] == ' ' && h[n + 9] == ':' && h[n + 12]
                == ':'
            &&& digits_value(h.subrange(n + 1, n + 3)) == month
            &&& digits_value(h.subrange(n + 4, n + 6)) == day
            &&& digits_value(h.subrange(n + 7, n + 9)) == hour
            &&& digits_value(h.subrange(n + 10, n + 12)) == minute
            &&& digits_value(h.subrange(n + 13, n + 15)) == second
        }),
{
    let f = file_stamp(year, month, day, hour, minute, second);
    let h = human_stamp(year, month, day, hour, minute, second);
    let n = year.len() as int;
    lemma_two_digits(month);
    lemma_two_digits(day);
    lemma_two_digits(hour);
    lemma_two_digits(minute);
    lemma_two_digits(second);
    assert(f.take(n) =~= year);
    assert(h.take(n) =~= year);
    assert(f.subrange(n, n + 2) =~= two_digits(month));
    assert(f.subrange(n + 2, n + 4) =~= two_digits(day));
    assert(f.subrange(n + 5, n + 7) =~= two_digits(hour));
    assert(f.subrange(n + 7, n + 9) =~= two_digits(minute));
    assert(f.subrange(n + 9, n + 11) =~= two_digits(second));
    assert(h.subrange(n + 1, n + 3) =~= two_digits(month));
    assert(h.subrange(n + 4, n + 6) =~= two_digits(day));
    assert(h.subrange(n + 7, n + 9) =~= two_digits(hour));
    assert(h.subrange(n + 10, n + 12) =~= two_digits(minute));
    assert(h.subrange(n + 13, n + 15) =~= two_digits(second));
}

/// A time of day has twelve characters, a time on a 24 hour clock.
pub proof fn law_times_of_day_are_valid(s: Seq<char>)
    requires
        is_time_stamp(s),
    ensures
        s.len() == 12,
        s[2] == ':' && s[5] == ':' && s[8] == '.',
        digits_value(s.subrange(0, 2)) < 24,
        digits_value(s.subrange(3, 5)) < 60,
        digits_value(s.subrange(6, 8)) <= 60,
        digits_value(s.subrange(9, 12)) < 1000,
{
    let (hour, minute, second, milli) = choose|hour: nat, minute: nat, second: nat, milli: nat|
        is_day_time(hour, minute, second) && milli < 1000 && s == #[trigger] time_stamp(
            hour,
            minute,
            second,
            milli,
        );
    law_time_of_day(hour, minute, second, milli);
}

/// The stamps of exported files hold a month, a day and a time on a 24 hour
/// clock.
pub proof fn law_dates_are_valid(f: Seq<char>, h: Seq<char>)
    requires
        is_file_stamp(f),
        is_human_stamp(h),
    ensures
        ({
            let n = f.len() - 11;
            let m = h.len() - 15;
            &&& n >= 4 && m >= 4
            &&& f[n + 4] == '_'
            &&& 1 <= digits_value(f.subrange(n, n + 2)) <= 12
            &&& 1 <= digits_value(f.subrange(n + 2, n + 4)) <= 31
            &&& digits_value(f.subrange(n + 5, n + 7)) < 24
            &&& digits_value(f.subrange(n + 7, n + 9)) < 60
            &&& digits_value(f.subrange(n + 9, n + 11)) <= 60
            &&& h[m] == '-' && h[m + 3] == '-' && h[m + 6] == ' ' && h[m + 9] == ':' && h[m + 12]
                == ':'
            &&& 1 <= digits_value(h.subrange(m + 1, m + 3)) <= 12
            &&& 1 <= digits_value(h.subrange(m + 4, m + 6)) <= 31
            &&& digits_value(h.subrange(m + 7, m + 9)) < 24
            &&& digits_value(h.subrange(m + 10, m + 12)) < 60
            &&& digits_value(h.subrange(m + 13, m + 15)) <= 60
        }),
{
    let (y1, mo1, d1, h1, mi1, s1) = choose|
        year: Seq<char>,
        month: nat,
        day: nat,
        hour: nat,
        minute: nat,
        second: nat,
    |
        is_year(year) && 1 <= month <= 12 && 1 <= day <= 31 && is_day_time(hour, minute, second)
            && f == #[trigger] file_stamp(year, month, day, hour, minute, second);
    law_dates(y1, mo1, d1, h1, mi1, s1);
    let (y2, mo2, d2, h2, mi2, s2) = choose|
        year: Seq<char>,
        month: nat,
        day: nat,
        hour: nat,
        minute: nat,
        second: nat,
    |
        is_year(year) && 1 <= month <= 12 && 1 <= day <= 31 && is_day_time(hour, minute, second)
            && h == #[trigger] human_stamp(year, month, day, hour, minute, second);
    law_dates(y2, mo2, d2, h2, mi2, s2);
}

// ---------------------------------------------------------------------------
// Inputs of a sweep
// ---------------------------------------------------------------------------

/// The members of a list are its pieces, trimmed, without the empty ones.
pub proof fn law_list_members(parts: Seq<Seq<char>>)
    ensures
        non_empty(parts) == parts.map_values(|p: Seq<char>| trimmed(p)).filter(
            |p: Seq<char>| p.len() > 0,
        ),
    decreases parts.len(),
{
    reveal(Seq::filter);
    let f = |p: Seq<char>| trimmed(p);
    let some = |p: Seq<char>| p.len() > 0;
    if parts.len() > 0 {
        law_list_members(parts.drop_last());
        assert(parts.map_values(f).drop_last() =~= parts.drop_last().map_values(f));
        assert(parts.map_values(f).last() == trimmed(parts.last()));
    }
    assert(non_empty(parts) =~= parts.map_values(f).filter(some));
}

/// The four numbers of an address lie over each other from its last octet up:
/// each adds its bits from its own octet on, and what leaves the 32 bits is lost.
pub proof fn law_octets_of_an_address(a: u32, b: u32, c: u32, d: u32)
    ensures
        ({
            let x = address_bits(a, b, c, d);
            &&& x & 255 == d & 255
            &&& (x >> 8) & 255 == (c | (d >> 8)) & 255
            &&& (x >> 16) & 255 == (b | (c >> 8) | (d >> 16)) & 255
            &&& x >> 24 == (a | (b >> 8) | (c >> 16) | (d >> 24)) & 255
        }),
{
    let x = address_bits(a, b, c, d);
    assert(x == (a << 24) | (b << 16) | (c << 8) | d);
    assert(x & 255 == d & 255 && (x >> 8) & 255 == (c | (d >> 8)) & 255 && (x >> 16) & 255 == (b
        | (c >> 8) | (d >> 16)) & 255 && x >> 24 == (a | (b >> 8) | (c >> 16) | (d >> 24)) & 255)
        by (bit_vector)
        requires
            x == (a << 24) | (b << 16) | (c << 8) | d,
    ;
}

/// An address is four numbers of 32 bits with dots between them, and nothing
/// else is.
pub proof fn law_addresses_have_four_numbers(s: Seq<char>)
    ensures
        ({
            let parts = pieces_of(s, '.');
            base_address(s) is Some <==> parts.len() == 4 && forall|i: int|
                0 <= i < 4 ==> parsed(#[trigger] parts[i]) is Some && parsed(parts[i])->0
                    < 0x1_0000_0000
        }),
        base_address(s) is Some ==> base_address(s)->0 == address_bits(
            parsed(pieces_of(s, '.')[0])->0 as u32,
            parsed(pieces_of(s, '.')[1])->0 as u32,
            parsed(pieces_of(s, '.')[2])->0 as u32,
            parsed(pieces_of(s, '.')[3])->0 as u32,
        ),
{
    let parts = pieces_of(s, '.');
    if parts.len() == 4 && forall|i: int|
        0 <= i < 4 ==> parsed(#[trigger] parts[i]) is Some && parsed(parts[i])->0
            < 0x1_0000_0000 {
        assert(is_u32(parts[0]) && is_u32(parts[1]) && is_u32(parts[2]) && is_u32(parts[3]));
    }
}

/// A block names every address that shares its leading bits with the given one,
/// but for the first and the last, in order.
pub proof fn law_block_addresses(base: u32, prefix: nat, i: int)
    requires
        1 <= prefix <= 30,
        0 <= i < pow2((32 - prefix) as nat) - 2,
    ensures
        ({
            let all = pow2((32 - prefix) as nat) as int;
            let first = base as int / all * all;
            &&& network(base, prefix) == first
            &&& first <= base < first + all
            &&& block_targets(base, prefix).len() == all - 2
            &&& block_targets(base, prefix)[i] == dotted((first + 1 + i) as nat)
        }),
{
    let all = pow2((32 - prefix) as nat) as int;
    vstd::arithmetic::power2::lemma_pow2_pos((32 - prefix) as nat);
    lemma_fundamental_div_mod(base as int, all);
    lemma_mod_bound(base as int, all);
    assert(base as int / all * all == all * (base as int / all)) by (nonlinear_arith);
}

/// The addresses of a range go from its first to its last number.
pub proof fn law_range_addresses(net: Seq<char>, first: nat, last: nat, i: int)
    requires
        first <= last,
        0 <= i <= last - first,
    ensures
        span_targets(net, first, last).len() == last - first + 1,
        span_targets(net, first, last)[i] == net + "."@ + decimal((first + i) as nat),
{
}

/// An input with a slash and no comma is a block where a count of leading bits
/// from 1 to 30 stands behind its first slash and an address before it; any
/// other has no targets.
pub proof fn law_inputs_with_a_slash(input: Seq<char>, slash: int)
    requires
        ({
            let s = trimmed(input);
            &&& !s.contains(',')
            &&& 0 <= slash < s.len()
            &&& s[slash] == '/'
            &&& forall|j: int| 0 <= j < slash ==> s[j] != '/'
        }),
    ensures
        ({
            let s = trimmed(input);
            let prefix = parsed(s.subrange(slash + 1, s.len() as int));
            let base = base_address(s.subrange(0, slash));
            targets(input) == (if prefix is Some && 1 <= prefix->0 <= 30 && base is Some {
                block_targets(base->0, prefix->0)
            } else {
                Seq::empty()
            })
        }),
{
    let s = trimmed(input);
    assert(first_at(s, '/', slash));
    let k = first_place(s, '/');
    assert(first_at(s, '/', k));
    assert(k == slash) by {
        if k < slash {
            assert(s[k] != '/');
        } else if slash < k {
            assert(s[slash] != '/');
        }
    }
    assert(s.contains('/'));
    assert(s.skip(slash + 1) =~= s.subrange(slash + 1, s.len() as int));
    assert(s.take(slash) =~= s.subrange(0, slash));
}

/// An input without comma and slash is a range where behind its last dot stand a
/// number, a dash and a number that is no smaller and at most 254; any other is
/// its own target.
pub proof fn law_inputs_with_a_dash(input: Seq<char>, dot: int, dash: int)
    requires
        ({
            let s = trimmed(input);
            &&& !s.contains(',')
            &&& !s.contains('/')
            &&& 0 <= dot < dash < s.len()
            &&& s[dot] == '.'
            &&& forall|j: int| dot < j < s.len() ==> s[j] != '.'
            &&& s[dash] == '-'
            &&& forall|j: int| dot <= j < dash ==> s[j] != '-'
        }),
    ensures
        ({
            let s = trimmed(input);
            let first = parsed(s.subrange(dot + 1, dash));
            let last = parsed(s.subrange(dash + 1, s.len() as int));
            targets(input) == (if first is Some && last is Some && first->0 <= last->0 <= 254 {
                span_targets(s.subrange(0, dot), first->0, last->0)
            } else {
                seq![s]
            })
        }),
{
    let s = trimmed(input);
    assert(last_at(s, '.', dot));
    let k = last_place(s, '.');
    assert(last_at(s, '.', k));
    assert(k == dot) by {
        if k < dot {
            assert(s[dot] != '.');
        } else if dot < k {
            assert(s[k] != '.');
        }
    }
    let rest = s.skip(dot);
    let m = dash - dot;
    assert(rest[m] == '-');
    assert forall|j: int| 0 <= j < m implies rest[j] != '-' by {
        assert(rest[j] == s[dot + j]);
    }
    assert(first_at(rest, '-', m));
    let p = first_place(rest, '-');
    assert(first_at(rest, '-', p));
    assert(p == m) by {
        if p < m {
            assert(rest[p] != '-');
        } else if m < p {
            assert(rest[m] != '-');
        }
    }
    assert(s.contains('.'));
    assert(rest.contains('-'));
    assert(s.subrange(dot + 1, dot + m) =~= s.subrange(dot + 1, dash));
    assert(s.skip(dot + m + 1) =~= s.subrange(dash + 1, s.len() as int));
    assert(s.take(dot) =~= s.subrange(0, dot));
}

/// An input without comma and slash that holds no dot, or no dash behind its
/// last dot, is its own target.
pub proof fn law_inputs_without_a_range(input: Seq<char>, dot: int)
    requires
        ({
            let s = trimmed(input);
            &&& s.len() > 0
            &&& !s.contains(',')
            &&& !s.contains('/')
            &&& !s.contains('.') || {
                &&& 0 <= dot < s.len()
                &&& s[dot] == '.'
                &&& forall|j: int| dot < j < s.len() ==> s[j] != '.' && s[j] != '-'
            }
        }),
    ensures
        targets(input) == seq![trimmed(input)],
{
    let s = trimmed(input);
    if s.contains('.') {
        assert(last_at(s, '.', dot));
        let k = last_place(s, '.');
        assert(last_at(s, '.', k));
        assert(k == dot) by {
            if k < dot {
                assert(s[dot] != '.');
            } else if dot < k {
                assert(s[k] != '.');
            }
        }
        let rest = s.skip(dot);
        assert forall|j: int| 0 <= j < rest.len() implies rest[j] != '-' by {
            assert(rest[j] == s[dot + j]);
        }
    }
}

/// An input with a comma is a list of its pieces.
pub proof fn law_inputs_with_a_comma(input: Seq<char>)
    requires
        trimmed(input).contains(','),
    ensures
        targets(input) == pieces_of(trimmed(input), ',').map_values(
            |p: Seq<char>| trimmed(p),
        ).filter(|p: Seq<char>| p.len() > 0),
{
    law_list_members(pieces_of(trimmed(input), ','));
}

/// An address is written as its four octets, the highest first, with dots
/// between them.
pub proof fn law_dotted_notation(addr: nat)
    requires
        addr < 0x1_0000_0000,
    ensures
        ({
            let a = addr / 16_777_216;
            let b = addr / 65_536 % 256;
            let c = addr / 256 % 256;
            let d = addr % 256;
            dotted(addr) == decimal(a) + "."@ + decimal(b) + "."@ + decimal(c) + "."@ + decimal(d)
        }),
{
    assert(addr / 16_777_216 % 256 == addr / 16_777_216);
}

} // verus!
