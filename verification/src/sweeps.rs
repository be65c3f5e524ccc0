//! What holds of the targets of a sweep.

use vstd::arithmetic::power2::{lemma2_to64, lemma_pow2_pos, lemma_pow2_strictly_increases, pow2};
use vstd::prelude::*;

use crate::targets::{
    address_bits, base_address, block_targets, dotted, first_place, last_octets, last_place,
    network, non_empty, slash_targets, span_targets, targets,
};
use crate::text::{
    decimal, digits_value, first_at, is_digit, last_at, lemma_pieces_of, lemma_trimmed_ends,
    lemma_trimmed_idempotent, parsed, pieces_of, trimmed, trimmed_end, trimmed_start, white_space,
};

verus! {

// ---------------------------------------------------------------------------
// Decimal numbers
// ---------------------------------------------------------------------------

/// A decimal number is made of digits and denotes what it was written for.
pub proof fn lemma_decimal(n: nat)
    ensures
        decimal(n).len() > 0,
        forall|i: int| 0 <= i < decimal(n).len() ==> is_digit(#[trigger] decimal(n)[i]),
        digits_value(decimal(n)) == n,
    decreases n,
{
    if n >= 10 {
        lemma_decimal(n / 10);
        let front = decimal(n / 10);
        assert(decimal(n).drop_last() =~= front);
        assert forall|i: int| 0 <= i < decimal(n).len() implies is_digit(
            #[trigger] decimal(n)[i],
        ) by {
            if i < front.len() {
                assert(decimal(n)[i] == front[i]);
            }
        }
    } else {
        assert(decimal(n).drop_last() =~= Seq::empty());
        assert(digits_value(Seq::empty()) == 0);
    }
}

/// A number that is written out is read back.
pub proof fn law_numbers_read_back(n: nat)
    ensures
        parsed(decimal(n)) == Some(n),
{
    lemma_decimal(n);
    assert(is_digit(decimal(n)[0]));
}

/// A decimal number holds no character but digits.
proof fn lemma_decimal_lacks(n: nat, c: char)
    requires
        !is_digit(c),
    ensures
        !decimal(n).contains(c),
{
    lemma_decimal(n);
    assert forall|i: int| 0 <= i < decimal(n).len() implies decimal(n)[i] != c by {
        assert(is_digit(decimal(n)[i]));
    }
}

// ---------------------------------------------------------------------------
// White space and pieces
// ---------------------------------------------------------------------------

proof fn lemma_trimmed_start_part(s: Seq<char>, c: char)
    ensures
        trimmed_start(s).contains(c) ==> s.contains(c),
    decreases s.len(),
{
    if s.len() > 0 && white_space(s[0]) {
        lemma_trimmed_start_part(s.skip(1), c);
        if s.skip(1).contains(c) {
            let i = choose|i: int| 0 <= i < s.skip(1).len() && s.skip(1)[i] == c;
            assert(s[i + 1] == c);
        }
    }
}

proof fn lemma_trimmed_end_part(s: Seq<char>, c: char)
    ensures
        trimmed_end(s).contains(c) ==> s.contains(c),
    decreases s.len(),
{
    if s.len() > 0 && white_space(s.last()) {
        lemma_trimmed_end_part(s.drop_last(), c);
        if s.drop_last().contains(c) {
            let i = choose|i: int| 0 <= i < s.drop_last().len() && s.drop_last()[i] == c;
            assert(s[i] == c);
        }
    }
}

/// Trimming adds no characters.
proof fn lemma_trimmed_part(s: Seq<char>, c: char)
    ensures
        trimmed(s).contains(c) ==> s.contains(c),
{
    lemma_trimmed_start_part(s, c);
    lemma_trimmed_end_part(trimmed_start(s), c);
}

/// A text that neither begins nor ends with white space is not trimmed.
proof fn lemma_trimmed_id(s: Seq<char>)
    requires
        s.len() > 0,
        !white_space(s[0]),
        !white_space(s.last()),
    ensures
        trimmed(s) == s,
{
}

/// A text without the separator is one piece.
pub proof fn lemma_one_piece(s: Seq<char>, sep: char)
    requires
        !s.contains(sep),
    ensures
        pieces_of(s, sep) == seq![s],
    decreases s.len(),
{
    if s.len() > 0 {
        let front = s.drop_last();
        assert(s[s.len() - 1] != sep);
        assert forall|i: int| 0 <= i < front.len() implies front[i] != sep by {
            assert(s[i] != sep);
        }
        lemma_one_piece(front, sep);
        assert(front.push(s.last()) =~= s);
        assert(pieces_of(s, sep) =~= seq![s]);
    }
}

/// The pieces of two texts with a separator between them are those of the one
/// and those of the other.
pub proof fn lemma_pieces_joined(a: Seq<char>, b: Seq<char>, sep: char)
    ensures
        pieces_of(a.push(sep) + b, sep) == pieces_of(a, sep) + pieces_of(b, sep),
    decreases b.len(),
{
    let s = a.push(sep) + b;
    lemma_pieces_of(b, sep);
    if b.len() == 0 {
        assert(s =~= a.push(sep));
        assert(s.drop_last() =~= a);
        assert(b =~= Seq::empty());
        assert(pieces_of(s, sep) =~= pieces_of(a, sep) + pieces_of(b, sep));
    } else {
        lemma_pieces_joined(a, b.drop_last(), sep);
        lemma_pieces_of(b.drop_last(), sep);
        assert(s.drop_last() =~= a.push(sep) + b.drop_last());
        assert(s.last() == b.last());
        assert(pieces_of(s, sep) =~= pieces_of(a, sep) + pieces_of(b, sep));
    }
}

// ---------------------------------------------------------------------------
// Laws
// ---------------------------------------------------------------------------

proof fn lemma_members(parts: Seq<Seq<char>>)
    requires
        forall|i: int| 0 <= i < parts.len() ==> !(#[trigger] parts[i]).contains(','),
    ensures
        forall|i: int|
            0 <= i < non_empty(parts).len() ==> (#[trigger] non_empty(parts)[i]).len() > 0
                && !non_empty(parts)[i].contains(',') && trimmed(non_empty(parts)[i]) == non_empty(
                parts,
            )[i],
    decreases parts.len(),
{
    if parts.len() > 0 {
        let front = parts.drop_last();
        assert forall|i: int| 0 <= i < front.len() implies !(#[trigger] front[i]).contains(',') by {
            assert(front[i] == parts[i]);
        }
        lemma_members(front);
        lemma_trimmed_part(parts.last(), ',');
        assert(!parts[parts.len() - 1].contains(','));
        lemma_trimmed_idempotent(parts.last());
        let all = non_empty(parts);
        assert forall|i: int| 0 <= i < all.len() implies (#[trigger] all[i]).len() > 0
            && !all[i].contains(',') && trimmed(all[i]) == all[i] by {
            if i < non_empty(front).len() {
                assert(all[i] == non_empty(front)[i]);
            }
        }
    }
}

/// No target is empty.
pub proof fn law_targets_are_named(input: Seq<char>)
    ensures
        forall|i: int| 0 <= i < targets(input).len() ==> (#[trigger] targets(input)[i]).len() > 0,
{
    let s = trimmed(input);
    lemma_pieces_of(s, ',');
    lemma_members(pieces_of(s, ','));
    assert forall|i: int| 0 <= i < targets(input).len() implies (
    #[trigger] targets(input)[i]).len() > 0 by {
        if s.len() > 0 && !s.contains(',') {
            if s.contains('/') {
                let slash = first_place(s, '/');
                let prefix = parsed(s.skip(slash + 1))->0;
                let base = base_address(s.take(slash))->0;
                let addr = (network(base, prefix) + 1 + i) as nat;
                assert(slash_targets(s)[i] == dotted(addr));
                lemma_decimal(addr / 0x1000000 % 256);
            } else if let Some((dot, first, last)) = last_octets(s) {
                lemma_decimal((first + i) as nat);
            }
        }
    }
}

/// White space around the input makes no difference.
pub proof fn law_targets_ignore_margins(input: Seq<char>)
    ensures
        targets(trimmed(input)) == targets(input),
{
    lemma_trimmed_idempotent(input);
}

/// An input of white space alone has no targets.
pub proof fn law_blank_has_no_targets(input: Seq<char>)
    requires
        forall|i: int| 0 <= i < input.len() ==> white_space(#[trigger] input[i]),
    ensures
        targets(input) == Seq::<Seq<char>>::empty(),
{
    lemma_trimmed_ends(input);
    if trimmed(input).len() > 0 {
        let c = trimmed(input)[0];
        lemma_trimmed_part(input, c);
        assert(trimmed(input).contains(c));
        let i = choose|i: int| 0 <= i < input.len() && input[i] == c;
        assert(white_space(input[i]));
    }
}

/// The members of a list hold no comma and no white space around them.
pub proof fn law_list_members_are_clean(input: Seq<char>)
    requires
        trimmed(input).contains(','),
    ensures
        forall|i: int|
            0 <= i < targets(input).len() ==> !(#[trigger] targets(input)[i]).contains(',')
                && trimmed(targets(input)[i]) == targets(input)[i],
{
    let s = trimmed(input);
    lemma_pieces_of(s, ',');
    lemma_members(pieces_of(s, ','));
}

/// A name without comma, slash and dash is its own target.
pub proof fn law_single_name(input: Seq<char>)
    requires
        trimmed(input).len() > 0,
        !input.contains(','),
        !input.contains('/'),
        !input.contains('-'),
    ensures
        targets(input) == seq![trimmed(input)],
{
    let s = trimmed(input);
    lemma_trimmed_part(input, ',');
    lemma_trimmed_part(input, '/');
    lemma_trimmed_part(input, '-');
    let dot = last_place(s, '.');
    if s.contains('.') && s.skip(dot).contains('-') {
        lemma_last_place(s, '.');
        let i = choose|i: int| 0 <= i < s.skip(dot).len() && s.skip(dot)[i] == '-';
        assert(s[dot + i] == '-');
    }
}

/// A text that holds a character has a last place for it.
proof fn lemma_last_place(s: Seq<char>, c: char)
    requires
        s.contains(c),
    ensures
        last_at(s, c, last_place(s, c)),
    decreases s.len(),
{
    assert(exists|i: int| last_at(s, c, i)) by {
        if s.last() == c {
            assert(last_at(s, c, s.len() - 1));
        } else {
            let front = s.drop_last();
            let k = choose|k: int| 0 <= k < s.len() && s[k] == c;
            assert(front[k] == c);
            lemma_last_place(front, c);
            let i = last_place(front, c);
            assert(last_at(front, c, i));
            assert forall|j: int| i < j < s.len() implies s[j] != c by {
                if j < front.len() {
                    assert(front[j] != c);
                }
            }
            assert(s[i] == front[i]);
            assert(last_at(s, c, i));
        }
    }
}

/// The names with a comma between any two of them.
pub open spec fn comma_list(names: Seq<Seq<char>>) -> Seq<char>
    decreases names.len(),
{
    if names.len() == 0 {
        Seq::empty()
    } else if names.len() == 1 {
        names[0]
    } else {
        comma_list(names.drop_last()).push(',') + names.last()
    }
}

/// Whether a name can stand in a list: it is not empty, holds no comma, and has
/// no white space around it.
pub open spec fn is_member(name: Seq<char>) -> bool {
    name.len() > 0 && !name.contains(',') && trimmed(name) == name
}

proof fn lemma_comma_list(names: Seq<Seq<char>>)
    requires
        names.len() > 0,
        forall|i: int| 0 <= i < names.len() ==> is_member(#[trigger] names[i]),
    ensures
        pieces_of(comma_list(names), ',') == names,
        non_empty(names) == names,
        comma_list(names).len() > 0,
        comma_list(names)[0] == names[0][0],
        comma_list(names).last() == names.last().last(),
        names.len() > 1 ==> comma_list(names).contains(','),
    decreases names.len(),
{
    let front = names.drop_last();
    assert(is_member(names[names.len() - 1]));
    lemma_one_piece(names.last(), ',');
    if names.len() == 1 {
        assert(seq![names[0]] =~= names);
        assert(non_empty(front) =~= Seq::empty());
        assert(non_empty(names) =~= names);
    } else {
        assert forall|i: int| 0 <= i < front.len() implies is_member(#[trigger] front[i]) by {
            assert(front[i] == names[i]);
        }
        lemma_comma_list(front);
        lemma_pieces_joined(comma_list(front), names.last(), ',');
        assert(pieces_of(comma_list(names), ',') =~= names);
        assert(non_empty(names) =~= names);
        assert(comma_list(names)[comma_list(front).len() as int] == ',');
    }
}

/// A list gives back the names that it was made of.
pub proof fn law_list_gives_its_members(names: Seq<Seq<char>>)
    requires
        names.len() > 1,
        forall|i: int| 0 <= i < names.len() ==> is_member(#[trigger] names[i]),
    ensures
        targets(comma_list(names)) == names,
{
    lemma_comma_list(names);
    assert(is_member(names[0]) && is_member(names[names.len() - 1]));
    lemma_trimmed_ends(names[0]);
    lemma_trimmed_ends(names.last());
    lemma_trimmed_id(comma_list(names));
}

/// A range of last octets: the network, a dot, the first and the last octet with
/// a dash between them.
pub open spec fn octet_range(net: Seq<char>, first: nat, last: nat) -> Seq<char> {
    net.push('.') + decimal(first).push('-') + decimal(last)
}

/// A range of last octets gives every address from the first to the last one.
pub proof fn law_range_gives_its_addresses(net: Seq<char>, first: nat, last: nat)
    requires
        net.len() > 0 ==> !white_space(net[0]),
        !net.contains(','),
        !net.contains('/'),
        first <= last <= 254,
    ensures
        targets(octet_range(net, first, last)) == span_targets(net, first, last),
        targets(octet_range(net, first, last)).len() == last - first + 1,
{
    let s = octet_range(net, first, last);
    let a = decimal(first);
    let b = decimal(last);
    let dot = net.len() as int;
    let dash = a.len() as int + 1;
    lemma_decimal(first);
    lemma_decimal(last);
    law_numbers_read_back(first);
    law_numbers_read_back(last);
    assert(is_digit(b[b.len() - 1]));
    assert(s[0] == (if net.len() > 0 {
        net[0]
    } else {
        '.'
    }));
    assert(s.last() == b.last());
    lemma_trimmed_id(s);
    assert forall|i: int| 0 <= i < s.len() implies s[i] == (if i < dot {
        net[i]
    } else if i == dot {
        '.'
    } else if i < dot + dash {
        a[i - dot - 1]
    } else if i == dot + dash {
        '-'
    } else {
        b[i - dot - dash - 1]
    }) by {}
    assert forall|i: int| 0 <= i < s.len() implies s[i] != ',' && s[i] != '/' by {
        if dot < i < dot + dash {
            assert(is_digit(a[i - dot - 1]));
        } else if i > dot + dash {
            assert(is_digit(b[i - dot - dash - 1]));
        } else if i < dot {
            assert(net.contains(net[i]));
        }
    }
    assert(last_at(s, '.', dot)) by {
        assert forall|j: int| dot < j < s.len() implies s[j] != '.' by {
            if j < dot + dash {
                assert(is_digit(a[j - dot - 1]));
            } else if j > dot + dash {
                assert(is_digit(b[j - dot - dash - 1]));
            }
        }
    }
    assert(last_place(s, '.') == dot);
    assert(s.contains('.')) by {
        assert(s[dot] == '.');
    }
    let tail = s.skip(dot);
    assert(first_at(tail, '-', dash)) by {
        assert forall|j: int| 0 <= j < dash implies tail[j] != '-' by {
            if j > 0 {
                assert(is_digit(a[j - 1]));
                assert(tail[j] == s[dot + j]);
            }
        }
    }
    assert(first_place(tail, '-') == dash);
    assert(tail.contains('-')) by {
        assert(tail[dash] == '-');
    }
    assert(s.subrange(dot + 1, dot + dash) =~= a);
    assert(s.skip(dot + dash + 1) =~= b);
    assert(s.take(dot) =~= net);
}

/// The block of `prefix` leading bits that holds `base` begins at a multiple of
/// its size and ends within 32 bits. Its targets are all its addresses but the
/// first and the last one.
pub proof fn law_block_leaves_out_its_ends(base: u32, prefix: nat)
    requires
        1 <= prefix <= 30,
    ensures
        ({
            let size = pow2((32 - prefix) as nat);
            let first = network(base, prefix);
            &&& first % size == 0
            &&& first <= base < first + size <= 0x1_0000_0000
            &&& block_targets(base, prefix).len() == size - 2
            &&& block_targets(base, prefix)[0] == dotted(first + 1)
            &&& block_targets(base, prefix).last() == dotted((first + size - 2) as nat)
        }),
{
    let bits = (32 - prefix) as nat;
    let size = pow2(bits);
    let b = base as nat;
    lemma2_to64();
    lemma_pow2_pos(bits);
    if bits > 2 {
        lemma_pow2_strictly_increases(2, bits);
    }
    vstd::arithmetic::div_mod::lemma_fundamental_div_mod(b as int, size as int);
    vstd::arithmetic::div_mod::lemma_mod_bound(b as int, size as int);
    let q = b as int / size as int;
    let first = network(base, prefix) as int;
    assert(first == size * q);
    vstd::arithmetic::div_mod::lemma_mod_multiples_basic(q, size as int);
    assert(size * q == q * size) by (nonlinear_arith);
    vstd::arithmetic::power2::lemma_pow2_adds(bits, prefix);
    let count = pow2(prefix) as int;
    assert(size * count == 0x1_0000_0000);
    assert(q < count) by (nonlinear_arith)
        requires
            size * q <= b,
            b < size * count,
            size > 0,
    ;
    assert(size * q + size <= size * count) by (nonlinear_arith)
        requires
            q + 1 <= count,
            size > 0,
    ;
}

/// The bits of an address are its octets one behind the other.
proof fn lemma_address_bits(a: u32, b: u32, c: u32, d: u32)
    requires
        a < 256,
        b < 256,
        c < 256,
        d < 256,
    ensures
        address_bits(a, b, c, d) == a * 0x1000000 + b * 0x10000 + c * 0x100 + d,
{
    assert((a << 24) | (b << 16) | (c << 8) | d == a * 0x1000000 + b * 0x10000 + c * 0x100 + d)
        by (bit_vector)
        requires
            a < 256,
            b < 256,
            c < 256,
            d < 256,
    ;
}

/// Four octets in dotted notation.
pub open spec fn octets(a: u32, b: u32, c: u32, d: u32) -> Seq<char> {
    decimal(a as nat).push('.') + (decimal(b as nat).push('.') + (decimal(c as nat).push('.')
        + decimal(d as nat)))
}

/// An address in dotted notation is read back.
pub proof fn law_addresses_read_back(a: u32, b: u32, c: u32, d: u32)
    requires
        a < 256,
        b < 256,
        c < 256,
        d < 256,
    ensures
        base_address(octets(a, b, c, d)) == Some(
            (a * 0x1000000 + b * 0x10000 + c * 0x100 + d) as u32,
        ),
{
    let s = octets(a, b, c, d);
    let (w, x, y, z) = (
        decimal(a as nat),
        decimal(b as nat),
        decimal(c as nat),
        decimal(d as nat),
    );
    lemma_decimal_lacks(a as nat, '.');
    lemma_decimal_lacks(b as nat, '.');
    lemma_decimal_lacks(c as nat, '.');
    lemma_decimal_lacks(d as nat, '.');
    lemma_one_piece(w, '.');
    lemma_one_piece(x, '.');
    lemma_one_piece(y, '.');
    lemma_one_piece(z, '.');
    lemma_pieces_joined(y, z, '.');
    lemma_pieces_joined(x, y.push('.') + z, '.');
    lemma_pieces_joined(w, x.push('.') + (y.push('.') + z), '.');
    assert(pieces_of(s, '.') =~= seq![w, x, y, z]);
    law_numbers_read_back(a as nat);
    law_numbers_read_back(b as nat);
    law_numbers_read_back(c as nat);
    law_numbers_read_back(d as nat);
    lemma_address_bits(a, b, c, d);
}

/// A block in its usual notation: an address, a slash and the count of leading
/// bits.
pub open spec fn block(address: Seq<char>, prefix: nat) -> Seq<char> {
    address.push('/') + decimal(prefix)
}

/// A block of 1 to 30 leading bits gives its host addresses.
pub proof fn law_block_gives_its_hosts(a: u32, b: u32, c: u32, d: u32, prefix: nat)
    requires
        a < 256,
        b < 256,
        c < 256,
        d < 256,
        1 <= prefix <= 30,
    ensures
        targets(block(octets(a, b, c, d), prefix)) == block_targets(
            (a * 0x1000000 + b * 0x10000 + c * 0x100 + d) as u32,
            prefix,
        ),
{
    let address = octets(a, b, c, d);
    let s = block(address, prefix);
    let p = decimal(prefix);
    let slash = address.len() as int;
    law_addresses_read_back(a, b, c, d);
    law_numbers_read_back(prefix);
    lemma_decimal(prefix);
    lemma_decimal(a as nat);
    assert(s[0] == decimal(a as nat)[0]);
    assert(is_digit(s[0]));
    assert(is_digit(p[p.len() - 1]));
    lemma_trimmed_id(s);
    lemma_octets_plain(a, b, c, d);
    assert forall|i: int| 0 <= i < s.len() implies s[i] != ',' by {
        if i < slash {
            assert(is_digit(address[i]) || address[i] == '.');
        } else if i > slash {
            assert(is_digit(p[i - slash - 1]));
        }
    }
    assert(first_at(s, '/', slash)) by {
        assert forall|j: int| 0 <= j < slash implies s[j] != '/' by {
            assert(is_digit(address[j]) || address[j] == '.');
        }
    }
    assert(first_place(s, '/') == slash);
    assert(s.contains('/')) by {
        assert(s[slash] == '/');
    }
    assert(s.skip(slash + 1) =~= p);
    assert(s.take(slash) =~= address);
}

/// An address in dotted notation holds digits and dots alone.
proof fn lemma_octets_plain(a: u32, b: u32, c: u32, d: u32)
    ensures
        forall|i: int|
            0 <= i < octets(a, b, c, d).len() ==> is_digit(#[trigger] octets(a, b, c, d)[i])
                || octets(a, b, c, d)[i] == '.',
{
    let (w, x, y, z) = (
        decimal(a as nat),
        decimal(b as nat),
        decimal(c as nat),
        decimal(d as nat),
    );
    lemma_decimal(a as nat);
    lemma_decimal(b as nat);
    lemma_decimal(c as nat);
    lemma_decimal(d as nat);
    let s = octets(a, b, c, d);
    let i1 = w.len() as int;
    let i2 = i1 + 1 + x.len();
    let i3 = i2 + 1 + y.len();
    assert forall|i: int| 0 <= i < s.len() implies is_digit(#[trigger] s[i]) || s[i] == '.' by {
        if i < i1 {
            assert(s[i] == w[i]);
        } else if i1 < i < i2 {
            assert(s[i] == x[i - i1 - 1]);
        } else if i2 < i < i3 {
            assert(s[i] == y[i - i2 - 1]);
        } else if i > i3 {
            assert(s[i] == z[i - i3 - 1]);
        }
    }
}

/// The octets of a number of 32 bits.
proof fn lemma_octet_values(a: int, b: int, c: int, d: int)
    requires
        0 <= a < 256,
        0 <= b < 256,
        0 <= c < 256,
        0 <= d < 256,
    ensures
        ({
            let x = a * 0x1000000 + b * 0x10000 + c * 0x100 + d;
            &&& x / 0x1000000 % 256 == a
            &&& x / 0x10000 % 256 == b
            &&& x / 0x100 % 256 == c
            &&& x % 256 == d
        }),
{
    let x = a * 0x1000000 + b * 0x10000 + c * 0x100 + d;
    assert(x / 0x1000000 == a);
    assert(x / 0x10000 == a * 0x100 + b);
    assert(x / 0x100 == a * 0x10000 + b * 0x100 + c);
}

/// A block of 24 leading bits gives the last octets 1 to 254.
pub proof fn law_block_of_24_bits(a: u32, b: u32, c: u32, d: u32)
    requires
        a < 256,
        b < 256,
        c < 256,
        d < 256,
    ensures
        targets(block(octets(a, b, c, d), 24)) =~= Seq::new(
            254,
            |i: int| octets(a, b, c, (i + 1) as u32),
        ),
{
    law_block_gives_its_hosts(a, b, c, d, 24);
    lemma2_to64();
    let base = (a * 0x1000000 + b * 0x10000 + c * 0x100 + d) as u32;
    let all = block_targets(base, 24);
    lemma_octet_values(a as int, b as int, c as int, d as int);
    assert(pow2(8) == 256);
    assert(all.len() == 254);
    assert(network(base, 24) == a * 0x1000000 + b * 0x10000 + c * 0x100);
    assert forall|i: int| 0 <= i < 254 implies #[trigger] all[i] == octets(
        a,
        b,
        c,
        (i + 1) as u32,
    ) by {
        let addr = (network(base, 24) + 1 + i) as nat;
        lemma_octet_values(a as int, b as int, c as int, i + 1);
        assert(all[i] == dotted(addr));
        reveal_strlit(".");
        assert("."@ =~= seq!['.']);
        assert(dotted(addr) =~= octets(a, b, c, (i + 1) as u32));
    }
}

/// The dotted notation of an address is read back.
pub proof fn law_dotted_reads_back(addr: u32)
    ensures
        base_address(dotted(addr as nat)) == Some(addr),
{
    let x = addr as int;
    let a = x / 0x1000000 % 256;
    let b = x / 0x10000 % 256;
    let c = x / 0x100 % 256;
    let d = x % 256;
    assert(x == a * 0x1000000 + b * 0x10000 + c * 0x100 + d);
    law_addresses_read_back(a as u32, b as u32, c as u32, d as u32);
    reveal_strlit(".");
    assert("."@ =~= seq!['.']);
    assert(dotted(addr as nat) =~= octets(a as u32, b as u32, c as u32, d as u32));
}

/// No two targets of a block are the same.
pub proof fn law_block_hosts_differ(base: u32, prefix: nat, i: int, j: int)
    requires
        1 <= prefix <= 30,
        0 <= i < j < block_targets(base, prefix).len(),
    ensures
        block_targets(base, prefix)[i] != block_targets(base, prefix)[j],
{
    law_block_leaves_out_its_ends(base, prefix);
    law_dotted_reads_back((network(base, prefix) + 1 + i) as u32);
    law_dotted_reads_back((network(base, prefix) + 1 + j) as u32);
}

/// No two targets of a range of last octets are the same.
pub proof fn law_range_addresses_differ(net: Seq<char>, first: nat, last: nat, i: int, j: int)
    requires
        0 <= i < j < span_targets(net, first, last).len(),
    ensures
        span_targets(net, first, last)[i] != span_targets(net, first, last)[j],
{
    let x = (first + i) as nat;
    let y = (first + j) as nat;
    let a = net + "."@ + decimal(x);
    let b = net + "."@ + decimal(y);
    let from = (net + "."@).len() as int;
    lemma_decimal(x);
    lemma_decimal(y);
    assert(a.skip(from) =~= decimal(x));
    assert(b.skip(from) =~= decimal(y));
}

} // verus!
