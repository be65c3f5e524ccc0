//! The parser of sweep targets.

use vstd::arithmetic::power2::{lemma2_to64, lemma_pow2_pos, pow2};
use vstd::bits::{lemma_u32_low_bits_mask_is_mod, lemma_u32_shl_is_mul};
use vstd::prelude::*;
use vstd::slice::slice_subrange;

use crate::text::{
    decimal, find, first_at, last_at, parse_number, parsed, pieces_of, push_decimal, rfind, split,
    texts, to_chars, to_text, trim, trimmed,
};

verus! {

// ---------------------------------------------------------------------------
// What an input denotes
// ---------------------------------------------------------------------------

/// The first place of `s` that holds `c`.
pub open spec fn first_place(s: Seq<char>, c: char) -> int {
    choose|i: int| first_at(s, c, i)
}

/// The last place of `s` that holds `c`.
pub open spec fn last_place(s: Seq<char>, c: char) -> int {
    choose|i: int| last_at(s, c, i)
}

/// The members of a comma-separated list: trimmed, and without the empty ones.
pub open spec fn list_targets(s: Seq<char>) -> Seq<Seq<char>> {
    non_empty(pieces_of(s, ','))
}

/// The members of `parts`, trimmed, without those that hold only white space.
pub open spec fn non_empty(parts: Seq<Seq<char>>) -> Seq<Seq<char>>
    decreases parts.len(),
{
    if parts.len() == 0 {
        Seq::empty()
    } else if trimmed(parts.last()).len() > 0 {
        non_empty(parts.drop_last()).push(trimmed(parts.last()))
    } else {
        non_empty(parts.drop_last())
    }
}

/// The 32 bits that four numbers written as an address occupy: each number is
/// shifted into its own octet, what leaves the 32 bits is lost, and the bits of
/// a number above 255 overlap those of the octets before it.
pub open spec fn address_bits(a: u32, b: u32, c: u32, d: u32) -> u32 {
    (a << 24) | (b << 16) | (c << 8) | d
}

/// The address that `s` denotes: four numbers with dots between them.
pub open spec fn base_address(s: Seq<char>) -> Option<u32> {
    let parts = pieces_of(s, '.');
    if parts.len() == 4 && is_u32(parts[0]) && is_u32(parts[1]) && is_u32(parts[2]) && is_u32(
        parts[3],
    ) {
        Some(
            address_bits(
                parsed(parts[0])->0 as u32,
                parsed(parts[1])->0 as u32,
                parsed(parts[2])->0 as u32,
                parsed(parts[3])->0 as u32,
            ),
        )
    } else {
        None
    }
}

/// Whether `s` denotes a number of 32 bits.
pub open spec fn is_u32(s: Seq<char>) -> bool {
    parsed(s) is Some && parsed(s)->0 <= u32::MAX
}

/// An address in dotted notation.
pub open spec fn dotted(addr: nat) -> Seq<char> {
    decimal(addr / 0x1000000 % 256) + "."@ + decimal(addr / 0x10000 % 256) + "."@ + decimal(
        addr / 0x100 % 256,
    ) + "."@ + decimal(addr % 256)
}

/// The first address of the block of `prefix` leading bits that holds `base`.
pub open spec fn network(base: u32, prefix: nat) -> nat {
    (base - base as nat % pow2((32 - prefix) as nat)) as nat
}

/// The host addresses of the block of `prefix` leading bits that holds `base`:
/// all of the block but its first address (the network) and its last one (the
/// broadcast address), in ascending order.
pub open spec fn block_targets(base: u32, prefix: nat) -> Seq<Seq<char>> {
    Seq::new(
        (pow2((32 - prefix) as nat) - 2) as nat,
        |i: int| dotted((network(base, prefix) + 1 + i) as nat),
    )
}

/// The targets of an input that holds a slash.
pub open spec fn slash_targets(s: Seq<char>) -> Seq<Seq<char>> {
    let slash = first_place(s, '/');
    let prefix = parsed(s.skip(slash + 1));
    let base = base_address(s.take(slash));
    if prefix is Some && 1 <= prefix->0 <= 30 && base is Some {
        block_targets(base->0, prefix->0)
    } else {
        Seq::empty()
    }
}

/// The addresses `net.first` to `net.last`.
pub open spec fn span_targets(net: Seq<char>, first: nat, last: nat) -> Seq<Seq<char>> {
    Seq::new((last - first + 1) as nat, |i: int| net + "."@ + decimal((first + i) as nat))
}

/// Where the range of last octets of `s` stands, if it holds one: behind the
/// last dot a number, a dash and a number no smaller, which is at most 254.
pub open spec fn last_octets(s: Seq<char>) -> Option<(int, nat, nat)> {
    let dot = last_place(s, '.');
    let dash = first_place(s.skip(dot), '-');
    let first = parsed(s.subrange(dot + 1, dot + dash));
    let last = parsed(s.skip(dot + dash + 1));
    if s.contains('.') && s.skip(dot).contains('-') && first is Some && last is Some && first->0
        <= last->0 <= 254 {
        Some((dot, first->0, last->0))
    } else {
        None
    }
}

/// The targets that an input denotes.
pub open spec fn targets(input: Seq<char>) -> Seq<Seq<char>> {
    let s = trimmed(input);
    if s.len() == 0 {
        Seq::empty()
    } else if s.contains(',') {
        list_targets(s)
    } else if s.contains('/') {
        slash_targets(s)
    } else {
        match last_octets(s) {
            Some((dot, first, last)) => span_targets(s.take(dot), first, last),
            None => seq![s],
        }
    }
}

// ---------------------------------------------------------------------------
// Bits and numbers
// ---------------------------------------------------------------------------

/// Clearing the low `shift` bits leaves the multiple of two to the `shift`
/// just below; setting them leaves the number just below the next multiple.
proof fn lemma_block_bounds(base: u32, shift: u32)
    requires
        2 <= shift <= 31,
    ensures
        ({
            let mask = 0xffff_ffffu32 << shift;
            let size = pow2(shift as nat);
            &&& base & mask == base - base as nat % size
            &&& (base & mask) | !mask == base - base as nat % size + size - 1
            &&& 4 <= size <= 0x8000_0000
        }),
{
    let mask = 0xffff_ffffu32 << shift;
    let low = 1u32 << shift;
    lemma2_to64();
    lemma_pow2_pos(shift as nat);
    if shift > 2 {
        vstd::arithmetic::power2::lemma_pow2_strictly_increases(2, shift as nat);
    }
    if shift < 31 {
        vstd::arithmetic::power2::lemma_pow2_strictly_increases(shift as nat, 31);
    }
    lemma_u32_shl_is_mul(1, shift);
    assert(low == pow2(shift as nat));
    let rest = (base & ((1u32 << shift) - 1) as u32);
    assert(base & ((low - 1) as u32) == base as nat % pow2(shift as nat)) by {
        vstd::bits::lemma_low_bits_mask_values();
        lemma_u32_low_bits_mask_is_mod(base, shift as nat);
        assert(vstd::bits::low_bits_mask(shift as nat) == low - 1);
    }
    assert((base & mask) == base - (base & ((low - 1) as u32)) && ((base & mask) | !mask) == (base
        & mask) + (low - 1)) by (bit_vector)
        requires
            mask == 0xffff_ffffu32 << shift,
            low == 1u32 << shift,
            2 <= shift <= 31,
    ;
}

/// The four octets of an address.
proof fn lemma_octets(addr: u32)
    ensures
        (addr >> 24) & 0xff == addr / 0x1000000 % 256,
        (addr >> 16) & 0xff == addr / 0x10000 % 256,
        (addr >> 8) & 0xff == addr / 0x100 % 256,
        addr & 0xff == addr % 256,
{
    assert((addr >> 24) & 0xff == addr / 0x1000000 % 256 && (addr >> 16) & 0xff == addr / 0x10000
        % 256 && (addr >> 8) & 0xff == addr / 0x100 % 256 && addr & 0xff == addr % 256)
        by (bit_vector);
}

// ---------------------------------------------------------------------------
// The parser
// ---------------------------------------------------------------------------

/// `addr` in dotted notation.
pub fn dotted_text(addr: u32) -> (s: String)
    ensures
        s@ == dotted(addr as nat),
{
    proof {
        lemma_octets(addr);
    }
    let mut s = String::new();
    push_decimal(&mut s, ((addr >> 24) & 0xff) as u64);
    s.append(".");
    push_decimal(&mut s, ((addr >> 16) & 0xff) as u64);
    s.append(".");
    push_decimal(&mut s, ((addr >> 8) & 0xff) as u64);
    s.append(".");
    push_decimal(&mut s, (addr & 0xff) as u64);
    assert(s@ =~= dotted(addr as nat));
    s
}

/// The members of a comma-separated list.
fn parse_list(s: &[char]) -> (out: Vec<String>)
    ensures
        texts(out@) == list_targets(s@),
{
    let parts = split(s, ',');
    let ghost all = pieces_of(s@, ',');
    let mut out: Vec<String> = Vec::new();
    let n: usize = parts.len();
    assert(texts(out@) =~= non_empty(all.take(0)));
    for i in 0..n
        invariant
            n == parts@.len(),
            all.len() == n,
            forall|j: int| 0 <= j < n ==> (#[trigger] parts@[j])@ == all[j],
            texts(out@) == non_empty(all.take(i as int)),
    {
        assert(all.take(i + 1).drop_last() =~= all.take(i as int));
        let part = trim(parts[i].as_slice());
        if part.len() > 0 {
            let ghost before = out@;
            out.push(to_text(part));
            assert(texts(out@) =~= texts(before).push(part@));
        }
    }
    assert(all.take(n as int) =~= all);
    out
}

/// The address that four numbers with dots between them denote.
fn parse_base(s: &[char]) -> (r: Option<u32>)
    ensures
        r == base_address(s@),
{
    let parts = split(s, '.');
    if parts.len() != 4 {
        return None;
    }
    match (
        parse_number(parts[0].as_slice(), u32::MAX),
        parse_number(parts[1].as_slice(), u32::MAX),
        parse_number(parts[2].as_slice(), u32::MAX),
        parse_number(parts[3].as_slice(), u32::MAX),
    ) {
        (Some(a), Some(b), Some(c), Some(d)) => Some((a << 24) | (b << 16) | (c << 8) | d),
        _ => None,
    }
}

/// The host addresses of the block of `prefix` leading bits that holds `base`.
fn block_hosts(base: u32, prefix: u32) -> (out: Vec<String>)
    requires
        1 <= prefix <= 30,
    ensures
        texts(out@) == block_targets(base, prefix as nat),
{
    let shift: u32 = 32 - prefix;
    let mask: u32 = 0xffff_ffffu32 << shift;
    let first: u32 = base & mask;
    let last: u32 = first | !mask;
    proof {
        lemma_block_bounds(base, shift);
    }
    let ghost all = block_targets(base, prefix as nat);
    assert(first == network(base, prefix as nat));
    let mut out: Vec<String> = Vec::new();
    let mut addr: u32 = first + 1;
    while addr < last
        invariant
            first == network(base, prefix as nat),
            all == block_targets(base, prefix as nat),
            first < addr <= last,
            last - first == all.len() + 1,
            out@.len() == addr - first - 1,
            forall|j: int| 0 <= j < out@.len() ==> (#[trigger] out@[j])@ == all[j],
        decreases last - addr,
    {
        out.push(dotted_text(addr));
        addr = addr + 1;
    }
    assert(texts(out@) =~= all);
    out
}

/// The addresses `net.first` to `net.last`.
fn span_hosts(net: &[char], first: u32, last: u32) -> (out: Vec<String>)
    requires
        first <= last <= 254,
    ensures
        texts(out@) == span_targets(net@, first as nat, last as nat),
{
    let ghost all = span_targets(net@, first as nat, last as nat);
    let mut out: Vec<String> = Vec::new();
    for i in first..last + 1
        invariant
            first <= last <= 254,
            all == span_targets(net@, first as nat, last as nat),
            out@.len() == i - first,
            forall|j: int| 0 <= j < out@.len() ==> (#[trigger] out@[j])@ == all[j],
    {
        let mut s = to_text(net);
        s.append(".");
        push_decimal(&mut s, i as u64);
        assert(s@ == all[i - first]);
        out.push(s);
    }
    assert(texts(out@) =~= all);
    out
}

/// Parses a sweep input into the names and addresses that it denotes.
///
///   * `192.168.1.1-50`: a range of last octets
///   * `192.168.1.0/24`: the host addresses of a block (`.1` to `.254`)
///   * `a,b,c`: a comma-separated list
///   * any other name or address: itself
pub fn parse_targets(input: &str) -> (out: Vec<String>)
    ensures
        texts(out@) == targets(input@),
{
    let all = to_chars(input);
    let s = trim(all.as_slice());
    if s.len() == 0 {
        let out: Vec<String> = Vec::new();
        assert(texts(out@) =~= Seq::empty());
        return out;
    }
    if let Some(_) = find(s, ',') {
        return parse_list(s);
    }
    if let Some(slash) = find(s, '/') {
        assert(first_place(s@, '/') == slash);
        let base = parse_base(slice_subrange(s, 0, slash));
        assert(s@.subrange(0, slash as int) =~= s@.take(slash as int));
        assert(s@.subrange(slash + 1, s@.len() as int) =~= s@.skip(slash + 1));
        if let Some(prefix) = parse_number(slice_subrange(s, slash + 1, s.len()), 255) {
            if let Some(bits) = base {
                if prefix >= 1 && prefix <= 30 {
                    return block_hosts(bits, prefix);
                }
            }
        }
        let out: Vec<String> = Vec::new();
        assert(texts(out@) =~= Seq::empty());
        return out;
    }
    if let Some(dot) = rfind(s, '.') {
        assert(last_place(s@, '.') == dot);
        let tail = slice_subrange(s, dot, s.len());
        assert(tail@ =~= s@.skip(dot as int));
        if let Some(dash) = find(tail, '-') {
            assert(first_place(tail@, '-') == dash);
            assert(tail@[0] == '.');
            let first = parse_number(slice_subrange(s, dot + 1, dot + dash), u32::MAX);
            let last = parse_number(slice_subrange(s, dot + dash + 1, s.len()), u32::MAX);
            assert(s@.subrange(dot + dash + 1, s@.len() as int) =~= s@.skip(dot + dash + 1));
            if let (Some(first), Some(last)) = (first, last) {
                if first <= last && last <= 254 {
                    let net = slice_subrange(s, 0, dot);
                    assert(net@ =~= s@.take(dot as int));
                    return span_hosts(net, first, last);
                }
            }
        }
    }
    let mut out: Vec<String> = Vec::new();
    out.push(to_text(s));
    assert(texts(out@) =~= seq![s@]);
    out
}

} // verus!
