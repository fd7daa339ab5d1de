//! IPv4 and IPv6 addresses as numbers, and their text forms.

use vstd::prelude::*;
use vstd::string::*;

use crate::text::{chars_of, decimal, digits_value, first_at, hexadecimal, parse_number, push_decimal, push_hexadecimal, split, split_on};

verus! {

/// An address of either family, as the number its bits denote.
#[derive(Debug, Clone, Copy, PartialEq, Eq, Structural)]
pub enum IpAddr {
    V4(u32),
    V6(u128),
}

// ---------------------------------------------------------------------------
// IPv4
// ---------------------------------------------------------------------------

/// The dotted decimal form of the IPv4 address `n`.
pub open spec fn v4_text(n: nat) -> Seq<char> {
    decimal(n / 0x1000000) + seq!['.'] + decimal(n / 0x10000 % 256) + seq!['.'] + decimal(
        n / 0x100 % 256,
    ) + seq!['.'] + decimal(n % 256)
}

/// The number of one part of a dotted decimal address: one to three digits, of
/// at most 255, without a leading zero.
pub open spec fn octet_value(p: Seq<char>) -> Option<nat> {
    if 1 <= p.len() <= 3 && (p.len() == 1 || p[0] != '0') {
        match digits_value(p, 255) {
            Ok(v) => Some(v),
            Err(_) => None,
        }
    } else {
        None
    }
}

/// The IPv4 address that `s` denotes.
pub open spec fn v4_value(s: Seq<char>) -> Option<nat> {
    let parts = split_on(s, '.');
    if parts.len() != 4 {
        None
    } else {
        match (
            octet_value(parts[0]),
            octet_value(parts[1]),
            octet_value(parts[2]),
            octet_value(parts[3]),
        ) {
            (Some(a), Some(b), Some(c), Some(d)) => Some(
                a * 0x1000000 + b * 0x10000 + c * 0x100 + d,
            ),
            _ => None,
        }
    }
}

/// Append the dotted decimal form of `n`.
pub fn push_v4(out: &mut String, n: u32)
    ensures
        final(out)@ == old(out)@ + v4_text(n as nat),
{
    let ghost before = out@;
    push_decimal(out, (n / 0x1000000) as u128);
    out.push('.');
    push_decimal(out, (n / 0x10000 % 256) as u128);
    out.push('.');
    push_decimal(out, (n / 0x100 % 256) as u128);
    out.push('.');
    push_decimal(out, (n % 256) as u128);
    assert(out@ =~= before + v4_text(n as nat));
}

/// The view of an optional number.
pub open spec fn opt_nat(o: Option<u128>) -> Option<nat> {
    match o {
        Some(n) => Some(n as nat),
        None => None,
    }
}

fn octet(p: &str) -> (r: Option<u128>)
    ensures
        opt_nat(r) == octet_value(p@),
        r is Some ==> r->0 <= 255,
{
    let cs = chars_of(p);
    if cs.len() < 1 || cs.len() > 3 || (cs.len() > 1 && cs[0] == '0') || cs[0] == '+' {
        proof {
            if cs@.len() >= 1 && cs@[0] == '+' {
                crate::text::lemma_digits_first(cs@, 255);
            }
        }
        return None;
    }
    match parse_number(p, 255) {
        Ok(v) => Some(v as u128),
        Err(_) => None,
    }
}

/// The IPv4 address that `s` denotes in dotted decimal.
pub fn parse_v4(s: &str) -> (r: Option<u128>)
    ensures
        opt_nat(r) == v4_value(s@),
        r is Some ==> r->0 <= u32::MAX,
{
    let parts = split(s, '.');
    if parts.len() != 4 {
        return None;
    }
    assert(parts.deep_view()[0] == parts[0]@);
    assert(parts.deep_view()[1] == parts[1]@);
    assert(parts.deep_view()[2] == parts[2]@);
    assert(parts.deep_view()[3] == parts[3]@);
    match (octet(parts[0]), octet(parts[1]), octet(parts[2]), octet(parts[3])) {
        (Some(a), Some(b), Some(c), Some(d)) => Some(
            a * 0x1000000 + b * 0x10000 + c * 0x100 + d,
        ),
        _ => None,
    }
}

// ---------------------------------------------------------------------------
// IPv6
// ---------------------------------------------------------------------------

/// The lowest `k` groups of 16 bits of `n`, the highest first.
pub open spec fn groups_of(n: nat, k: nat) -> Seq<nat>
    decreases k,
{
    if k == 0 {
        Seq::empty()
    } else {
        groups_of(n / 0x10000, (k - 1) as nat).push(n % 0x10000)
    }
}

/// The number that groups of 16 bits denote, the highest first.
pub open spec fn groups_value(g: Seq<nat>) -> nat
    decreases g.len(),
{
    if g.len() == 0 {
        0
    } else {
        groups_value(g.drop_last()) * 0x10000 + g.last()
    }
}

/// The number of a hexadecimal digit.
pub open spec fn hex_digit(c: char) -> Option<nat> {
    if '0' <= c <= '9' {
        Some((c as nat - 48) as nat)
    } else if 'a' <= c <= 'f' {
        Some((c as nat - 87) as nat)
    } else if 'A' <= c <= 'F' {
        Some((c as nat - 55) as nat)
    } else {
        None
    }
}

/// The number that hexadecimal digits denote.
pub open spec fn hex_value(p: Seq<char>) -> Option<nat>
    decreases p.len(),
{
    if p.len() == 0 {
        Some(0)
    } else {
        match (hex_value(p.drop_last()), hex_digit(p.last())) {
            (Some(v), Some(d)) => Some(v * 16 + d),
            _ => None,
        }
    }
}

/// The number of one group: one to four hexadecimal digits.
pub open spec fn group_value(p: Seq<char>) -> Option<nat> {
    if 1 <= p.len() <= 4 {
        hex_value(p)
    } else {
        None
    }
}

/// The groups that `fields` denote, each on its own.
pub open spec fn plain_groups(fields: Seq<Seq<char>>) -> Option<Seq<nat>>
    decreases fields.len(),
{
    if fields.len() == 0 {
        Some(Seq::empty())
    } else {
        match (plain_groups(fields.drop_last()), group_value(fields.last())) {
            (Some(g), Some(v)) => Some(g.push(v)),
            _ => None,
        }
    }
}

/// The groups that `fields` denote, where the last may be an IPv4 address, which
/// stands for two groups.
pub open spec fn tail_groups(fields: Seq<Seq<char>>) -> Option<Seq<nat>> {
    if fields.len() == 0 {
        Some(Seq::empty())
    } else {
        match v4_value(fields.last()) {
            Some(v) => match plain_groups(fields.drop_last()) {
                Some(g) => Some(g.push(v / 0x10000).push(v % 0x10000)),
                None => None,
            },
            None => plain_groups(fields),
        }
    }
}

/// The fields of `s` between colons; none where `s` is empty.
pub open spec fn colon_fields(s: Seq<char>) -> Seq<Seq<char>> {
    if s.len() == 0 {
        Seq::empty()
    } else {
        split_on(s, ':')
    }
}

/// The index of the first `::` in `s`, or the length of `s` without one.
pub open spec fn double_at(s: Seq<char>) -> int
    decreases s.len(),
{
    if s.len() < 2 {
        s.len() as int
    } else if s[0] == ':' && s[1] == ':' {
        0
    } else {
        1 + double_at(s.skip(1))
    }
}

/// `n` groups of zero bits.
pub open spec fn zero_groups(n: nat) -> Seq<nat> {
    Seq::new(n, |i: int| 0nat)
}

/// The IPv6 address that `s` denotes: eight groups, or fewer with one `::` that
/// stands for at least one group of zeros; an IPv4 address may stand for the
/// last two groups.
pub open spec fn v6_value(s: Seq<char>) -> Option<nat> {
    let i = double_at(s);
    if i < s.len() {
        match (plain_groups(colon_fields(s.take(i))), tail_groups(colon_fields(s.skip(i + 2)))) {
            (Some(h), Some(t)) => if h.len() + t.len() <= 7 {
                Some(groups_value(h + zero_groups((8 - h.len() - t.len()) as nat) + t))
            } else {
                None
            },
            _ => None,
        }
    } else {
        match tail_groups(split_on(s, ':')) {
            Some(g) => if g.len() == 8 {
                Some(groups_value(g))
            } else {
                None
            },
            None => None,
        }
    }
}

/// The number of zero groups in a row from index `i` on.
pub open spec fn zero_run(g: Seq<nat>, i: int) -> int
    decreases g.len() - i,
{
    if 0 <= i < g.len() && g[i] == 0 {
        1 + zero_run(g, i + 1)
    } else {
        0
    }
}

/// Where the longest run of zero groups at or after `i` starts, the first of
/// several.
pub open spec fn best_run(g: Seq<nat>, i: int) -> int
    decreases g.len() - i,
{
    if i >= g.len() {
        g.len() as int
    } else {
        let rest = best_run(g, i + 1);
        if zero_run(g, i) >= zero_run(g, rest) {
            i
        } else {
            rest
        }
    }
}

/// The groups in hexadecimal, with colons between them.
pub open spec fn groups_text(g: Seq<nat>) -> Seq<char>
    decreases g.len(),
{
    if g.len() == 0 {
        Seq::empty()
    } else if g.len() == 1 {
        hexadecimal(g[0])
    } else {
        groups_text(g.drop_last()) + seq![':'] + hexadecimal(g.last())
    }
}

/// The text form of the IPv6 address `n`: lower-case groups without leading
/// zeros, where `::` stands for the first longest run of two or more zero
/// groups, and where an IPv4-mapped address shows its IPv4 part in decimal.
pub open spec fn v6_text(n: nat) -> Seq<char> {
    let g = groups_of(n, 8);
    let start = best_run(g, 0);
    let len = zero_run(g, start);
    if n / 0x1_0000_0000 == 0xffff {
        "::ffff:"@ + v4_text(n % 0x1_0000_0000)
    } else if len > 1 {
        groups_text(g.take(start)) + "::"@ + groups_text(g.skip(start + len))
    } else {
        groups_text(g)
    }
}

/// The view of groups.
pub open spec fn group_nats(g: Seq<u16>) -> Seq<nat> {
    g.map_values(|x: u16| x as nat)
}

/// The eight groups of an address, the highest first.
fn groups(n: u128) -> (r: Vec<u16>)
    ensures
        group_nats(r@) == groups_of(n as nat, 8),
        r.len() == 8,
{
    proof {
        reveal_with_fuel(groups_of, 9);
    }
    let mut r: Vec<u16> = Vec::new();
    let g7 = (n % 0x10000) as u16;
    let n6 = n / 0x10000;
    let g6 = (n6 % 0x10000) as u16;
    let n5 = n6 / 0x10000;
    let g5 = (n5 % 0x10000) as u16;
    let n4 = n5 / 0x10000;
    let g4 = (n4 % 0x10000) as u16;
    let n3 = n4 / 0x10000;
    let g3 = (n3 % 0x10000) as u16;
    let n2 = n3 / 0x10000;
    let g2 = (n2 % 0x10000) as u16;
    let n1 = n2 / 0x10000;
    let g1 = (n1 % 0x10000) as u16;
    let n0 = n1 / 0x10000;
    let g0 = (n0 % 0x10000) as u16;
    r.push(g0);
    r.push(g1);
    r.push(g2);
    r.push(g3);
    r.push(g4);
    r.push(g5);
    r.push(g6);
    r.push(g7);
    assert(group_nats(r@) =~= groups_of(n as nat, 8));
    r
}

/// The number of zero groups in a row from index `i` on.
fn run_length(g: &[u16], i: usize) -> (r: usize)
    requires
        i <= g.len(),
    ensures
        r == zero_run(group_nats(g@), i as int),
        i + r <= g.len(),
    decreases g.len() - i,
{
    if i < g.len() && g[i] == 0 {
        let rest = run_length(g, i + 1);
        1 + rest
    } else {
        0
    }
}

/// Where the longest run of zero groups at or after `i` starts.
fn longest_run(g: &[u16], i: usize) -> (r: usize)
    requires
        i <= g.len(),
    ensures
        r == best_run(group_nats(g@), i as int),
        i <= r <= g.len(),
    decreases g.len() - i,
{
    if i >= g.len() {
        g.len()
    } else {
        let rest = longest_run(g, i + 1);
        if run_length(g, i) >= run_length(g, rest) {
            i
        } else {
            rest
        }
    }
}

/// Append the groups from `from` up to `to`.
fn push_groups(out: &mut String, g: &[u16], from: usize, to: usize)
    requires
        from <= to <= g.len(),
    ensures
        final(out)@ == old(out)@ + groups_text(group_nats(g@).subrange(from as int, to as int)),
{
    let ghost before = out@;
    let ghost gs = group_nats(g@);
    let mut i = from;
    while i < to
        invariant
            from <= i <= to <= g.len(),
            gs == group_nats(g@),
            out@ == before + groups_text(gs.subrange(from as int, i as int)),
        decreases to - i,
    {
        let ghost sofar = out@;
        proof {
            let next = gs.subrange(from as int, i + 1);
            assert(next.drop_last() =~= gs.subrange(from as int, i as int));
            assert(next.last() == g@[i as int] as nat);
        }
        if i > from {
            out.push(':');
        }
        push_hexadecimal(out, g[i] as u128);
        i += 1;
        assert(out@ =~= before + groups_text(gs.subrange(from as int, i as int)));
    }
}

/// Append the text form of the IPv6 address `n`.
pub fn push_v6(out: &mut String, n: u128)
    ensures
        final(out)@ == old(out)@ + v6_text(n as nat),
{
    let ghost before = out@;
    let g = groups(n);
    let ghost gs = groups_of(n as nat, 8);
    if n / 0x1_0000_0000 == 0xffff {
        out.append("::ffff:");
        push_v4(out, (n % 0x1_0000_0000) as u32);
        assert(out@ =~= before + v6_text(n as nat));
        return ;
    }
    let start = longest_run(&g, 0);
    let len = run_length(&g, start);
    if len > 1 {
        push_groups(out, &g, 0, start);
        out.append("::");
        push_groups(out, &g, start + len, g.len());
        proof {
            assert(gs.subrange(0, start as int) =~= gs.take(start as int));
            assert(gs.subrange(start + len, 8) =~= gs.skip(start + len));
            assert(out@ =~= before + v6_text(n as nat));
        }
    } else {
        push_groups(out, &g, 0, g.len());
        assert(gs.subrange(0, 8) =~= gs);
    }
}

/// The number of one group.
fn group(p: &str) -> (r: Option<u16>)
    ensures
        match r {
            Some(v) => group_value(p@) == Some(v as nat),
            None => group_value(p@) is None,
        },
{
    let cs = chars_of(p);
    if cs.len() < 1 || cs.len() > 4 {
        return None;
    }
    let mut v: u32 = 0;
    let mut i: usize = 0;
    while i < cs.len()
        invariant
            i <= cs.len() <= 4,
            cs@ == p@,
            hex_value(cs@.take(i as int)) == Some(v as nat),
            i == 0 ==> v == 0,
            i == 1 ==> v < 0x10,
            i == 2 ==> v < 0x100,
            i == 3 ==> v < 0x1000,
            i == 4 ==> v < 0x10000,
        decreases cs.len() - i,
    {
        let c = cs[i];
        proof {
            assert(cs@.take(i as int + 1).drop_last() =~= cs@.take(i as int));
        }
        let d: u32 = if '0' <= c && c <= '9' {
            c as u32 - 48
        } else if 'a' <= c && c <= 'f' {
            c as u32 - 87
        } else if 'A' <= c && c <= 'F' {
            c as u32 - 55
        } else {
            proof {
                lemma_hex_none(cs@, i as int + 1);
            }
            return None;
        };
        v = v * 16 + d;
        i += 1;
    }
    assert(cs@.take(i as int) =~= cs@);
    Some(v as u16)
}

/// Once a prefix is refused, so is the whole.
proof fn lemma_hex_none(s: Seq<char>, n: int)
    requires
        0 <= n <= s.len(),
        hex_value(s.take(n)) is None,
    ensures
        hex_value(s) is None,
    decreases s.len() - n,
{
    if n < s.len() {
        assert(s.take(n + 1).drop_last() =~= s.take(n));
        lemma_hex_none(s, n + 1);
    } else {
        assert(s.take(n) =~= s);
    }
}

/// Once a prefix of the fields is refused, so are all.
proof fn lemma_plain_none(f: Seq<Seq<char>>, n: int)
    requires
        0 <= n <= f.len(),
        plain_groups(f.take(n)) is None,
    ensures
        plain_groups(f) is None,
    decreases f.len() - n,
{
    if n < f.len() {
        assert(f.take(n + 1).drop_last() =~= f.take(n));
        lemma_plain_none(f, n + 1);
    } else {
        assert(f.take(n) =~= f);
    }
}

/// The view of optional groups.
pub open spec fn opt_groups(o: Option<Vec<u16>>) -> Option<Seq<nat>> {
    match o {
        Some(g) => Some(group_nats(g@)),
        None => None,
    }
}

/// The groups that the first `n` fields denote.
fn parse_plain(fields: &[&str], n: usize) -> (r: Option<Vec<u16>>)
    requires
        n <= fields.len(),
    ensures
        opt_groups(r) == plain_groups(fields.deep_view().take(n as int)),
        r is Some ==> r->0.len() == n,
{
    let mut g: Vec<u16> = Vec::new();
    let mut i: usize = 0;
    let ghost all = fields.deep_view().take(n as int);
    assert(group_nats(g@) =~= Seq::<nat>::empty());
    while i < n
        invariant
            i <= n <= fields.len(),
            all == fields.deep_view().take(n as int),
            g.len() == i,
            plain_groups(all.take(i as int)) == Some(group_nats(g@)),
        decreases n - i,
    {
        proof {
            assert(all.take(i as int + 1).drop_last() =~= all.take(i as int));
            assert(all.take(i as int + 1).last() == fields[i as int]@);
        }
        match group(fields[i]) {
            Some(v) => {
                let ghost before = group_nats(g@);
                g.push(v);
                assert(group_nats(g@) =~= before.push(v as nat));
            },
            None => {
                proof {
                    lemma_plain_none(all, i as int + 1);
                }
                return None;
            },
        }
        i += 1;
    }
    assert(all.take(i as int) =~= all);
    Some(g)
}

/// The groups that `fields` denote, with an IPv4 address allowed at the end.
fn parse_tail(fields: &[&str]) -> (r: Option<Vec<u16>>)
    ensures
        opt_groups(r) == tail_groups(fields.deep_view()),
        r is Some ==> r->0.len() <= fields.len() + 1,
{
    if fields.len() == 0 {
        let g: Vec<u16> = Vec::new();
        assert(group_nats(g@) =~= Seq::<nat>::empty());
        return Some(g);
    }
    let n = fields.len();
    assert(fields.deep_view().last() == fields[n - 1]@);
    match parse_v4(fields[n - 1]) {
        Some(v) => {
            assert(fields.deep_view().take(n - 1) =~= fields.deep_view().drop_last());
            match parse_plain(fields, n - 1) {
                Some(mut g) => {
                    let ghost before = group_nats(g@);
                    let hi: u16 = (v / 0x10000) as u16;
                    let lo: u16 = (v % 0x10000) as u16;
                    g.push(hi);
                    g.push(lo);
                    assert(group_nats(g@) =~= before.push(hi as nat).push(lo as nat));
                    Some(g)
                },
                None => None,
            }
        },
        None => {
            assert(fields.deep_view().take(n as int) =~= fields.deep_view());
            parse_plain(fields, n)
        },
    }
}

/// The fields of `s` between colons; none where `s` is empty.
fn fields_of<'a>(s: &'a str) -> (r: Vec<&'a str>)
    ensures
        r.deep_view() == colon_fields(s@),
{
    if s.is_empty() {
        let r: Vec<&'a str> = Vec::new();
        assert(r.deep_view() =~= Seq::<Seq<char>>::empty());
        r
    } else {
        split(s, ':')
    }
}

/// The index of the first `::`, or the length without one.
fn find_double(cs: &[char]) -> (r: usize)
    ensures
        r == double_at(cs@),
        r <= cs.len(),
        r < cs.len() ==> r + 2 <= cs.len(),
{
    let mut i: usize = 0;
    assert(cs@.skip(0) =~= cs@);
    while i < cs.len()
        invariant
            i <= cs.len(),
            double_at(cs@) == i + double_at(cs@.skip(i as int)),
        decreases cs.len() - i,
    {
        if i + 1 < cs.len() && cs[i] == ':' && cs[i + 1] == ':' {
            return i;
        }
        assert(cs@.skip(i as int).skip(1) =~= cs@.skip(i as int + 1));
        i += 1;
    }
    i
}

/// The number of a run of groups.
proof fn lemma_groups_bound(g: Seq<nat>)
    requires
        forall|i: int| 0 <= i < g.len() ==> g[i] < 0x10000,
    ensures
        groups_value(g) < group_limit(g.len()),
    decreases g.len(),
{
    if g.len() > 0 {
        lemma_groups_bound(g.drop_last());
    }
}

/// How many numbers `k` groups can denote.
pub open spec fn group_limit(k: nat) -> nat
    decreases k,
{
    if k == 0 {
        1
    } else {
        group_limit((k - 1) as nat) * 0x10000
    }
}

/// The number that up to eight groups denote.
fn value_of(g: &[u16]) -> (r: u128)
    requires
        g.len() <= 8,
    ensures
        r == groups_value(group_nats(g@)),
{
    let ghost gs = group_nats(g@);
    let mut v: u128 = 0;
    let mut i: usize = 0;
    while i < g.len()
        invariant
            i <= g.len() <= 8,
            gs == group_nats(g@),
            v == groups_value(gs.take(i as int)),
        decreases g.len() - i,
    {
        proof {
            lemma_groups_bound(gs.take(i as int));
            reveal_with_fuel(group_limit, 9);
            assert(gs.take(i as int + 1).drop_last() =~= gs.take(i as int));
        }
        v = v * 0x10000 + g[i] as u128;
        i += 1;
    }
    assert(gs.take(i as int) =~= gs);
    v
}

/// The IPv6 address that `s` denotes.
pub fn parse_v6(s: &str) -> (r: Option<u128>)
    ensures
        opt_nat(r) == v6_value(s@),
{
    let cs = chars_of(s);
    let i = find_double(&cs);
    if i < cs.len() {
        let head = fields_of(s.substring_char(0, i));
        let tail = fields_of(s.substring_char(i + 2, cs.len()));
        assert(s@.subrange(0, i as int) =~= s@.take(i as int));
        assert(s@.subrange(i + 2, cs@.len() as int) =~= s@.skip(i + 2));
        assert(head.deep_view().take(head@.len() as int) =~= head.deep_view());
        match (parse_plain(&head, head.len()), parse_tail(&tail)) {
            (Some(mut h), Some(mut t)) => {
                let ghost hs = group_nats(h@);
                let ghost ts = group_nats(t@);
                if h.len() > 7 || t.len() > 7 || h.len() + t.len() > 7 {
                    return None;
                }
                let fill: usize = 8 - h.len() - t.len();
                let mut k: usize = 0;
                while k < fill
                    invariant
                        k <= fill <= 8,
                        hs.len() <= 7,
                        group_nats(h@) == hs + zero_groups(k as nat),
                    decreases fill - k,
                {
                    let ghost before = group_nats(h@);
                    h.push(0);
                    k += 1;
                    assert(group_nats(h@) =~= before.push(0));
                    assert(group_nats(h@) =~= hs + zero_groups(k as nat));
                }
                let ghost filled = h@;
                h.append(&mut t);
                assert(group_nats(h@) =~= hs + zero_groups(fill as nat) + ts);
                Some(value_of(&h))
            },
            _ => None,
        }
    } else {
        let fields = split(s, ':');
        match parse_tail(&fields) {
            Some(g) => if g.len() == 8 {
                Some(value_of(&g))
            } else {
                None
            },
            None => None,
        }
    }
}

// ---------------------------------------------------------------------------
// Either family
// ---------------------------------------------------------------------------

impl IpAddr {
    /// The text form of an address.
    pub open spec fn spec_text(self) -> Seq<char> {
        match self {
            IpAddr::V4(n) => v4_text(n as nat),
            IpAddr::V6(n) => v6_text(n as nat),
        }
    }

    /// Append the text form of the address.
    pub fn push_to(self, out: &mut String)
        ensures
            final(out)@ == old(out)@ + self.spec_text(),
    {
        match self {
            IpAddr::V4(n) => push_v4(out, n),
            IpAddr::V6(n) => push_v6(out, n),
        }
    }

    /// The text form of the address.
    pub fn text(self) -> (r: String)
        ensures
            r@ == self.spec_text(),
    {
        let mut r = String::new();
        self.push_to(&mut r);
        assert(r@ =~= self.spec_text());
        r
    }

    /// The address that `s` denotes: IPv4 in dotted decimal, else IPv6.
    pub fn parse(s: &str) -> (r: Option<IpAddr>)
        ensures
            r == address_of(s@),
    {
        match parse_v4(s) {
            Some(n) => Some(IpAddr::V4(n as u32)),
            None => match parse_v6(s) {
                Some(n) => Some(IpAddr::V6(n)),
                None => None,
            },
        }
    }
}

/// The address that `s` denotes: IPv4 in dotted decimal, else IPv6.
pub open spec fn address_of(s: Seq<char>) -> Option<IpAddr> {
    match v4_value(s) {
        Some(n) => Some(IpAddr::V4(n as u32)),
        None => match v6_value(s) {
            Some(n) => Some(IpAddr::V6(n as u128)),
            None => None,
        },
    }
}

// ---------------------------------------------------------------------------
// Text forms read back
// ---------------------------------------------------------------------------

/// Splitting what starts with a part without `c`, then `c`, gives that part first.
pub proof fn lemma_split_front(a: Seq<char>, c: char, rest: Seq<char>)
    requires
        !a.contains(c),
    ensures
        split_on(a + seq![c] + rest, c) == seq![a] + split_on(rest, c),
{
    let s = a + seq![c] + rest;
    assert forall|k: int| 0 <= k < a.len() implies s[k] != c by {
        assert(s[k] == a[k]);
        assert(a.contains(a[k]));
    }
    crate::text::lemma_first_at_is(s, c, a.len() as int);
    assert(s.take(a.len() as int) =~= a);
    assert(s.skip(a.len() as int + 1) =~= rest);
}

/// A text without `c` is one part.
pub proof fn lemma_split_single(a: Seq<char>, c: char)
    requires
        !a.contains(c),
    ensures
        split_on(a, c) == seq![a],
{
    crate::text::lemma_first_at(a, c);
}

/// A decimal number of at most 255 reads back as an octet, and holds digits only.
proof fn lemma_octet(n: nat)
    requires
        n <= 255,
    ensures
        octet_value(decimal(n)) == Some(n),
        !decimal(n).contains('.'),
        !decimal(n).contains(':'),
{
    crate::text::lemma_decimal_value(n, 255);
    reveal_with_fuel(decimal, 4);
}

/// The four parts of a dotted text.
proof fn lemma_split_four(a: Seq<char>, b: Seq<char>, c: Seq<char>, d: Seq<char>)
    requires
        !a.contains('.'),
        !b.contains('.'),
        !c.contains('.'),
        !d.contains('.'),
    ensures
        split_on(a + seq!['.'] + b + seq!['.'] + c + seq!['.'] + d, '.') == seq![a, b, c, d],
{
    let dot = seq!['.'];
    assert(a + dot + b + dot + c + dot + d =~= a + dot + (b + dot + (c + dot + d)));
    lemma_split_front(a, '.', b + dot + (c + dot + d));
    lemma_split_front(b, '.', c + dot + d);
    lemma_split_front(c, '.', d);
    lemma_split_single(d, '.');
    assert(seq![a] + (seq![b] + (seq![c] + seq![d])) =~= seq![a, b, c, d]);
}

/// A dotted text holds a colon only where one of its parts does.
proof fn lemma_dotted_plain(a: Seq<char>, b: Seq<char>, c: Seq<char>, d: Seq<char>)
    requires
        !a.contains(':'),
        !b.contains(':'),
        !c.contains(':'),
        !d.contains(':'),
    ensures
        !(a + seq!['.'] + b + seq!['.'] + c + seq!['.'] + d).contains(':'),
{
    let dot = seq!['.'];
    assert(!dot.contains(':'));
    lemma_concat_plain(a, dot, ':');
    lemma_concat_plain(a + dot, b, ':');
    lemma_concat_plain(a + dot + b, dot, ':');
    lemma_concat_plain(a + dot + b + dot, c, ':');
    lemma_concat_plain(a + dot + b + dot + c, dot, ':');
    lemma_concat_plain(a + dot + b + dot + c + dot, d, ':');
}

/// What neither of two texts holds, their concatenation does not hold.
pub proof fn lemma_concat_plain(a: Seq<char>, b: Seq<char>, x: char)
    requires
        !a.contains(x),
        !b.contains(x),
    ensures
        !(a + b).contains(x),
{
    let s = a + b;
    if s.contains(x) {
        let k = choose|k: int| 0 <= k < s.len() && s[k] == x;
        if k < a.len() {
            assert(a[k] == x);
        } else {
            assert(b[k - a.len()] == x);
        }
    }
}

/// An IPv4 address is made of its four octets.
proof fn lemma_octets(n: nat)
    requires
        n < 0x1_0000_0000,
    ensures
        n / 0x1000000 <= 255,
        n / 0x10000 % 256 <= 255,
        n / 0x100 % 256 <= 255,
        n % 256 <= 255,
        n / 0x1000000 * 0x1000000 + n / 0x10000 % 256 * 0x10000 + n / 0x100 % 256 * 0x100 + n % 256
            == n,
{
}

/// Four octets in decimal, with dots between them, read back.
pub proof fn lemma_v4_parts(w: nat, x: nat, y: nat, z: nat)
    requires
        w <= 255,
        x <= 255,
        y <= 255,
        z <= 255,
    ensures
        ({
            let s = decimal(w) + seq!['.'] + decimal(x) + seq!['.'] + decimal(y) + seq!['.']
                + decimal(z);
            &&& v4_value(s) == Some(w * 0x1000000 + x * 0x10000 + y * 0x100 + z)
            &&& !s.contains(':')
        }),
{
    lemma_octet(w);
    lemma_octet(x);
    lemma_octet(y);
    lemma_octet(z);
    lemma_split_four(decimal(w), decimal(x), decimal(y), decimal(z));
    lemma_dotted_plain(decimal(w), decimal(x), decimal(y), decimal(z));
}

/// The text form of an IPv4 address reads back as that address.
pub proof fn lemma_v4_round_trip(n: nat)
    requires
        n < 0x1_0000_0000,
    ensures
        v4_value(v4_text(n)) == Some(n),
        !v4_text(n).contains(':'),
{
    lemma_octets(n);
    lemma_v4_parts(n / 0x1000000, n / 0x10000 % 256, n / 0x100 % 256, n % 256);
}

/// Groups are below 65536, and as many as asked for; together they give the
/// number back.
proof fn lemma_groups_of(n: nat, k: nat)
    requires
        n < group_limit(k),
    ensures
        groups_of(n, k).len() == k,
        forall|i: int| 0 <= i < k ==> #[trigger] groups_of(n, k)[i] < 0x10000,
        groups_value(groups_of(n, k)) == n,
    decreases k,
{
    if k > 0 {
        lemma_groups_of(n / 0x10000, (k - 1) as nat);
        assert(groups_of(n, k).drop_last() =~= groups_of(n / 0x10000, (k - 1) as nat));
    }
}

/// A group reads back from its hexadecimal form, which holds only hexadecimal
/// digits.
proof fn lemma_group(v: nat)
    requires
        v < 0x10000,
    ensures
        group_value(hexadecimal(v)) == Some(v),
        !hexadecimal(v).contains(':'),
        !hexadecimal(v).contains('.'),
        hexadecimal(v).len() > 0,
{
    lemma_hex(v);
    reveal_with_fuel(hexadecimal, 5);
}

/// Hexadecimal digits read back.
proof fn lemma_hex(v: nat)
    ensures
        hex_value(hexadecimal(v)) == Some(v),
        forall|k: int|
            0 <= k < hexadecimal(v).len() ==> hex_digit(#[trigger] hexadecimal(v)[k]) is Some,
    decreases v,
{
    if v < 16 {
        assert(hexadecimal(v).drop_last() =~= Seq::<char>::empty());
        assert(hex_value(Seq::empty()) == Some(0nat));
    } else {
        lemma_hex(v / 16);
        assert(hexadecimal(v).drop_last() =~= hexadecimal(v / 16));
        assert forall|k: int| 0 <= k < hexadecimal(v).len() implies hex_digit(
            #[trigger] hexadecimal(v)[k],
        ) is Some by {
            if k < hexadecimal(v / 16).len() {
                assert(hexadecimal(v)[k] == hexadecimal(v / 16)[k]);
            }
        }
    }
}

/// The hexadecimal forms of groups.
spec fn hexes(g: Seq<nat>) -> Seq<Seq<char>> {
    g.map_values(|v: nat| hexadecimal(v))
}

/// The parts of a text to which one more field is joined.
proof fn lemma_split_back(s: Seq<char>, c: char, a: Seq<char>)
    requires
        !a.contains(c),
    ensures
        split_on(s + seq![c] + a, c) == split_on(s, c).push(a),
    decreases s.len(),
{
    let i = first_at(s, c);
    crate::text::lemma_first_at(s, c);
    let whole = s + seq![c] + a;
    if i >= s.len() {
        lemma_split_front(s, c, a);
        lemma_split_single(a, c);
        assert(seq![s] + seq![a] =~= seq![s].push(a));
    } else {
        crate::text::lemma_first_at_is(whole, c, i);
        assert(whole.take(i) =~= s.take(i));
        assert(whole.skip(i + 1) =~= s.skip(i + 1) + seq![c] + a);
        lemma_split_back(s.skip(i + 1), c, a);
        assert(split_on(whole, c) =~= split_on(s, c).push(a));
    }
}

/// What `groups_text` writes splits back into the groups, and holds no `::`.
proof fn lemma_groups_text(g: Seq<nat>)
    requires
        forall|i: int| 0 <= i < g.len() ==> #[trigger] g[i] < 0x10000,
    ensures
        colon_fields(groups_text(g)) == hexes(g),
        plain_groups(hexes(g)) == Some(g),
        double_free(groups_text(g)),
        g.len() > 0 ==> groups_text(g).len() > 0 && groups_text(g)[0] != ':'
            && groups_text(g).last() != ':',
        g.len() == 0 ==> groups_text(g).len() == 0,
    decreases g.len(),
{
    if g.len() == 0 {
        assert(hexes(g) =~= Seq::<Seq<char>>::empty());
        assert(g =~= Seq::<nat>::empty());
    } else {
        let h = g.drop_last();
        let v = g.last();
        assert(v == g[g.len() - 1]);
        lemma_groups_text(h);
        lemma_group(v);
        let t = hexadecimal(v);
        assert(hexes(g).drop_last() =~= hexes(h));
        assert(hexes(g).last() == t);
        assert(h.push(v) =~= g);
        assert forall|k: int| 0 <= k < t.len() implies t[k] != ':' by {
            assert(t.contains(t[k]));
        }
        if g.len() == 1 {
            lemma_split_single(t, ':');
            assert(hexes(g) =~= seq![t]);
        } else {
            lemma_split_back(groups_text(h), ':', t);
            assert(hexes(g) =~= hexes(h).push(t));
            let s = groups_text(g);
            let n = groups_text(h).len() as int;
            assert(s[n] == ':' && s[n + 1] == t[0] && s[n - 1] == groups_text(h).last());
            assert forall|k: int| 0 <= k < s.len() - 1 implies !(#[trigger] s[k] == ':' && s[k + 1]
                == ':') by {
                if k < n - 1 {
                    assert(s[k] == groups_text(h)[k] && s[k + 1] == groups_text(h)[k + 1]);
                } else if k > n {
                    assert(s[k] == t[k - n - 1]);
                }
            }
            assert(s[0] == groups_text(h)[0]);
            assert(s.last() == t.last());
        }
    }
}

/// No `::` stands in `s`.
spec fn double_free(s: Seq<char>) -> bool {
    forall|k: int| 0 <= k < s.len() - 1 ==> !(#[trigger] s[k] == ':' && s[k + 1] == ':')
}

/// Where the first `::` stands.
proof fn lemma_double_at(s: Seq<char>, i: int)
    requires
        0 <= i <= s.len(),
        i < s.len() ==> i + 1 < s.len() && s[i] == ':' && s[i + 1] == ':',
        forall|k: int| 0 <= k < i && k < s.len() - 1 ==> !(#[trigger] s[k] == ':' && s[k + 1] == ':'),
    ensures
        double_at(s) == i,
    decreases s.len(),
{
    if s.len() >= 2 {
        if i > 0 {
            assert(!(s[0] == ':' && s[1] == ':'));
            let t = s.skip(1);
            assert forall|k: int| 0 <= k < i - 1 && k < t.len() - 1 implies !(#[trigger] t[k] == ':'
                && t[k + 1] == ':') by {
                assert(t[k] == s[k + 1] && t[k + 1] == s[k + 2]);
            }
            lemma_double_at(t, i - 1);
        }
    }
}

/// The last of several hexadecimal fields is no IPv4 address.
proof fn lemma_tail_plain(g: Seq<nat>)
    requires
        forall|i: int| 0 <= i < g.len() ==> #[trigger] g[i] < 0x10000,
    ensures
        tail_groups(hexes(g)) == Some(g),
{
    lemma_groups_text(g);
    if g.len() > 0 {
        assert(g.last() == g[g.len() - 1]);
        lemma_group(g.last());
        lemma_split_single(hexadecimal(g.last()), '.');
        assert(hexes(g).last() == hexadecimal(g.last()));
    } else {
        assert(g =~= Seq::<nat>::empty());
    }
}

/// A run of zeros holds zeros only, and stays inside.
proof fn lemma_zero_run(g: Seq<nat>, i: int)
    requires
        0 <= i,
    ensures
        0 <= zero_run(g, i),
        i <= g.len() ==> i + zero_run(g, i) <= g.len(),
        forall|k: int| i <= k < i + zero_run(g, i) ==> g[k] == 0,
    decreases g.len() - i,
{
    if i < g.len() && g[i] == 0 {
        lemma_zero_run(g, i + 1);
    }
}

/// The longest run starts inside.
proof fn lemma_best_run(g: Seq<nat>, i: int)
    requires
        0 <= i <= g.len(),
    ensures
        i <= best_run(g, i) <= g.len(),
    decreases g.len() - i,
{
    if i < g.len() {
        lemma_best_run(g, i + 1);
    }
}

/// The text form of an IPv6 address reads back as that address.
pub proof fn lemma_v6_round_trip(n: nat)
    requires
        n < 0x1_0000_0000_0000_0000_0000_0000_0000_0000,
    ensures
        v6_value(v6_text(n)) == Some(n),
        v4_value(v6_text(n)) is None,
{
    reveal_with_fuel(group_limit, 9);
    let g = groups_of(n, 8);
    lemma_groups_of(n, 8);
    let start = best_run(g, 0);
    let len = zero_run(g, start);
    lemma_best_run(g, 0);
    lemma_zero_run(g, start);
    if n / 0x1_0000_0000 == 0xffff {
        lemma_mapped_round_trip(n);
    } else if len > 1 {
        let head = g.take(start);
        let tail = g.skip(start + len);
        lemma_groups_text(head);
        lemma_groups_text(tail);
        lemma_tail_plain(tail);
        let a = groups_text(head);
        let b = groups_text(tail);
        reveal_strlit("::");
        let s = a + "::"@ + b;
        assert(s == v6_text(n));
        let i = a.len() as int;
        assert(s[i] == ':' && s[i + 1] == ':');
        assert forall|k: int| 0 <= k < i && k < s.len() - 1 implies !(#[trigger] s[k] == ':' && s[k
            + 1] == ':') by {
            assert(s[k] == a[k]);
            if k < i - 1 {
                assert(s[k + 1] == a[k + 1]);
            }
        }
        lemma_double_at(s, i);
        assert(s.take(i) =~= a);
        assert(s.skip(i + 2) =~= b);
        assert(head + zero_groups(len as nat) + tail =~= g);
        lemma_colon_no_v4(s, i);
    } else {
        lemma_groups_text(g);
        lemma_tail_plain(g);
        let s = groups_text(g);
        lemma_double_at(s, s.len() as int);
        assert(s == groups_text(g.drop_last()) + seq![':'] + hexadecimal(g.last()));
        lemma_colon_no_v4(s, groups_text(g.drop_last()).len() as int);
    }
}

/// A text with a colon is no IPv4 address.
proof fn lemma_colon_no_v4(s: Seq<char>, i: int)
    requires
        0 <= i < s.len(),
        s[i] == ':',
    ensures
        v4_value(s) is None,
{
    if v4_value(s) is Some {
        let parts = split_on(s, '.');
        lemma_split_holds(s, '.', i);
        let k = choose|k: int| 0 <= k < parts.len() && #[trigger] parts[k].contains(':');
        let p = parts[k];
        assert(octet_value(p) is Some);
        let j = choose|j: int| 0 <= j < p.len() && p[j] == ':';
        lemma_digits_only(p, 255, j);
    }
}

/// What is accepted as digits holds nothing else.
proof fn lemma_digits_only(s: Seq<char>, max: nat, j: int)
    requires
        0 <= j < s.len(),
        !('0' <= s[j] <= '9'),
    ensures
        digits_value(s, max) is Err,
    decreases s.len(),
{
    if j < s.len() - 1 {
        assert(s.drop_last()[j] == s[j]);
        lemma_digits_only(s.drop_last(), max, j);
    }
}

/// A character other than the separator stands in one of the parts.
proof fn lemma_split_holds(s: Seq<char>, c: char, i: int)
    requires
        0 <= i < s.len(),
        s[i] != c,
    ensures
        exists|k: int|
            0 <= k < split_on(s, c).len() && #[trigger] split_on(s, c)[k].contains(s[i]),
    decreases s.len(),
{
    let j = first_at(s, c);
    crate::text::lemma_first_at(s, c);
    let parts = split_on(s, c);
    if j >= s.len() {
        assert(parts[0] == s);
        assert(parts[0].contains(s[i]));
    } else if i < j {
        assert(parts[0] == s.take(j));
        assert(s.take(j)[i] == s[i]);
        assert(parts[0].contains(s[i]));
    } else {
        let rest = s.skip(j + 1);
        assert(rest[i - j - 1] == s[i]);
        lemma_split_holds(rest, c, i - j - 1);
        let k = choose|k: int|
            0 <= k < split_on(rest, c).len() && #[trigger] split_on(rest, c)[k].contains(s[i]);
        assert(parts[k + 1] == split_on(rest, c)[k]);
        assert(parts[k + 1].contains(s[i]));
    }
}

/// The group of four `f`s.
proof fn lemma_mapped_prefix()
    ensures
        plain_groups(seq![seq!['f', 'f', 'f', 'f']]) == Some(seq![0xffffnat]),
        !seq!['f', 'f', 'f', 'f'].contains(':'),
{
    let f = seq!['f', 'f', 'f', 'f'];
    reveal_with_fuel(hex_value, 6);
    assert(f.drop_last() =~= seq!['f', 'f', 'f']);
    assert(f.drop_last().drop_last() =~= seq!['f', 'f']);
    assert(f.drop_last().drop_last().drop_last() =~= seq!['f']);
    assert(f.drop_last().drop_last().drop_last().drop_last() =~= Seq::<char>::empty());
    assert(hex_value(f) == Some(0xffffnat));
    assert(seq![f].drop_last() =~= Seq::<Seq<char>>::empty());
    reveal_with_fuel(plain_groups, 3);
    assert(Seq::<nat>::empty().push(0xffff) =~= seq![0xffffnat]);
}

/// The number of the groups of an IPv4-mapped address.
proof fn lemma_mapped_value(low: nat)
    requires
        low < 0x1_0000_0000,
    ensures
        groups_value(
            Seq::<nat>::empty() + zero_groups(5) + seq![0xffffnat].push(low / 0x10000).push(
                low % 0x10000,
            ),
        ) == 0xffff_0000_0000 + low,
{
    let all = Seq::<nat>::empty() + zero_groups(5) + seq![0xffffnat].push(low / 0x10000).push(
        low % 0x10000,
    );
    lemma_zeros(5);
    let x = all.drop_last();
    let y = x.drop_last();
    let z = y.drop_last();
    assert(all.last() == low % 0x10000);
    assert(x.last() == low / 0x10000);
    assert(y.last() == 0xffff);
    assert(z =~= zero_groups(5));
    assert(groups_value(y) == 0xffff);
    assert(groups_value(x) == 0xffff * 0x10000 + low / 0x10000);
}

/// The text form of an IPv4-mapped address reads back.
proof fn lemma_mapped_round_trip(n: nat)
    requires
        n / 0x1_0000_0000 == 0xffff,
    ensures
        v6_value(v6_text(n)) == Some(n),
        v4_value(v6_text(n)) is None,
{
    let low = n % 0x1_0000_0000;
    let d = v4_text(low);
    lemma_v4_round_trip(low);
    reveal_strlit("::ffff:");
    let s = v6_text(n);
    assert(s == "::ffff:"@ + d);
    lemma_double_at(s, 0);
    assert(s.take(0) =~= Seq::<char>::empty());
    let f = seq!['f', 'f', 'f', 'f'];
    assert(s.skip(2) =~= f + seq![':'] + d);
    lemma_mapped_prefix();
    lemma_split_front(f, ':', d);
    lemma_split_single(d, ':');
    let fields = split_on(s.skip(2), ':');
    assert(fields =~= seq![f, d]);
    assert(fields.drop_last() =~= seq![f]);
    lemma_mapped_value(low);
    lemma_colon_no_v4(s, 0);
}

/// Groups of zeros denote zero.
proof fn lemma_zeros(k: nat)
    ensures
        groups_value(zero_groups(k)) == 0,
    decreases k,
{
    if k > 0 {
        assert(zero_groups(k).drop_last() =~= zero_groups((k - 1) as nat));
        lemma_zeros((k - 1) as nat);
    }
}

/// Whether `c` may stand in the text form of an address.
pub open spec fn is_address_char(c: char) -> bool {
    '0' <= c <= '9' || 'a' <= c <= 'f' || c == ':' || c == '.'
}

/// Whether every character of `s` may stand in the text form of an address.
pub open spec fn address_chars(s: Seq<char>) -> bool {
    forall|k: int| 0 <= k < s.len() ==> is_address_char(#[trigger] s[k])
}

proof fn lemma_address_concat(a: Seq<char>, b: Seq<char>)
    requires
        address_chars(a),
        address_chars(b),
    ensures
        address_chars(a + b),
{
    let s = a + b;
    assert forall|k: int| 0 <= k < s.len() implies is_address_char(#[trigger] s[k]) by {
        if k < a.len() {
            assert(s[k] == a[k]);
        } else {
            assert(s[k] == b[k - a.len()]);
        }
    }
}

proof fn lemma_decimal_chars(n: nat)
    ensures
        address_chars(decimal(n)),
        decimal(n).len() > 0,
{
    crate::text::lemma_decimal_value(n, n);
}

proof fn lemma_hexadecimal_chars(n: nat)
    ensures
        address_chars(hexadecimal(n)),
        hexadecimal(n).len() > 0,
    decreases n,
{
    if n >= 16 {
        lemma_hexadecimal_chars(n / 16);
    }
}

proof fn lemma_v4_chars(n: nat)
    ensures
        address_chars(v4_text(n)),
        v4_text(n).len() > 0,
{
    let (a, b, c, d) = (
        decimal(n / 0x1000000),
        decimal(n / 0x10000 % 256),
        decimal(n / 0x100 % 256),
        decimal(n % 256),
    );
    let dot = seq!['.'];
    lemma_decimal_chars(n / 0x1000000);
    lemma_decimal_chars(n / 0x10000 % 256);
    lemma_decimal_chars(n / 0x100 % 256);
    lemma_decimal_chars(n % 256);
    assert(address_chars(dot));
    lemma_address_concat(a, dot);
    lemma_address_concat(a + dot, b);
    lemma_address_concat(a + dot + b, dot);
    lemma_address_concat(a + dot + b + dot, c);
    lemma_address_concat(a + dot + b + dot + c, dot);
    lemma_address_concat(a + dot + b + dot + c + dot, d);
}

proof fn lemma_groups_chars(g: Seq<nat>)
    ensures
        address_chars(groups_text(g)),
        g.len() > 0 ==> groups_text(g).len() > 0,
    decreases g.len(),
{
    if g.len() == 1 {
        lemma_hexadecimal_chars(g[0]);
    } else if g.len() > 1 {
        lemma_groups_chars(g.drop_last());
        lemma_hexadecimal_chars(g.last());
        let colon = seq![':'];
        assert(address_chars(colon));
        lemma_address_concat(groups_text(g.drop_last()), colon);
        lemma_address_concat(groups_text(g.drop_last()) + colon, hexadecimal(g.last()));
    }
}

/// The text form of an address holds digits, colons and dots only.
pub proof fn lemma_text_chars(a: IpAddr)
    ensures
        address_chars(a.spec_text()),
        a.spec_text().len() > 0,
{
    match a {
        IpAddr::V4(n) => lemma_v4_chars(n as nat),
        IpAddr::V6(n) => {
            let n = n as nat;
            let g = groups_of(n, 8);
            let start = best_run(g, 0);
            let len = zero_run(g, start);
            if n / 0x1_0000_0000 == 0xffff {
                reveal_strlit("::ffff:");
                lemma_v4_chars(n % 0x1_0000_0000);
                assert(address_chars("::ffff:"@));
                lemma_address_concat("::ffff:"@, v4_text(n % 0x1_0000_0000));
            } else if len > 1 {
                reveal_strlit("::");
                lemma_groups_chars(g.take(start));
                lemma_groups_chars(g.skip(start + len));
                assert(address_chars("::"@));
                lemma_address_concat(groups_text(g.take(start)), "::"@);
                lemma_address_concat(
                    groups_text(g.take(start)) + "::"@,
                    groups_text(g.skip(start + len)),
                );
            } else {
                reveal_with_fuel(group_limit, 9);
                lemma_groups_of(n, 8);
                lemma_groups_chars(g);
            }
        },
    }
}

/// A field with a character that is no hexadecimal digit denotes no groups.
proof fn lemma_odd_field(f: Seq<Seq<char>>, k: int, x: char)
    requires
        0 <= k < f.len(),
        f[k].contains(x),
        hex_digit(x) is None,
    ensures
        plain_groups(f) is None,
{
    let p = f[k];
    let j = choose|j: int| 0 <= j < p.len() && p[j] == x;
    assert(p.take(j + 1).last() == x);
    lemma_hex_none(p, j + 1);
    assert(f.take(k + 1).last() == p);
    lemma_plain_none(f, k + 1);
}

/// A character that no IPv4 address holds makes a text none.
proof fn lemma_odd_v4(s: Seq<char>, i: int)
    requires
        0 <= i < s.len(),
        !('0' <= s[i] <= '9'),
        s[i] != '.',
    ensures
        v4_value(s) is None,
{
    if v4_value(s) is Some {
        let parts = split_on(s, '.');
        lemma_split_holds(s, '.', i);
        let k = choose|k: int| 0 <= k < parts.len() && #[trigger] parts[k].contains(s[i]);
        let p = parts[k];
        assert(octet_value(p) is Some);
        let j = choose|j: int| 0 <= j < p.len() && p[j] == s[i];
        lemma_digits_only(p, 255, j);
    }
}

/// Fields with a slash in one of them denote no groups.
proof fn lemma_slash_tail(s: Seq<char>, i: int)
    requires
        0 <= i < s.len(),
        s[i] == '/',
    ensures
        plain_groups(colon_fields(s)) is None,
        tail_groups(colon_fields(s)) is None,
{
    let f = colon_fields(s);
    lemma_split_holds(s, ':', i);
    let k = choose|k: int| 0 <= k < f.len() && #[trigger] f[k].contains('/');
    lemma_odd_field(f, k, '/');
    if v4_value(f.last()) is Some {
        if k == f.len() - 1 {
            let p = f[k];
            let j = choose|j: int| 0 <= j < p.len() && p[j] == '/';
            lemma_odd_v4(p, j);
        } else {
            assert(f.drop_last()[k] == f[k]);
            lemma_odd_field(f.drop_last(), k, '/');
        }
    }
}

/// A text with a slash is no address.
pub proof fn lemma_slash_is_no_address(s: Seq<char>)
    requires
        s.contains('/'),
    ensures
        address_of(s) is None,
{
    let i = choose|i: int| 0 <= i < s.len() && s[i] == '/';
    lemma_odd_v4(s, i);
    let d = double_at(s);
    lemma_double_bound(s);
    if d < s.len() {
        if i < d {
            assert(s.take(d)[i] == '/');
            lemma_slash_tail(s.take(d), i);
        } else {
            assert(s[d] == ':' && s[d + 1] == ':');
            assert(s.skip(d + 2)[i - d - 2] == '/');
            lemma_slash_tail(s.skip(d + 2), i - d - 2);
        }
    } else {
        lemma_slash_tail(s, i);
    }
}

/// Where the first two colons in a row stand.
proof fn lemma_double_bound(s: Seq<char>)
    ensures
        0 <= double_at(s) <= s.len(),
        double_at(s) < s.len() ==> double_at(s) + 1 < s.len() && s[double_at(s)] == ':' && s[
            double_at(s) + 1] == ':',
    decreases s.len(),
{
    if s.len() >= 2 && !(s[0] == ':' && s[1] == ':') {
        lemma_double_bound(s.skip(1));
        let d = double_at(s.skip(1));
        if d < s.skip(1).len() {
            assert(s.skip(1)[d] == s[d + 1] && s.skip(1)[d + 1] == s[d + 2]);
        }
    }
}

/// Every address reads back from its own text form.
pub proof fn law_text_reads_back(a: IpAddr)
    ensures
        address_of(a.spec_text()) == Some(a),
{
    match a {
        IpAddr::V4(n) => lemma_v4_round_trip(n as nat),
        IpAddr::V6(n) => lemma_v6_round_trip(n as nat),
    }
}

} // verus!
