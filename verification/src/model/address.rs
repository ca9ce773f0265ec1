//! The written form of IP addresses: dotted decimal for IPv4, the canonical
//! form of RFC 5952 for IPv6.

use vstd::prelude::*;

use crate::model::packet::IpAddr;
use crate::text::{digit, push_decimal};

verus! {

/// Four bytes in decimal with dots between.
pub open spec fn v4_text(o: Seq<u8>) -> Seq<char> {
    crate::text::decimal(o[0] as nat).push('.') + crate::text::decimal(o[1] as nat).push('.')
        + crate::text::decimal(o[2] as nat).push('.') + crate::text::decimal(o[3] as nat)
}

/// A number in hexadecimal, without leading zeros.
pub open spec fn hex(n: nat) -> Seq<char>
    decreases n,
{
    if n < 16 {
        seq![crate::text::digit_char(n as int)]
    } else {
        hex(n / 16).push(crate::text::digit_char((n % 16) as int))
    }
}

/// The eight groups of an IPv6 address.
pub open spec fn groups_of(o: Seq<u8>) -> Seq<u16> {
    Seq::new(8, |i: int| crate::model::packet::be16(o, 2 * i))
}

/// An IPv4 address inside IPv6: ::ffff:0:0/96.
pub open spec fn is_mapped(o: Seq<u8>) -> bool {
    (forall|i: int| 0 <= i < 10 ==> o[i] == 0) && o[10] == 0xff && o[11] == 0xff
}

/// The number of zero groups from `i` on.
pub open spec fn zero_run(g: Seq<u16>, i: int) -> int
    decreases g.len() - i,
{
    if 0 <= i < g.len() && g[i] == 0 {
        1 + zero_run(g, i + 1)
    } else {
        0
    }
}

/// Where the longest run of zero groups from `i` on starts, the first of
/// several, and how long it is.
pub open spec fn longest_run(g: Seq<u16>, i: int) -> (int, int)
    decreases g.len() - i,
{
    if i >= g.len() {
        (i, 0)
    } else {
        let later = longest_run(g, i + 1);
        if zero_run(g, i) >= later.1 {
            (i, zero_run(g, i))
        } else {
            later
        }
    }
}

/// Groups in hexadecimal with colons between.
pub open spec fn joined_groups(g: Seq<u16>) -> Seq<char>
    decreases g.len(),
{
    if g.len() == 0 {
        Seq::empty()
    } else if g.len() == 1 {
        hex(g[0] as nat)
    } else {
        hex(g[0] as nat).push(':') + joined_groups(g.drop_first())
    }
}

/// The groups of an address, the longest run of at least two zeros as two
/// colons.
pub open spec fn groups_text(g: Seq<u16>) -> Seq<char> {
    let (start, len) = longest_run(g, 0);
    if len > 1 {
        joined_groups(g.take(start)) + (seq![':', ':'] + joined_groups(g.skip(start + len)))
    } else {
        joined_groups(g)
    }
}

/// Sixteen bytes as an IPv6 address.
pub open spec fn v6_text(o: Seq<u8>) -> Seq<char> {
    if is_mapped(o) {
        "::ffff:"@ + v4_text(o.skip(12))
    } else {
        groups_text(groups_of(o))
    }
}

/// The written form of an address.
pub open spec fn ip_text(ip: IpAddr) -> Seq<char> {
    match ip {
        IpAddr::V4(o) => v4_text(o@),
        IpAddr::V6(o) => v6_text(o@),
    }
}

fn push_v4(out: &mut String, a: u8, b: u8, c: u8, d: u8)
    ensures
        final(out)@ == old(out)@ + v4_text(seq![a, b, c, d]),
{
    push_decimal(out, a as u64);
    out.push('.');
    push_decimal(out, b as u64);
    out.push('.');
    push_decimal(out, c as u64);
    out.push('.');
    push_decimal(out, d as u64);
    assert(out@ =~= old(out)@ + v4_text(seq![a, b, c, d]));
}

/// Appends a number in hexadecimal.
fn push_hex(out: &mut String, n: u16)
    ensures
        final(out)@ == old(out)@ + hex(n as nat),
    decreases n,
{
    if n >= 16 {
        push_hex(out, n / 16);
    }
    out.push(digit((n % 16) as u8));
    assert(out@ =~= old(out)@ + hex(n as nat));
}

/// Appends the groups from `from` to `to` in hexadecimal.
fn push_groups(out: &mut String, g: &[u16], from: usize, to: usize)
    requires
        from <= to <= g@.len(),
    ensures
        final(out)@ == old(out)@ + joined_groups(g@.subrange(from as int, to as int)),
{
    let ghost before = out@;
    let mut i: usize = from;
    let ghost all = joined_groups(g@.subrange(from as int, to as int));
    while i < to
        invariant
            from <= i <= to <= g@.len(),
            out@ + joined_groups(g@.subrange(i as int, to as int)) == before + all,
        decreases to - i,
    {
        let ghost rest = g@.subrange(i as int, to as int);
        let ghost now = out@;
        push_hex(out, g[i]);
        proof {
            assert(rest.drop_first() =~= g@.subrange(i + 1, to as int));
        }
        if i + 1 < to {
            out.push(':');
        }
        proof {
            assert(out@ + joined_groups(rest.drop_first()) =~= now + joined_groups(rest));
        }
        i += 1;
    }
    proof {
        assert(g@.subrange(i as int, to as int) =~= Seq::empty());
        assert(out@ =~= before + all);
    }
}

/// The number of zero groups from `i` on.
fn count_zeros(g: &[u16], i: usize) -> (r: usize)
    requires
        i <= g@.len(),
    ensures
        r == zero_run(g@, i as int),
        i + r <= g@.len(),
{
    let len: usize = g.len();
    let mut n: usize = 0;
    while i + n < len && g[i + n] == 0
        invariant
            i + n <= len == g@.len(),
            zero_run(g@, i as int) == n + zero_run(g@, i + n),
        decreases len - n,
    {
        n += 1;
    }
    n
}

/// The first longest run of zero groups: its start and its length.
fn find_longest_run(g: &[u16]) -> (r: (usize, usize))
    ensures
        r.0 == longest_run(g@, 0).0,
        r.1 == longest_run(g@, 0).1,
        r.0 + r.1 <= g@.len(),
{
    let mut i: usize = g.len();
    let mut start: usize = i;
    let mut run: usize = 0;
    while i > 0
        invariant
            i <= g@.len(),
            start == longest_run(g@, i as int).0,
            run == longest_run(g@, i as int).1,
            start + run <= g@.len(),
        decreases i,
    {
        i -= 1;
        let zeros: usize = count_zeros(g, i);
        if zeros >= run {
            start = i;
            run = zeros;
        }
    }
    (start, run)
}

fn push_v6(out: &mut String, o: &[u8; 16])
    ensures
        final(out)@ == old(out)@ + v6_text(o@),
{
    let mut leading: usize = 0;
    while leading < 10 && o[leading] == 0
        invariant
            leading <= 10,
            forall|i: int| 0 <= i < leading ==> o@[i] == 0,
        decreases 10 - leading,
    {
        leading += 1;
    }
    if leading == 10 && o[10] == 0xff && o[11] == 0xff {
        out.append("::ffff:");
        push_v4(out, o[12], o[13], o[14], o[15]);
        proof {
            assert(is_mapped(o@));
            assert(seq![o@[12], o@[13], o@[14], o@[15]] =~= o@.skip(12));
            assert(out@ =~= old(out)@ + v6_text(o@));
        }
        return;
    }
    assert(!is_mapped(o@));
    let mut g: Vec<u16> = Vec::new();
    let mut i: usize = 0;
    while i < 8
        invariant
            i <= 8,
            g@ == groups_of(o@).take(i as int),
        decreases 8 - i,
    {
        g.push(o[2 * i] as u16 * 256 + o[2 * i + 1] as u16);
        proof {
            assert(g@ =~= groups_of(o@).take(i + 1));
        }
        i += 1;
    }
    assert(g@ =~= groups_of(o@));
    let (start, run) = find_longest_run(g.as_slice());
    if run > 1 {
        push_groups(out, g.as_slice(), 0, start);
        out.append("::");
        push_groups(out, g.as_slice(), start + run, g.len());
        proof {
            reveal_strlit("::");
            assert(g@.subrange(0, start as int) =~= g@.take(start as int));
            assert(g@.subrange(start + run, g@.len() as int) =~= g@.skip(start + run));
            assert("::"@ =~= seq![':', ':']);
            assert(out@ =~= old(out)@ + v6_text(o@));
        }
    } else {
        push_groups(out, g.as_slice(), 0, g.len());
        proof {
            assert(g@.subrange(0, g@.len() as int) =~= g@);
        }
    }
}

impl IpAddr {
    /// The written form of the address.
    pub fn to_text(&self) -> (r: String)
        ensures
            r@ == ip_text(*self),
    {
        let mut out = String::new();
        match self {
            IpAddr::V4(o) => {
                push_v4(&mut out, o[0], o[1], o[2], o[3]);
                assert(seq![o@[0], o@[1], o@[2], o@[3]] =~= o@);
            },
            IpAddr::V6(o) => {
                push_v6(&mut out, o);
            },
        }
        assert(out@ =~= ip_text(*self));
        out
    }
}

/// The characters of written groups: hexadecimal digits, never a dot.
pub open spec fn is_hex_char(c: char) -> bool {
    '0' <= c <= '9' || 'a' <= c <= 'f'
}

proof fn lemma_hex_digits(n: nat)
    ensures
        hex(n).len() > 0,
        forall|i: int| 0 <= i < hex(n).len() ==> is_hex_char(#[trigger] hex(n)[i]),
    decreases n,
{
    if n >= 16 {
        lemma_hex_digits(n / 16);
    }
}

proof fn lemma_hex_injective(m: nat, n: nat)
    requires
        hex(m) == hex(n),
    ensures
        m == n,
    decreases m,
{
    let s = hex(m);
    lemma_hex_digits(m / 16);
    lemma_hex_digits(n / 16);
    assert(s.last() == crate::text::digit_char((m % 16) as int));
    assert(s.last() == crate::text::digit_char((n % 16) as int));
    crate::text::lemma_digit_injective((m % 16) as int, (n % 16) as int);
    if m >= 16 && n >= 16 {
        assert(s.drop_last() =~= hex(m / 16));
        assert(s.drop_last() =~= hex(n / 16));
        lemma_hex_injective(m / 16, n / 16);
    }
}

proof fn lemma_hex_prefix(m: nat, x: Seq<char>, n: nat, y: Seq<char>)
    requires
        hex(m) + x == hex(n) + y,
        x.len() > 0 ==> !is_hex_char(x[0]),
        y.len() > 0 ==> !is_hex_char(y[0]),
    ensures
        m == n,
        x == y,
{
    let hm = hex(m);
    let hn = hex(n);
    lemma_hex_digits(m);
    lemma_hex_digits(n);
    if hm.len() < hn.len() {
        assert((hm + x)[hm.len() as int] == x[0]);
        assert((hn + y)[hm.len() as int] == hn[hm.len() as int]);
    } else if hn.len() < hm.len() {
        assert((hn + y)[hn.len() as int] == y[0]);
        assert((hm + x)[hn.len() as int] == hm[hn.len() as int]);
    }
    crate::text::lemma_same_length_prefix(hm, x, hn, y);
    lemma_hex_injective(m, n);
}

/// Nothing, or two colons and more.
spec fn is_group_tail(t: Seq<char>) -> bool {
    t.len() == 0 || (t.len() >= 2 && t[0] == ':' && t[1] == ':')
}

proof fn lemma_joined_starts(g: Seq<u16>)
    requires
        g.len() > 0,
    ensures
        joined_groups(g).len() > 0,
        is_hex_char(joined_groups(g)[0]),
{
    lemma_hex_digits(g[0] as nat);
    assert(joined_groups(g)[0] == hex(g[0] as nat)[0]);
}

/// What follows the first group: the tail, or a colon and the other groups.
spec fn after_first(g: Seq<u16>, t: Seq<char>) -> Seq<char> {
    if g.len() == 1 {
        t
    } else {
        seq![':'] + (joined_groups(g.drop_first()) + t)
    }
}

proof fn lemma_joined_prefix(a: Seq<u16>, x: Seq<char>, b: Seq<u16>, y: Seq<char>)
    requires
        joined_groups(a) + x == joined_groups(b) + y,
        is_group_tail(x),
        is_group_tail(y),
    ensures
        a == b,
        x == y,
    decreases a.len(),
{
    let z = joined_groups(a) + x;
    if a.len() == 0 && b.len() == 0 {
        assert(joined_groups(a) + x =~= x);
        assert(joined_groups(b) + y =~= y);
        assert(a =~= b);
    } else if a.len() == 0 {
        lemma_joined_starts(b);
        assert(joined_groups(a) + x =~= x);
        assert(z[0] == joined_groups(b)[0]);
    } else if b.len() == 0 {
        lemma_joined_starts(a);
        assert(joined_groups(b) + y =~= y);
        assert(z[0] == joined_groups(a)[0]);
    } else {
        let ra = after_first(a, x);
        let rb = after_first(b, y);
        assert(joined_groups(a) + x =~= hex(a[0] as nat) + ra);
        assert(joined_groups(b) + y =~= hex(b[0] as nat) + rb);
        lemma_hex_prefix(a[0] as nat, ra, b[0] as nat, rb);
        if a.len() > 1 {
            lemma_joined_starts(a.drop_first());
            assert(ra[1] == joined_groups(a.drop_first())[0]);
        }
        if b.len() > 1 {
            lemma_joined_starts(b.drop_first());
            assert(rb[1] == joined_groups(b.drop_first())[0]);
        }
        if a.len() > 1 && b.len() > 1 {
            crate::text::lemma_same_length_prefix(
                seq![':'],
                joined_groups(a.drop_first()) + x,
                seq![':'],
                joined_groups(b.drop_first()) + y,
            );
            lemma_joined_prefix(a.drop_first(), x, b.drop_first(), y);
        } else {
            assert(a.len() == 1 && b.len() == 1);
        }
        assert(a =~= seq![a[0]] + a.drop_first());
        assert(b =~= seq![b[0]] + b.drop_first());
    }
}

proof fn lemma_zero_run(g: Seq<u16>, i: int)
    requires
        0 <= i <= g.len(),
    ensures
        0 <= zero_run(g, i),
        i + zero_run(g, i) <= g.len(),
        forall|j: int| i <= j < i + zero_run(g, i) ==> g[j] == 0,
    decreases g.len() - i,
{
    if i < g.len() && g[i] == 0 {
        lemma_zero_run(g, i + 1);
    }
}

proof fn lemma_longest_run(g: Seq<u16>, i: int)
    requires
        0 <= i <= g.len(),
    ensures
        i <= longest_run(g, i).0 <= g.len(),
        longest_run(g, i).1 == zero_run(g, longest_run(g, i).0),
        forall|j: int| i <= j < g.len() ==> #[trigger] zero_run(g, j) <= longest_run(g, i).1,
        forall|j: int|
            i <= j < longest_run(g, i).0 ==> #[trigger] zero_run(g, j) < longest_run(g, i).1,
    decreases g.len() - i,
{
    if i < g.len() {
        lemma_longest_run(g, i + 1);
    }
}

/// The run that is written as two colons is the longest one, and the first of
/// the longest.
pub proof fn law_longest_run_is_first_longest(g: Seq<u16>)
    ensures
        longest_run(g, 0).1 == zero_run(g, longest_run(g, 0).0),
        forall|j: int| 0 <= j < g.len() ==> #[trigger] zero_run(g, j) <= longest_run(g, 0).1,
        forall|j: int|
            0 <= j < longest_run(g, 0).0 ==> #[trigger] zero_run(g, j) < longest_run(g, 0).1,
{
    lemma_longest_run(g, 0);
}

/// The groups before the two colons of a text, or all groups; and the text
/// from the two colons on.
spec fn split_groups(g: Seq<u16>) -> (Seq<u16>, Seq<char>) {
    let (start, len) = longest_run(g, 0);
    if len > 1 {
        (g.take(start), seq![':', ':'] + joined_groups(g.skip(start + len)))
    } else {
        (g, Seq::empty())
    }
}

proof fn lemma_groups_injective(g: Seq<u16>, h: Seq<u16>)
    requires
        g.len() == h.len(),
        groups_text(g) == groups_text(h),
    ensures
        g == h,
{
    let (a, x) = split_groups(g);
    let (b, y) = split_groups(h);
    assert(groups_text(g) =~= joined_groups(a) + x);
    assert(groups_text(h) =~= joined_groups(b) + y);
    lemma_joined_prefix(a, x, b, y);
    lemma_longest_run(g, 0);
    lemma_longest_run(h, 0);
    let (i, m) = longest_run(g, 0);
    let (j, n) = longest_run(h, 0);
    lemma_zero_run(g, i);
    lemma_zero_run(h, j);
    if m > 1 {
        assert(x.len() >= 2);
        assert(n > 1);
        let p = g.skip(i + m);
        let q = h.skip(j + n);
        crate::text::lemma_same_length_prefix(
            seq![':', ':'],
            joined_groups(p),
            seq![':', ':'],
            joined_groups(q),
        );
        let none = Seq::<char>::empty();
        assert(joined_groups(p) + none =~= joined_groups(p));
        assert(joined_groups(q) + none =~= joined_groups(q));
        lemma_joined_prefix(p, none, q, none);
        assert(a.len() == i && b.len() == j);
        assert(p.len() == g.len() - i - m && q.len() == h.len() - j - n);
        assert forall|k: int| 0 <= k < g.len() implies g[k] == h[k] by {
            if k < i {
                assert(g[k] == a[k] && h[k] == b[k]);
            } else if k >= i + m {
                assert(g[k] == p[k - i - m] && h[k] == q[k - i - m]);
            }
        }
        assert(g =~= h);
    } else {
        assert(x.len() == 0);
        assert(n <= 1);
    }
}

proof fn lemma_joined_chars(g: Seq<u16>)
    ensures
        forall|k: int|
            0 <= k < joined_groups(g).len() ==> is_hex_char(#[trigger] joined_groups(g)[k])
                || joined_groups(g)[k] == ':',
    decreases g.len(),
{
    if g.len() > 0 {
        lemma_hex_digits(g[0] as nat);
        lemma_joined_chars(g.drop_first());
        let first = hex(g[0] as nat);
        let s = joined_groups(g);
        assert forall|k: int| 0 <= k < s.len() implies is_hex_char(#[trigger] s[k]) || s[k]
            == ':' by {
            if k < first.len() {
                assert(s[k] == first[k]);
            } else if k > first.len() {
                assert(s[k] == joined_groups(g.drop_first())[k - first.len() - 1]);
            }
        }
    }
}

proof fn lemma_groups_chars(g: Seq<u16>)
    ensures
        forall|k: int|
            0 <= k < groups_text(g).len() ==> is_hex_char(#[trigger] groups_text(g)[k])
                || groups_text(g)[k] == ':',
{
    let (a, x) = split_groups(g);
    let (start, len) = longest_run(g, 0);
    lemma_joined_chars(a);
    lemma_joined_chars(g.skip(start + len));
    assert(groups_text(g) =~= joined_groups(a) + x);
    let s = groups_text(g);
    assert forall|k: int| 0 <= k < s.len() implies is_hex_char(#[trigger] s[k]) || s[k] == ':' by {
        if k < joined_groups(a).len() {
            assert(s[k] == joined_groups(a)[k]);
        } else {
            let i = k - joined_groups(a).len();
            assert(s[k] == x[i]);
            if i >= 2 {
                assert(x[i] == joined_groups(g.skip(start + len))[i - 2]);
            }
        }
    }
}

/// An address of eight groups is written with at least one colon.
proof fn lemma_groups_have_colon(g: Seq<u16>)
    requires
        g.len() == 8,
    ensures
        exists|k: int| 0 <= k < groups_text(g).len() && #[trigger] groups_text(g)[k] == ':',
{
    let (a, x) = split_groups(g);
    let s = groups_text(g);
    assert(s =~= joined_groups(a) + x);
    if longest_run(g, 0).1 > 1 {
        assert(s[joined_groups(a).len() as int] == x[0]);
    } else {
        let first = hex(g[0] as nat);
        assert(s[first.len() as int] == ':');
    }
}

proof fn lemma_v4_chars(o: Seq<u8>)
    requires
        o.len() == 4,
    ensures
        forall|k: int|
            0 <= k < v4_text(o).len() ==> '0' <= #[trigger] v4_text(o)[k] <= '9' || v4_text(o)[k]
                == '.',
        exists|k: int| 0 <= k < v4_text(o).len() && #[trigger] v4_text(o)[k] == '.',
{
    let a = crate::text::decimal(o[0] as nat);
    let b = crate::text::decimal(o[1] as nat);
    let c = crate::text::decimal(o[2] as nat);
    let d = crate::text::decimal(o[3] as nat);
    crate::text::lemma_decimal_digits(o[0] as nat);
    crate::text::lemma_decimal_digits(o[1] as nat);
    crate::text::lemma_decimal_digits(o[2] as nat);
    crate::text::lemma_decimal_digits(o[3] as nat);
    let s = v4_text(o);
    assert(s[a.len() as int] == '.');
    assert forall|k: int| 0 <= k < s.len() implies '0' <= #[trigger] s[k] <= '9' || s[k]
        == '.' by {
        let ab = a.len() + 1;
        let bc = ab + b.len() + 1;
        let cd = bc + c.len() + 1;
        if k < a.len() {
            assert(s[k] == a[k]);
        } else if ab <= k < ab + b.len() {
            assert(s[k] == b[k - ab]);
        } else if bc <= k < bc + c.len() {
            assert(s[k] == c[k - bc]);
        } else if cd <= k {
            assert(s[k] == d[k - cd]);
        }
    }
}

proof fn lemma_dotted(a: Seq<char>, rest: Seq<char>, z: Seq<char>)
    ensures
        (a.push('.') + rest) + z == a + (seq!['.'] + (rest + z)),
{
    assert((a.push('.') + rest) + z =~= a + (seq!['.'] + (rest + z)));
}

proof fn lemma_v4_regroup(o: Seq<u8>)
    ensures
        v4_text(o) == crate::text::decimal(o[0] as nat) + (seq!['.'] + (crate::text::decimal(
            o[1] as nat,
        ) + (seq!['.'] + (crate::text::decimal(o[2] as nat) + (seq!['.'] + (
        crate::text::decimal(o[3] as nat) + Seq::<char>::empty())))))),
{
    let a = crate::text::decimal(o[0] as nat);
    let b = crate::text::decimal(o[1] as nat);
    let c = crate::text::decimal(o[2] as nat);
    let d = crate::text::decimal(o[3] as nat);
    let none = Seq::<char>::empty();
    lemma_dotted(a, b.push('.'), c.push('.') + d);
    lemma_dotted(b, none, c.push('.') + d);
    lemma_dotted(c, none, d);
    assert(a.push('.') + b.push('.') + c.push('.') + d =~= (a.push('.') + b.push('.')) + (c.push(
        '.',
    ) + d));
    assert(b.push('.') + none =~= b.push('.'));
    assert(c.push('.') + none =~= c.push('.'));
    assert(none + (c.push('.') + d) =~= c.push('.') + d);
    assert(none + d =~= d);
    assert(d + none =~= d);
}

proof fn lemma_v4_injective(o: Seq<u8>, p: Seq<u8>)
    requires
        o.len() == 4,
        p.len() == 4,
        v4_text(o) == v4_text(p),
    ensures
        o == p,
{
    let dot = seq!['.'];
    let none = Seq::<char>::empty();
    let o3 = crate::text::decimal(o[3] as nat) + none;
    let p3 = crate::text::decimal(p[3] as nat) + none;
    let o2 = crate::text::decimal(o[2] as nat) + (dot + o3);
    let p2 = crate::text::decimal(p[2] as nat) + (dot + p3);
    let o1 = crate::text::decimal(o[1] as nat) + (dot + o2);
    let p1 = crate::text::decimal(p[1] as nat) + (dot + p2);
    lemma_v4_regroup(o);
    lemma_v4_regroup(p);
    crate::text::lemma_decimal_prefix(o[0] as nat, dot + o1, p[0] as nat, dot + p1);
    crate::text::lemma_same_length_prefix(dot, o1, dot, p1);
    crate::text::lemma_decimal_prefix(o[1] as nat, dot + o2, p[1] as nat, dot + p2);
    crate::text::lemma_same_length_prefix(dot, o2, dot, p2);
    crate::text::lemma_decimal_prefix(o[2] as nat, dot + o3, p[2] as nat, dot + p3);
    crate::text::lemma_same_length_prefix(dot, o3, dot, p3);
    crate::text::lemma_decimal_prefix(o[3] as nat, none, p[3] as nat, none);
    assert(o =~= p);
}

proof fn lemma_v6_injective(o: Seq<u8>, p: Seq<u8>)
    requires
        o.len() == 16,
        p.len() == 16,
        v6_text(o) == v6_text(p),
    ensures
        o == p,
{
    let head = "::ffff:"@;
    let so = v4_text(o.skip(12));
    let sp = v4_text(p.skip(12));
    if is_mapped(o) && is_mapped(p) {
        crate::text::lemma_same_length_prefix(head, so, head, sp);
        lemma_v4_injective(o.skip(12), p.skip(12));
        assert forall|i: int| 0 <= i < 16 implies o[i] == p[i] by {
            if i >= 12 {
                assert(o[i] == o.skip(12)[i - 12] && p[i] == p.skip(12)[i - 12]);
            }
        }
        assert(o =~= p);
    } else if is_mapped(o) {
        lemma_v4_chars(o.skip(12));
        lemma_groups_chars(groups_of(p));
        let k = choose|k: int| 0 <= k < so.len() && #[trigger] so[k] == '.';
        assert(v6_text(o)[head.len() + k] == '.');
    } else if is_mapped(p) {
        lemma_v4_chars(p.skip(12));
        lemma_groups_chars(groups_of(o));
        let k = choose|k: int| 0 <= k < sp.len() && #[trigger] sp[k] == '.';
        assert(v6_text(p)[head.len() + k] == '.');
    } else {
        let g = groups_of(o);
        let h = groups_of(p);
        lemma_groups_injective(g, h);
        assert forall|i: int| 0 <= i < 16 implies o[i] == p[i] by {
            let k = i / 2;
            assert(g[k] == h[k]);
            assert(g[k] == o[2 * k] * 256 + o[2 * k + 1]);
            assert(h[k] == p[2 * k] * 256 + p[2 * k + 1]);
        }
        assert(o =~= p);
    }
}

/// Different addresses are written differently, whatever their versions.
pub proof fn law_ip_text_injective(a: IpAddr, b: IpAddr)
    requires
        ip_text(a) == ip_text(b),
    ensures
        a == b,
{
    match (a, b) {
        (IpAddr::V4(x), IpAddr::V4(y)) => {
            lemma_v4_injective(x@, y@);
            assert(x =~= y);
        },
        (IpAddr::V6(x), IpAddr::V6(y)) => {
            lemma_v6_injective(x@, y@);
            assert(x =~= y);
        },
        (IpAddr::V4(x), IpAddr::V6(y)) => {
            lemma_versions_differ(x@, y@);
        },
        (IpAddr::V6(x), IpAddr::V4(y)) => {
            lemma_versions_differ(y@, x@);
        },
    }
}

proof fn lemma_versions_differ(v4: Seq<u8>, v6: Seq<u8>)
    requires
        v4.len() == 4,
        v6.len() == 16,
    ensures
        v4_text(v4) != v6_text(v6),
{
    lemma_v4_chars(v4);
    let s = v6_text(v6);
    if is_mapped(v6) {
        reveal_strlit("::ffff:");
        assert(s[0] == ':');
    } else {
        lemma_groups_have_colon(groups_of(v6));
        let k = choose|k: int| 0 <= k < s.len() && #[trigger] s[k] == ':';
        assert(s[k] == ':');
    }
}

/// A written address holds no vertical bar.
pub proof fn lemma_ip_text_chars(ip: IpAddr)
    ensures
        forall|i: int| 0 <= i < ip_text(ip).len() ==> #[trigger] ip_text(ip)[i] != '|',
{
    match ip {
        IpAddr::V4(o) => {
            lemma_v4_chars(o@);
        },
        IpAddr::V6(o) => {
            if is_mapped(o@) {
                let tail = v4_text(o@.skip(12));
                let s = ip_text(ip);
                reveal_strlit("::ffff:");
                lemma_v4_chars(o@.skip(12));
                assert forall|i: int| 0 <= i < s.len() implies #[trigger] s[i] != '|' by {
                    if i >= 7 {
                        assert(s[i] == tail[i - 7]);
                    }
                }
            } else {
                lemma_groups_chars(groups_of(o@));
            }
        },
    }
}

/// Each place of a hexadecimal number tells its power of sixteen, and no zero
/// stands in front.
pub proof fn law_hex_places(n: nat)
    ensures
        n < vstd::arithmetic::power::pow(16, hex(n).len()),
        n >= 16 ==> vstd::arithmetic::power::pow(16, (hex(n).len() - 1) as nat) <= n,
        n < 16 ==> hex(n).len() == 1,
        hex(n).len() >= 1,
        forall|k: int|
            0 <= k < hex(n).len() ==> #[trigger] hex(n)[hex(n).len() - 1 - k]
                == "0123456789abcdef"@[n as int / vstd::arithmetic::power::pow(16, k as nat) % 16],
    decreases n,
{
    vstd::arithmetic::power::lemma_pow0(16);
    vstd::arithmetic::power::lemma_pow1(16);
    crate::text::law_digits_in_order((n % 16) as int);
    let s = hex(n);
    if n >= 16 {
        let head = hex(n / 16);
        law_hex_places(n / 16);
        reveal(vstd::arithmetic::power::pow);
        assert(vstd::arithmetic::power::pow(16, s.len()) == 16 * vstd::arithmetic::power::pow(
            16,
            head.len(),
        ));
        if n < 256 {
            assert(head.len() == 1);
        } else {
            assert(vstd::arithmetic::power::pow(16, head.len()) == 16
                * vstd::arithmetic::power::pow(16, (head.len() - 1) as nat));
        }
    }
    assert forall|k: int| 0 <= k < s.len() implies #[trigger] s[s.len() - 1 - k]
        == "0123456789abcdef"@[n as int / vstd::arithmetic::power::pow(16, k as nat) % 16] by {
        if k == 0 {
            assert(n as int / 1 == n);
        } else {
            let head = hex(n / 16);
            let at = head.len() - 1 - (k - 1);
            let unit = vstd::arithmetic::power::pow(16, (k - 1) as nat);
            assert(s[s.len() - 1 - k] == head[at]);
            vstd::arithmetic::power::lemma_pow_positive(16, (k - 1) as nat);
            vstd::arithmetic::power::lemma_pow_adds(16, 1, (k - 1) as nat);
            vstd::arithmetic::div_mod::lemma_div_denominator(n as int, 16, unit);
            assert(n as int / 16 / unit == n as int / vstd::arithmetic::power::pow(16, k as nat));
        }
    }
}

/// An IPv4 address is its four bytes in decimal, in order, with dots between.
pub proof fn law_v4_text(octets: [u8; 4])
    ensures
        ip_text(IpAddr::V4(octets)) == crate::text::decimal(octets@[0] as nat) + seq!['.']
            + crate::text::decimal(octets@[1] as nat) + seq!['.'] + crate::text::decimal(
            octets@[2] as nat,
        ) + seq!['.'] + crate::text::decimal(octets@[3] as nat),
{
    let a = crate::text::decimal(octets@[0] as nat);
    let b = crate::text::decimal(octets@[1] as nat);
    let c = crate::text::decimal(octets@[2] as nat);
    let d = crate::text::decimal(octets@[3] as nat);
    assert(ip_text(IpAddr::V4(octets)) =~= a + seq!['.'] + b + seq!['.'] + c + seq!['.'] + d);
}

/// Each group stands in its place: one more group at the end comes behind a
/// colon, and each is a number in hexadecimal.
pub proof fn law_groups_in_order(g: Seq<u16>, next: u16)
    ensures
        g.len() == 0 ==> joined_groups(g).len() == 0,
        g.len() == 0 ==> joined_groups(g.push(next)) == hex(next as nat),
        g.len() > 0 ==> joined_groups(g.push(next)) == joined_groups(g) + seq![':'] + hex(
            next as nat,
        ),
    decreases g.len(),
{
    let longer = g.push(next);
    if g.len() == 0 {
        assert(longer[0] == next);
    } else {
        assert(longer.drop_first() =~= g.drop_first().push(next));
        law_groups_in_order(g.drop_first(), next);
        if g.len() == 1 {
            assert(longer.drop_first()[0] == next);
            reveal_with_fuel(joined_groups, 2);
            assert(longer[0] == g[0]);
        } else {
            assert(longer[0] == g[0]);
        }
        assert(joined_groups(longer) =~= joined_groups(g) + seq![':'] + hex(next as nat));
    }
}

/// The groups from `from` to `to` are all zero.
pub open spec fn are_zeros(g: Seq<u16>, from: int, to: int) -> bool {
    0 <= from <= to <= g.len() && forall|i: int| from <= i < to ==> g[i] == 0
}

proof fn lemma_zero_run_reach(g: Seq<u16>, i: int, to: int)
    requires
        are_zeros(g, i, to),
    ensures
        to - i <= zero_run(g, i),
    decreases to - i,
{
    lemma_zero_run(g, i);
    if i < to {
        assert(g[i] == 0);
        lemma_zero_run_reach(g, i + 1, to);
    }
}

/// Two colons stand for the longest run of zero groups, the first of several,
/// where one of at least two groups stands in the address. All other groups
/// are written out, before and behind it; without such a run all eight are.
pub proof fn law_two_colons(octets: [u8; 16], from: int, to: int)
    requires
        !is_mapped(octets@),
    ensures
        ({
            let g = Seq::new(8, |i: int| (octets@[2 * i] * 256 + octets@[2 * i + 1]) as u16);
            let text = ip_text(IpAddr::V6(octets));
            &&& (are_zeros(g, from, to) && to - from >= 2 && (forall|a: int, b: int|
                are_zeros(g, a, b) ==> b - a <= to - from) && (forall|a: int, b: int|
                are_zeros(g, a, b) && a < from ==> b - a < to - from)) ==> text == joined_groups(
                g.take(from),
            ) + seq![':', ':'] + joined_groups(g.skip(to))
            &&& (forall|a: int, b: int| are_zeros(g, a, b) ==> b - a < 2) ==> text
                == joined_groups(g)
        }),
{
    let g = Seq::new(8, |i: int| (octets@[2 * i] * 256 + octets@[2 * i + 1]) as u16);
    assert(g =~= groups_of(octets@));
    let (start, len) = longest_run(g, 0);
    law_longest_run_is_first_longest(g);
    lemma_longest_run(g, 0);
    lemma_zero_run(g, start);
    assert(are_zeros(g, start, start + len));
    let text = ip_text(IpAddr::V6(octets));
    if are_zeros(g, from, to) && to - from >= 2 && (forall|a: int, b: int|
        are_zeros(g, a, b) ==> b - a <= to - from) && (forall|a: int, b: int|
        are_zeros(g, a, b) && a < from ==> b - a < to - from) {
        lemma_zero_run_reach(g, from, to);
        assert(zero_run(g, from) <= len);
        assert(len == to - from);
        if from < start {
            assert(zero_run(g, from) < len);
        }
        assert(start == from);
        assert(text =~= joined_groups(g.take(from)) + seq![':', ':'] + joined_groups(g.skip(to)));
    }
}

/// An IPv4 address inside IPv6, behind eighty zero bits and sixteen ones, is
/// written as one.
pub proof fn law_mapped_text(octets: [u8; 16], inner: [u8; 4])
    requires
        octets@.skip(12) == inner@,
    ensures
        is_mapped(octets@) <==> octets@.take(12) == seq![0u8, 0, 0, 0, 0, 0, 0, 0, 0, 0, 255, 255],
        is_mapped(octets@) ==> ip_text(IpAddr::V6(octets)) == "::ffff:"@ + ip_text(
            IpAddr::V4(inner),
        ),
{
    let o = octets@;
    let start = seq![0u8, 0, 0, 0, 0, 0, 0, 0, 0, 0, 255, 255];
    if is_mapped(o) {
        assert(o.take(12) =~= start);
    }
    if o.take(12) == start {
        assert forall|i: int| 0 <= i < 10 implies o[i] == 0 by {
            assert(o.take(12)[i] == start[i]);
        }
        assert(o.take(12)[10] == 255 && o.take(12)[11] == 255);
    }
}

} // verus!
