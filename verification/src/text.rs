//! Text as sequences of characters: writing, cutting, reading numbers,
//! searching.

use vstd::prelude::*;
use vstd::slice::slice_subrange;

verus! {

/// `String::push` appends one character at the end.
pub assume_specification[ String::push ](s: &mut String, c: char)
    ensures
        final(s)@ == old(s)@.push(c),
;

/// The characters of an optional text.
pub open spec fn text_view(s: Option<String>) -> Option<Seq<char>> {
    match s {
        Some(t) => Some(t@),
        None => None,
    }
}

/// The characters of several texts.
pub open spec fn text_views(s: Seq<String>) -> Seq<Seq<char>> {
    s.map_values(|t: String| t@)
}

/// The characters of a text.
pub fn chars_of(s: &str) -> (r: Vec<char>)
    ensures
        r@ == s@,
{
    let mut r: Vec<char> = Vec::new();
    for c in it: s.chars()
        invariant
            r@ == it.seq().take(it.index() as int),
            it.seq() == s@,
    {
        r.push(c);
    }
    r
}

/// The text that characters write.
pub fn string_of(chars: &[char]) -> (r: String)
    ensures
        r@ == chars@,
{
    let mut r = String::new();
    let mut i: usize = 0;
    while i < chars.len()
        invariant
            i <= chars@.len(),
            r@ == chars@.take(i as int),
        decreases chars@.len() - i,
    {
        r.push(chars[i]);
        proof {
            assert(chars@.take(i + 1) =~= chars@.take(i as int).push(chars@[i as int]));
        }
        i += 1;
    }
    assert(chars@.take(i as int) =~= chars@);
    r
}

/// Whether two texts hold the same characters.
pub fn same_text(a: &str, b: &str) -> (r: bool)
    ensures
        r == (a@ == b@),
{
    let x = a.as_bytes();
    let y = b.as_bytes();
    proof {
        vstd::utf8::encode_utf8_decode_utf8(a@);
        vstd::utf8::encode_utf8_decode_utf8(b@);
    }
    if x.len() != y.len() {
        return false;
    }
    let mut i: usize = 0;
    while i < x.len()
        invariant
            i <= x@.len() == y@.len(),
            forall|j: int| 0 <= j < i ==> x@[j] == y@[j],
            x@ == vstd::utf8::encode_utf8(a@),
            y@ == vstd::utf8::encode_utf8(b@),
        decreases x@.len() - i,
    {
        if x[i] != y[i] {
            return false;
        }
        i += 1;
    }
    assert(x@ =~= y@);
    true
}

/// The digit that writes `n`, below sixteen, in lower case.
pub open spec fn digit_char(n: int) -> char {
    if n < 10 {
        ('0' as int + n) as char
    } else {
        ('a' as int + n - 10) as char
    }
}

/// The digit that writes `n`, in lower case.
pub fn digit(n: u8) -> (r: char)
    requires
        n < 16,
    ensures
        r == digit_char(n as int),
{
    if n < 10 {
        (48 + n) as char
    } else {
        (87 + n) as char
    }
}

/// A number in decimal, without leading zeros.
pub open spec fn decimal(n: nat) -> Seq<char>
    decreases n,
{
    if n < 10 {
        seq![digit_char(n as int)]
    } else {
        decimal(n / 10).push(digit_char((n % 10) as int))
    }
}

/// A byte as two hexadecimal digits.
pub open spec fn hex2(b: u8) -> Seq<char> {
    seq![digit_char(b as int / 16), digit_char(b as int % 16)]
}

/// A sixteen-bit number as four hexadecimal digits.
pub open spec fn hex4(v: u16) -> Seq<char> {
    seq![
        digit_char(v as int / 4096),
        digit_char(v as int / 256 % 16),
        digit_char(v as int / 16 % 16),
        digit_char(v as int % 16),
    ]
}

/// Bytes as pairs of hexadecimal digits with colons between.
pub open spec fn colon_hex(s: Seq<u8>) -> Seq<char>
    decreases s.len(),
{
    if s.len() == 0 {
        Seq::empty()
    } else if s.len() == 1 {
        hex2(s[0])
    } else {
        colon_hex(s.drop_last()).push(':') + hex2(s.last())
    }
}

/// Appends a number in decimal.
pub fn push_decimal(out: &mut String, n: u64)
    ensures
        final(out)@ == old(out)@ + decimal(n as nat),
    decreases n,
{
    if n >= 10 {
        push_decimal(out, n / 10);
    }
    out.push(digit((n % 10) as u8));
    assert(out@ =~= old(out)@ + decimal(n as nat));
}

/// Appends a byte as two hexadecimal digits.
pub fn push_hex2(out: &mut String, b: u8)
    ensures
        final(out)@ == old(out)@ + hex2(b),
{
    out.push(digit(b / 16));
    out.push(digit(b % 16));
    assert(out@ =~= old(out)@ + hex2(b));
}

/// Appends a sixteen-bit number as four hexadecimal digits.
pub fn push_hex4(out: &mut String, v: u16)
    ensures
        final(out)@ == old(out)@ + hex4(v),
{
    out.push(digit((v / 4096) as u8));
    out.push(digit((v / 256 % 16) as u8));
    out.push(digit((v / 16 % 16) as u8));
    out.push(digit((v % 16) as u8));
    assert(out@ =~= old(out)@ + hex4(v));
}

/// Appends bytes as pairs of hexadecimal digits with colons between.
pub fn push_colon_hex(out: &mut String, bytes: &[u8])
    ensures
        final(out)@ == old(out)@ + colon_hex(bytes@),
{
    let mut i: usize = 0;
    proof {
        assert(out@ =~= old(out)@ + colon_hex(bytes@.take(0)));
    }
    while i < bytes.len()
        invariant
            i <= bytes@.len(),
            out@ == old(out)@ + colon_hex(bytes@.take(i as int)),
        decreases bytes@.len() - i,
    {
        let ghost before = out@;
        if i > 0 {
            out.push(':');
        }
        push_hex2(out, bytes[i]);
        proof {
            assert(bytes@.take(i + 1).drop_last() =~= bytes@.take(i as int));
            assert(out@ =~= old(out)@ + colon_hex(bytes@.take(i + 1)));
        }
        i += 1;
    }
    assert(bytes@.take(i as int) =~= bytes@);
}

/// Equal texts with beginnings of one length have equal beginnings and ends.
pub proof fn lemma_same_length_prefix(a: Seq<char>, x: Seq<char>, b: Seq<char>, y: Seq<char>)
    requires
        a + x == b + y,
        a.len() == b.len(),
    ensures
        a == b,
        x == y,
{
    assert(a =~= (a + x).take(a.len() as int));
    assert(b =~= (b + y).take(b.len() as int));
    assert(x =~= (a + x).skip(a.len() as int));
    assert(y =~= (b + y).skip(b.len() as int));
}

/// Digits tell their numbers apart.
pub proof fn lemma_digit_injective(a: int, b: int)
    requires
        0 <= a < 16,
        0 <= b < 16,
        digit_char(a) == digit_char(b),
    ensures
        a == b,
{
}

/// A decimal number is written with digits alone, at least one.
pub proof fn lemma_decimal_digits(n: nat)
    ensures
        decimal(n).len() > 0,
        forall|i: int| 0 <= i < decimal(n).len() ==> '0' <= #[trigger] decimal(n)[i] <= '9',
    decreases n,
{
    if n >= 10 {
        lemma_decimal_digits(n / 10);
    }
}

/// Different numbers are written differently.
pub proof fn lemma_decimal_injective(m: nat, n: nat)
    requires
        decimal(m) == decimal(n),
    ensures
        m == n,
    decreases m,
{
    let s = decimal(m);
    lemma_decimal_digits(m / 10);
    lemma_decimal_digits(n / 10);
    assert(s.last() == digit_char((m % 10) as int));
    assert(s.last() == digit_char((n % 10) as int));
    lemma_digit_injective((m % 10) as int, (n % 10) as int);
    if m >= 10 && n >= 10 {
        assert(s.drop_last() =~= decimal(m / 10));
        assert(s.drop_last() =~= decimal(n / 10));
        lemma_decimal_injective(m / 10, n / 10);
    }
}

/// What follows a decimal number, and is no digit, tells where it ends.
pub proof fn lemma_decimal_prefix(m: nat, x: Seq<char>, n: nat, y: Seq<char>)
    requires
        decimal(m) + x == decimal(n) + y,
        x.len() > 0 ==> !('0' <= x[0] <= '9'),
        y.len() > 0 ==> !('0' <= y[0] <= '9'),
    ensures
        m == n,
        x == y,
{
    let dm = decimal(m);
    let dn = decimal(n);
    lemma_decimal_digits(m);
    lemma_decimal_digits(n);
    if dm.len() < dn.len() {
        assert((dm + x)[dm.len() as int] == x[0]);
        assert((dn + y)[dm.len() as int] == dn[dm.len() as int]);
    } else if dn.len() < dm.len() {
        assert((dn + y)[dn.len() as int] == y[0]);
        assert((dm + x)[dn.len() as int] == dm[dn.len() as int]);
    }
    lemma_same_length_prefix(dm, x, dn, y);
    lemma_decimal_injective(m, n);
}

/// Each byte but the last takes three characters.
pub proof fn lemma_colon_hex_len(s: Seq<u8>)
    ensures
        s.len() > 0 ==> colon_hex(s).len() == 3 * s.len() - 1,
    decreases s.len(),
{
    if s.len() > 1 {
        lemma_colon_hex_len(s.drop_last());
    }
}

/// Written bytes hold digits and colons alone.
pub proof fn lemma_colon_hex_chars(s: Seq<u8>)
    ensures
        forall|i: int|
            0 <= i < colon_hex(s).len() ==> '0' <= #[trigger] colon_hex(s)[i] <= ':' || 'a'
                <= colon_hex(s)[i] <= 'f',
    decreases s.len(),
{
    if s.len() > 1 {
        lemma_colon_hex_chars(s.drop_last());
        let head = colon_hex(s.drop_last());
        let all = colon_hex(s);
        assert forall|i: int| 0 <= i < all.len() implies '0' <= #[trigger] all[i] <= ':' || 'a'
            <= all[i] <= 'f' by {
            if i < head.len() {
                assert(all[i] == head[i]);
            } else if i > head.len() {
                assert(all[i] == hex2(s.last())[i - head.len() - 1]);
            }
        }
    }
}

/// Different byte strings are written differently.
pub proof fn lemma_colon_hex_injective(a: Seq<u8>, b: Seq<u8>)
    requires
        colon_hex(a) == colon_hex(b),
    ensures
        a == b,
    decreases a.len(),
{
    lemma_colon_hex_len(a);
    lemma_colon_hex_len(b);
    assert(a.len() == b.len());
    if a.len() == 0 {
        assert(a =~= b);
    } else {
        let n = colon_hex(a).len();
        let x = colon_hex(a);
        assert(x[n - 2] == hex2(a.last())[0] && x[n - 1] == hex2(a.last())[1]);
        assert(x[n - 2] == hex2(b.last())[0] && x[n - 1] == hex2(b.last())[1]);
        lemma_digit_injective(a.last() as int / 16, b.last() as int / 16);
        lemma_digit_injective(a.last() as int % 16, b.last() as int % 16);
        assert(a.last() == b.last());
        if a.len() > 1 {
            assert(colon_hex(a.drop_last()) =~= x.take(n - 3));
            assert(colon_hex(b.drop_last()) =~= x.take(n - 3));
            lemma_colon_hex_injective(a.drop_last(), b.drop_last());
        } else {
            assert(a.drop_last() =~= b.drop_last());
        }
        assert(a =~= a.drop_last().push(a.last()));
        assert(b =~= b.drop_last().push(b.last()));
    }
}

/// The characters with the Unicode property White_Space.
pub open spec fn is_white(c: char) -> bool {
    ||| 0x09 <= c as int <= 0x0d
    ||| c as int == 0x20
    ||| c as int == 0x85
    ||| c as int == 0xa0
    ||| c as int == 0x1680
    ||| 0x2000 <= c as int <= 0x200a
    ||| c as int == 0x2028
    ||| c as int == 0x2029
    ||| c as int == 0x202f
    ||| c as int == 0x205f
    ||| c as int == 0x3000
}

/// Whether a character is white space.
pub fn white(c: char) -> (r: bool)
    ensures
        r == is_white(c),
{
    let n: u32 = c as u32;
    (n >= 0x09 && n <= 0x0d) || n == 0x20 || n == 0x85 || n == 0xa0 || n == 0x1680 || (n >= 0x2000
        && n <= 0x200a) || n == 0x2028 || n == 0x2029 || n == 0x202f || n == 0x205f || n == 0x3000
}

/// A text without its leading white space.
pub open spec fn trim_start(s: Seq<char>) -> Seq<char>
    decreases s.len(),
{
    if s.len() > 0 && is_white(s[0]) {
        trim_start(s.drop_first())
    } else {
        s
    }
}

/// A text without its trailing white space.
pub open spec fn trim_end(s: Seq<char>) -> Seq<char>
    decreases s.len(),
{
    if s.len() > 0 && is_white(s.last()) {
        trim_end(s.drop_last())
    } else {
        s
    }
}

/// A text without the white space around it.
pub open spec fn trimmed(s: Seq<char>) -> Seq<char> {
    trim_end(trim_start(s))
}

/// Cuts the white space around a text.
pub fn trim(s: &[char]) -> (r: &[char])
    ensures
        r@ == trimmed(s@),
{
    let mut from: usize = 0;
    assert(s@.skip(0) =~= s@);
    while from < s.len() && white(s[from])
        invariant
            from <= s@.len(),
            trim_start(s@) == trim_start(s@.skip(from as int)),
        decreases s@.len() - from,
    {
        proof {
            assert(s@.skip(from as int).drop_first() =~= s@.skip(from + 1));
        }
        from += 1;
    }
    let ghost tail = s@.skip(from as int);
    assert(trim_start(s@) == tail);
    let mut to: usize = s.len();
    assert(s@.subrange(from as int, to as int) =~= tail);
    while to > from && white(s[to - 1])
        invariant
            from <= to <= s@.len(),
            trim_end(tail) == trim_end(s@.subrange(from as int, to as int)),
        decreases to - from,
    {
        proof {
            let piece = s@.subrange(from as int, to as int);
            assert(piece.last() == s@[to - 1]);
            assert(piece.drop_last() =~= s@.subrange(from as int, to - 1));
        }
        to -= 1;
    }
    proof {
        let piece = s@.subrange(from as int, to as int);
        if to > from {
            assert(piece.last() == s@[to - 1]);
        }
    }
    slice_subrange(s, from, to)
}

/// The place of the first `c`, or the length where there is none.
pub open spec fn first_at(s: Seq<char>, c: char) -> int
    decreases s.len(),
{
    if s.len() == 0 || s[0] == c {
        0
    } else {
        1 + first_at(s.drop_first(), c)
    }
}

/// `first_at` is the only place that has `c` there, or is the end, and has no
/// `c` before it.
pub proof fn lemma_first_at(s: Seq<char>, c: char, at: int)
    requires
        0 <= at <= s.len(),
        at < s.len() ==> s[at] == c,
        forall|j: int| 0 <= j < at ==> s[j] != c,
    ensures
        first_at(s, c) == at,
    decreases s.len(),
{
    if s.len() > 0 && s[0] != c {
        assert forall|j: int| 0 <= j < at - 1 implies s.drop_first()[j] != c by {
            assert(s[j + 1] != c);
        }
        lemma_first_at(s.drop_first(), c, at - 1);
    }
}

/// `first_at` lies within the text.
pub proof fn lemma_first_at_bound(s: Seq<char>, c: char)
    ensures
        0 <= first_at(s, c) <= s.len(),
    decreases s.len(),
{
    if s.len() > 0 && s[0] != c {
        lemma_first_at_bound(s.drop_first(), c);
    }
}

/// What stands at `first_at` and before it.
pub proof fn lemma_first_at_place(s: Seq<char>, c: char)
    ensures
        first_at(s, c) < s.len() ==> s[first_at(s, c)] == c,
        forall|j: int| 0 <= j < first_at(s, c) ==> s[j] != c,
    decreases s.len(),
{
    if s.len() > 0 && s[0] != c {
        lemma_first_at_place(s.drop_first(), c);
        lemma_first_at_bound(s.drop_first(), c);
        assert forall|j: int| 0 <= j < first_at(s, c) implies s[j] != c by {
            if j > 0 {
                assert(s.drop_first()[j - 1] != c);
            }
        }
    }
}

/// Finds the first `c`.
pub fn find(s: &[char], c: char) -> (r: usize)
    ensures
        r == first_at(s@, c),
        r <= s@.len(),
{
    let mut i: usize = 0;
    while i < s.len() && s[i] != c
        invariant
            i <= s@.len(),
            forall|j: int| 0 <= j < i ==> s@[j] != c,
        decreases s@.len() - i,
    {
        i += 1;
    }
    proof {
        lemma_first_at(s@, c, i as int);
    }
    i
}

/// The value of a digit in base `radix`, ten or sixteen.
pub open spec fn digit_value(c: char, radix: nat) -> Option<nat> {
    if '0' <= c <= '9' {
        Some((c as int - '0' as int) as nat)
    } else if radix == 16 && 'a' <= c <= 'f' {
        Some((c as int - 'a' as int + 10) as nat)
    } else if radix == 16 && 'A' <= c <= 'F' {
        Some((c as int - 'A' as int + 10) as nat)
    } else {
        None
    }
}

/// The number that digits write, `None` where one is not a digit.
pub open spec fn digits_value(s: Seq<char>, radix: nat) -> Option<nat>
    decreases s.len(),
{
    if s.len() == 0 {
        Some(0)
    } else {
        match (digits_value(s.drop_last(), radix), digit_value(s.last(), radix)) {
            (Some(head), Some(d)) => Some(head * radix + d),
            _ => None,
        }
    }
}

/// The unsigned number up to `max` that a text writes: an optional plus sign
/// and at least one digit.
pub open spec fn number_of(s: Seq<char>, radix: nat, max: nat) -> Option<nat> {
    let body = if s.len() > 0 && s[0] == '+' {
        s.skip(1)
    } else {
        s
    };
    if body.len() == 0 {
        None
    } else {
        match digits_value(body, radix) {
            Some(v) => if v <= max {
                Some(v)
            } else {
                None
            },
            None => None,
        }
    }
}

/// Digits that go on only make a number larger, and a bad digit stays bad.
proof fn lemma_digits_grow(s: Seq<char>, radix: nat, i: int)
    requires
        0 <= i <= s.len(),
        radix >= 1,
    ensures
        digits_value(s, radix) matches Some(v) ==> digits_value(s.take(i), radix) is Some
            && digits_value(s.take(i), radix)->0 <= v,
    decreases s.len() - i,
{
    if i < s.len() {
        lemma_digits_grow(s, radix, i + 1);
        assert(s.take(i + 1).drop_last() =~= s.take(i));
        if digits_value(s, radix) is Some {
            let head = digits_value(s.take(i), radix)->0;
            assert(head * radix >= head) by (nonlinear_arith)
                requires
                    radix >= 1,
            ;
        }
    } else {
        assert(s.take(i) =~= s);
    }
}

fn digit_number(c: char, hexadecimal: bool) -> (r: Option<u64>)
    ensures
        match digit_value(
            c,
            if hexadecimal {
                16
            } else {
                10
            },
        ) {
            Some(v) => r == Some(v as u64) && v < 16,
            None => r is None,
        },
{
    let n: u32 = c as u32;
    if n >= 48 && n <= 57 {
        Some((n - 48) as u64)
    } else if hexadecimal && n >= 97 && n <= 102 {
        Some((n - 87) as u64)
    } else if hexadecimal && n >= 65 && n <= 70 {
        Some((n - 55) as u64)
    } else {
        None
    }
}

/// Reads an unsigned number up to `max`, in decimal or hexadecimal.
pub fn read_number(s: &[char], hexadecimal: bool, max: u64) -> (r: Option<u64>)
    ensures
        match number_of(
            s@,
            if hexadecimal {
                16
            } else {
                10
            },
            max as nat,
        ) {
            Some(v) => r == Some(v as u64),
            None => r is None,
        },
{
    let ghost base: nat = if hexadecimal {
        16
    } else {
        10
    };
    let radix: u64 = if hexadecimal {
        16
    } else {
        10
    };
    let from: usize = if s.len() > 0 && s[0] == '+' {
        1
    } else {
        0
    };
    if from == s.len() {
        return None;
    }
    let ghost body = s@.skip(from as int);
    assert(s@.skip(0) =~= s@);
    let mut value: u64 = 0;
    let mut i: usize = from;
    assert(body.take(0).len() == 0);
    while i < s.len()
        invariant
            from <= i <= s@.len(),
            from < s@.len(),
            body == s@.skip(from as int),
            base == radix,
            radix == 10 || radix == 16,
            base == (if hexadecimal {
                16nat
            } else {
                10nat
            }),
            digits_value(body.take(i - from), base) == Some(value as nat),
            value <= max,
            number_of(s@, base, max as nat) == (match digits_value(body, base) {
                Some(v) => if v <= max {
                    Some(v)
                } else {
                    None
                },
                None => None,
            }),
        decreases s@.len() - i,
    {
        proof {
            assert(body.take(i - from + 1).drop_last() =~= body.take(i - from));
            assert(body.take(i - from + 1).last() == s@[i as int]);
            lemma_digits_grow(body, base, i - from + 1);
        }
        let d: u64 = match digit_number(s[i], hexadecimal) {
            Some(d) => d,
            None => return None,
        };
        if value > (max - if d <= max { d } else { max }) / radix || d > max {
            proof {
                if d <= max {
                    assert(value * radix + d > max) by (nonlinear_arith)
                        requires
                            value > (max - d) / (radix as int),
                            radix >= 1,
                            d <= max,
                    ;
                }
            }
            return None;
        }
        proof {
            assert(value * radix + d <= max) by (nonlinear_arith)
                requires
                    value <= (max - d) / (radix as int),
                    radix >= 1,
                    d <= max,
            ;
        }
        value = value * radix + d;
        i += 1;
    }
    assert(body.take(i - from) =~= body);
    Some(value)
}

/// `part` stands in `s` from `i` on.
pub open spec fn stands_at(s: Seq<char>, part: Seq<char>, i: int) -> bool {
    0 <= i && i + part.len() <= s.len() && s.subrange(i, i + part.len()) == part
}

/// `part` stands somewhere in `s`.
pub open spec fn has_part(s: Seq<char>, part: Seq<char>) -> bool {
    exists|i: int| stands_at(s, part, i)
}

fn matches_at(s: &[char], part: &[char], i: usize) -> (r: bool)
    requires
        i + part@.len() <= s@.len(),
    ensures
        r == stands_at(s@, part@, i as int),
{
    let len: usize = s.len();
    let mut j: usize = 0;
    while j < part.len()
        invariant
            j <= part@.len(),
            i + part@.len() <= len == s@.len(),
            forall|k: int| 0 <= k < j ==> s@[i + k] == part@[k],
        decreases part@.len() - j,
    {
        if s[i + j] != part[j] {
            proof {
                assert(s@.subrange(i as int, i + part@.len())[j as int] != part@[j as int]);
            }
            return false;
        }
        j += 1;
    }
    assert(s@.subrange(i as int, i + part@.len()) =~= part@);
    true
}

/// Whether one text stands somewhere in another.
pub fn contains(s: &str, part: &str) -> (r: bool)
    ensures
        r == has_part(s@, part@),
{
    let text = chars_of(s);
    let wanted = chars_of(part);
    if wanted.len() > text.len() {
        return false;
    }
    let last: usize = text.len() - wanted.len();
    let mut i: usize = 0;
    while i <= last
        invariant
            last == text@.len() - wanted@.len(),
            wanted@.len() <= text@.len(),
            i <= last + 1,
            text@ == s@,
            wanted@ == part@,
            forall|k: int| 0 <= k < i ==> !stands_at(s@, part@, k),
        decreases last + 1 - i,
    {
        if matches_at(text.as_slice(), wanted.as_slice(), i) {
            return true;
        }
        if i == last {
            return false;
        }
        i += 1;
    }
    false
}

/// The digits, in the order of their numbers.
pub proof fn law_digits_in_order(n: int)
    requires
        0 <= n < 16,
    ensures
        digit_char(n) == "0123456789abcdef"@[n],
        n < 10 ==> digit_char(n) == "0123456789"@[n],
{
    reveal_strlit("0123456789abcdef");
    reveal_strlit("0123456789");
    if n < 8 {
        assert(n == 0 || n == 1 || n == 2 || n == 3 || n == 4 || n == 5 || n == 6 || n == 7);
    } else {
        assert(n == 8 || n == 9 || n == 10 || n == 11 || n == 12 || n == 13 || n == 14 || n == 15);
    }
}

/// Each place of a decimal number tells its power of ten: the digit `k` places
/// from the end is that of `n / 10^k % 10`, and no zero stands in front.
pub proof fn law_decimal_places(n: nat)
    ensures
        n < vstd::arithmetic::power::pow(10, decimal(n).len()),
        n >= 10 ==> vstd::arithmetic::power::pow(10, (decimal(n).len() - 1) as nat) <= n,
        n < 10 ==> decimal(n).len() == 1,
        decimal(n).len() >= 1,
        forall|k: int|
            0 <= k < decimal(n).len() ==> #[trigger] decimal(n)[decimal(n).len() - 1 - k]
                == "0123456789"@[n as int / vstd::arithmetic::power::pow(10, k as nat) % 10],
    decreases n,
{
    vstd::arithmetic::power::lemma_pow0(10);
    vstd::arithmetic::power::lemma_pow1(10);
    law_digits_in_order((n % 10) as int);
    let s = decimal(n);
    if n >= 10 {
        let head = decimal(n / 10);
        law_decimal_places(n / 10);
        reveal(vstd::arithmetic::power::pow);
        assert(vstd::arithmetic::power::pow(10, s.len()) == 10 * vstd::arithmetic::power::pow(
            10,
            head.len(),
        ));
        if n < 100 {
            assert(head.len() == 1);
        } else {
            assert(vstd::arithmetic::power::pow(10, head.len()) == 10
                * vstd::arithmetic::power::pow(10, (head.len() - 1) as nat));
        }
    }
    assert forall|k: int| 0 <= k < s.len() implies #[trigger] s[s.len() - 1 - k]
        == "0123456789"@[n as int / vstd::arithmetic::power::pow(10, k as nat) % 10] by {
        if k == 0 {
            assert(n as int / 1 == n);
        } else {
            let head = decimal(n / 10);
            let at = head.len() - 1 - (k - 1);
            let unit = vstd::arithmetic::power::pow(10, (k - 1) as nat);
            assert(s[s.len() - 1 - k] == head[at]);
            vstd::arithmetic::power::lemma_pow_positive(10, (k - 1) as nat);
            vstd::arithmetic::power::lemma_pow_adds(10, 1, (k - 1) as nat);
            vstd::arithmetic::div_mod::lemma_div_denominator(n as int, 10, unit);
            assert(n as int / 10 / unit == n as int / vstd::arithmetic::power::pow(10, k as nat));
        }
    }
}

/// A byte is written with the digits of its two halves, a sixteen-bit number
/// with those of its four.
pub proof fn law_hex_halves(b: u8, v: u16)
    ensures
        hex2(b).len() == 2,
        hex2(b)[0] == "0123456789abcdef"@[b as int / 16],
        hex2(b)[1] == "0123456789abcdef"@[b as int % 16],
        hex4(v).len() == 4,
        hex4(v)[0] == "0123456789abcdef"@[v as int / 4096],
        hex4(v)[1] == "0123456789abcdef"@[v as int / 256 % 16],
        hex4(v)[2] == "0123456789abcdef"@[v as int / 16 % 16],
        hex4(v)[3] == "0123456789abcdef"@[v as int % 16],
{
    law_digits_in_order(b as int / 16);
    law_digits_in_order(b as int % 16);
    law_digits_in_order(v as int / 4096);
    law_digits_in_order(v as int / 256 % 16);
    law_digits_in_order(v as int / 16 % 16);
    law_digits_in_order(v as int % 16);
}

/// Every byte stands in its place: the two digits of byte `i` at `3 * i`, and
/// a colon before those of each byte but the first.
pub proof fn law_every_byte_is_written(s: Seq<u8>)
    ensures
        s.len() == 0 ==> colon_hex(s).len() == 0,
        s.len() > 0 ==> colon_hex(s).len() == 3 * s.len() - 1,
        forall|i: int|
            0 <= i < s.len() ==> colon_hex(s)[3 * i] == "0123456789abcdef"@[(#[trigger] s[i]) as int
                / 16] && colon_hex(s)[3 * i + 1] == "0123456789abcdef"@[s[i] as int % 16] && (i > 0
                ==> colon_hex(s)[3 * i - 1] == ':'),
    decreases s.len(),
{
    lemma_colon_hex_len(s);
    if s.len() > 0 {
        let head = s.drop_last();
        law_every_byte_is_written(head);
        law_hex_halves(s.last(), 0);
        assert forall|i: int| 0 <= i < s.len() implies colon_hex(s)[3 * i]
            == "0123456789abcdef"@[(#[trigger] s[i]) as int / 16] && colon_hex(s)[3 * i + 1]
            == "0123456789abcdef"@[s[i] as int % 16] && (i > 0 ==> colon_hex(s)[3 * i - 1]
            == ':') by {
            if i < head.len() {
                assert(head[i] == s[i]);
            }
        }
    }
}

/// What counts as a digit in base ten and in base sixteen, and for how much.
pub proof fn law_digit_values(c: char, n: nat)
    ensures
        digit_value(c, 10) == Some(n) <==> n < 10 && c == "0123456789"@[n as int],
        digit_value(c, 16) == Some(n) <==> n < 16 && (c == "0123456789abcdef"@[n as int] || c
            == "0123456789ABCDEF"@[n as int]),
{
    reveal_strlit("0123456789");
    reveal_strlit("0123456789abcdef");
    reveal_strlit("0123456789ABCDEF");
    if n < 8 {
        assert(n == 0 || n == 1 || n == 2 || n == 3 || n == 4 || n == 5 || n == 6 || n == 7);
    } else if n < 16 {
        assert(n == 8 || n == 9 || n == 10 || n == 11 || n == 12 || n == 13 || n == 14 || n == 15);
    }
}

/// One more digit at the end makes a number ten or sixteen times as large and
/// adds the digit. A first digit may follow a plus sign; without a digit there
/// is no number, and none above the limit.
pub proof fn law_numbers_digit_by_digit(s: Seq<char>, c: char, radix: nat, max: nat)
    requires
        radix == 10 || radix == 16,
    ensures
        number_of(Seq::empty(), radix, max) is None,
        number_of(seq!['+'], radix, max) is None,
        number_of(s.push(c), radix, max) == (match digit_value(c, radix) {
            Some(d) => if s.len() == 0 || s == seq!['+'] {
                if d <= max {
                    Some(d)
                } else {
                    None
                }
            } else {
                match number_of(s, radix, max) {
                    Some(head) => if head * radix + d <= max {
                        Some(head * radix + d)
                    } else {
                        None
                    },
                    None => None,
                }
            },
            None => None,
        }),
{
    let whole = s.push(c);
    let signed = s.len() > 0 && s[0] == '+';
    let body = if signed {
        s.skip(1)
    } else {
        s
    };
    assert(digit_value('+', radix) is None);
    if s.len() == 0 {
        assert(whole =~= seq![c]);
        assert(seq![c].drop_last() =~= Seq::empty());
        assert(seq!['+'].skip(1) =~= Seq::empty());
        reveal_with_fuel(digits_value, 2);
        if c == '+' {
            assert(whole.skip(1) =~= Seq::empty());
        }
    } else {
        let all = if signed {
            whole.skip(1)
        } else {
            whole
        };
        assert(all =~= body.push(c));
        assert(all.drop_last() =~= body);
        if signed && s.len() == 1 {
            assert(s =~= seq!['+']);
            assert(body =~= Seq::empty());
        } else if s.len() == 1 {
            assert(s[0] != '+');
            assert(seq!['+'][0] == '+');
        } else {
            assert(s.len() != seq!['+'].len());
        }
        if body.len() > 0 {
            if let Some(head) = digits_value(body, radix) {
                assert(head * radix >= head) by (nonlinear_arith)
                    requires
                        radix >= 1,
                ;
            }
        }
    }
}

proof fn lemma_decimal_value(n: nat)
    ensures
        digits_value(decimal(n), 10) == Some(n),
    decreases n,
{
    law_digits_in_order((n % 10) as int);
    law_digit_values(digit_char((n % 10) as int), (n % 10) as nat);
    assert(decimal(n).last() == digit_char((n % 10) as int));
    if n >= 10 {
        lemma_decimal_value(n / 10);
        assert(decimal(n).drop_last() =~= decimal(n / 10));
    } else {
        assert(decimal(n).drop_last() =~= Seq::empty());
        reveal_with_fuel(digits_value, 2);
    }
}

/// A number is read back from its decimal form, up to the limit and no
/// further.
pub proof fn law_decimal_reads_back(n: nat, max: nat)
    ensures
        number_of(decimal(n), 10, max) == (if n <= max {
            Some(n)
        } else {
            None
        }),
{
    lemma_decimal_value(n);
    lemma_decimal_digits(n);
    assert('0' <= decimal(n)[0] <= '9');
}

/// A byte is read back from its two digits.
pub proof fn law_byte_reads_back(b: u8)
    ensures
        number_of(hex2(b), 16, 255) == Some(b as nat),
{
    let s = hex2(b);
    let high = digit_char(b as int / 16);
    let low = digit_char(b as int % 16);
    law_digits_in_order(b as int / 16);
    law_digits_in_order(b as int % 16);
    law_digit_values(high, (b / 16) as nat);
    law_digit_values(low, (b % 16) as nat);
    assert(s.drop_last() =~= seq![high]);
    assert(seq![high].drop_last() =~= Seq::empty());
    assert(high != '+');
    reveal_with_fuel(digits_value, 3);
}

/// The white space of Unicode, character by character.
pub proof fn law_white_space(c: char)
    ensures
        is_white(c) <==> (c == '\t' || c == '\n' || c == '\u{b}' || c == '\u{c}' || c == '\r' || c
            == ' ' || c == '\u{85}' || c == '\u{a0}' || c == '\u{1680}' || c == '\u{2000}' || c
            == '\u{2001}' || c == '\u{2002}' || c == '\u{2003}' || c == '\u{2004}' || c
            == '\u{2005}' || c == '\u{2006}' || c == '\u{2007}' || c == '\u{2008}' || c
            == '\u{2009}' || c == '\u{200a}' || c == '\u{2028}' || c == '\u{2029}' || c
            == '\u{202f}' || c == '\u{205f}' || c == '\u{3000}'),
{
}

/// White space alone.
pub open spec fn all_white(s: Seq<char>) -> bool {
    forall|i: int| 0 <= i < s.len() ==> is_white(#[trigger] s[i])
}

proof fn lemma_trim_start(a: Seq<char>, s: Seq<char>)
    requires
        all_white(a),
        s.len() > 0 ==> !is_white(s[0]),
    ensures
        trim_start(a + s) == s,
    decreases a.len(),
{
    if a.len() > 0 {
        assert((a + s)[0] == a[0]);
        assert((a + s).drop_first() =~= a.drop_first() + s);
        assert forall|i: int| 0 <= i < a.drop_first().len() implies is_white(
            #[trigger] a.drop_first()[i],
        ) by {
            assert(is_white(a[i + 1]));
        }
        lemma_trim_start(a.drop_first(), s);
    } else {
        assert(a + s =~= s);
    }
}

proof fn lemma_trim_end(s: Seq<char>, b: Seq<char>)
    requires
        all_white(b),
        s.len() > 0 ==> !is_white(s.last()),
    ensures
        trim_end(s + b) == s,
    decreases b.len(),
{
    if b.len() > 0 {
        assert((s + b).last() == b[b.len() - 1]);
        assert((s + b).drop_last() =~= s + b.drop_last());
        assert forall|i: int| 0 <= i < b.drop_last().len() implies is_white(
            #[trigger] b.drop_last()[i],
        ) by {
            assert(is_white(b[i]));
        }
        lemma_trim_end(s, b.drop_last());
    } else {
        assert(s + b =~= s);
    }
}

/// Trimming takes the white space around a text away, all of it and nothing
/// else.
pub proof fn law_trimming(a: Seq<char>, s: Seq<char>, b: Seq<char>)
    requires
        all_white(a),
        all_white(b),
        s.len() > 0 ==> !is_white(s[0]) && !is_white(s.last()),
    ensures
        trimmed(a + s + b) == s,
{
    if s.len() > 0 {
        assert(a + s + b =~= a + (s + b));
        assert((s + b)[0] == s[0]);
        lemma_trim_start(a, s + b);
        lemma_trim_end(s, b);
    } else {
        let all = a + s + b;
        assert forall|i: int| 0 <= i < all.len() implies is_white(#[trigger] all[i]) by {
            if i < a.len() {
                assert(is_white(a[i]));
            } else {
                assert(is_white(b[i - a.len()]));
            }
        }
        assert(all + s =~= all);
        lemma_trim_start(all, s);
        assert(s + Seq::<char>::empty() =~= s);
        assert(s.len() == 0 ==> trim_end(s) == s);
    }
}

/// A text stands in another exactly where the other is made of something, the
/// text, and something.
pub proof fn law_parts(s: Seq<char>, part: Seq<char>)
    ensures
        has_part(s, part) <==> exists|a: Seq<char>, b: Seq<char>| s == #[trigger] (a + part + b),
{
    if has_part(s, part) {
        let i = choose|i: int| stands_at(s, part, i);
        let a = s.take(i);
        let b = s.skip(i + part.len());
        assert(s =~= a + part + b) by {
            assert forall|j: int| 0 <= j < s.len() implies s[j] == (a + part + b)[j] by {
                if i <= j < i + part.len() {
                    assert(s.subrange(i, i + part.len())[j - i] == part[j - i]);
                }
            }
        }
    }
    if exists|a: Seq<char>, b: Seq<char>| s == #[trigger] (a + part + b) {
        let (a, b) = choose|a: Seq<char>, b: Seq<char>| s == #[trigger] (a + part + b);
        assert(s.subrange(a.len() as int, (a.len() + part.len()) as int) =~= part);
        assert(stands_at(s, part, a.len() as int));
    }
}

/// The first place of a character: it stands there, or there is none at all,
/// and it stands nowhere before.
pub proof fn law_first_place(s: Seq<char>, c: char, at: int)
    ensures
        first_at(s, c) == at <==> (0 <= at <= s.len() && (at < s.len() ==> s[at] == c) && (forall|
            j: int,
        |
            0 <= j < at ==> s[j] != c)),
{
    lemma_first_at_bound(s, c);
    lemma_first_at_place(s, c);
    if 0 <= at <= s.len() && (at < s.len() ==> s[at] == c) && (forall|j: int|
        0 <= j < at ==> s[j] != c) {
        lemma_first_at(s, c, at);
    }
}

/// The views of texts are their characters, text by text, in order.
pub proof fn law_views_of_texts(s: Seq<String>, i: int, t: Option<String>)
    ensures
        text_views(s).len() == s.len(),
        0 <= i < s.len() ==> text_views(s)[i] == s[i]@,
        text_view(t) is Some == t is Some,
        t is Some ==> text_view(t)->0 == t->0@,
{
}

} // verus!
