//! From the prefix of an Ethernet address to its vendor.
//!
//! The register is a text in the format of Wireshark's `manuf` file: one block
//! of addresses on a line, as columns with tabs between. A lookup tries the
//! blocks of 36 bits, then those of 28, then those of 24.

use std::collections::HashMap;

use vstd::prelude::*;
use vstd::slice::slice_subrange;

use crate::bytes::be_u64;
use crate::model::packet::Mac;
use crate::text::{chars_of, find, push_colon_hex, read_number, string_of, trim};

verus! {

/// Vendor names by prefix, for each length of prefix.
#[verifier::ext_equal]
pub struct OuiView {
    /// Prefixes of 24 bits, as three bytes.
    pub h24: Map<Seq<u8>, Seq<char>>,
    /// Prefixes of 28 bits, as four bytes whose last four bits are zero.
    pub h28: Map<Seq<u8>, Seq<char>>,
    /// Prefixes of 36 bits, as five bytes whose last four bits are zero.
    pub h36: Map<Seq<u8>, Seq<char>>,
}

/// A register without blocks.
pub open spec fn no_blocks() -> OuiView {
    OuiView { h24: Map::empty(), h28: Map::empty(), h36: Map::empty() }
}

/// The lines of a text. A line ends with a newline, before which one carriage
/// return is left out; the last line may lack its end.
pub open spec fn lines(s: Seq<char>) -> Seq<Seq<char>>
    decreases s.len(),
{
    if s.len() == 0 {
        Seq::empty()
    } else {
        let end = crate::text::first_at(s, '\n');
        if end < 0 || end >= s.len() {
            seq![s]
        } else {
            seq![without_return(s.take(end))] + lines(s.skip(end + 1))
        }
    }
}

/// A line without one carriage return at its end.
pub open spec fn without_return(s: Seq<char>) -> Seq<char> {
    if s.len() > 0 && s.last() == '\r' {
        s.drop_last()
    } else {
        s
    }
}

/// The bytes that pairs of hexadecimal digits with colons between write, as
/// many as there are; `None` where one of them does not read as a byte.
pub open spec fn prefix_bytes(s: Seq<char>) -> Option<Seq<u8>>
    decreases s.len(),
{
    let end = crate::text::first_at(s, ':');
    match crate::text::number_of(s.take(end), 16, 255) {
        Some(v) => if end < 0 || end >= s.len() {
            Some(seq![v as u8])
        } else {
            match prefix_bytes(s.skip(end + 1)) {
                Some(rest) => Some(seq![v as u8] + rest),
                None => None,
            }
        },
        None => None,
    }
}

/// The first `len` bytes of `s`, the last of them without its low four bits.
pub open spec fn half_byte_prefix(s: Seq<u8>, len: int) -> Seq<u8> {
    s.take(len - 1).push(s[len - 1] & 0xf0)
}

/// The number of bits that a prefix column declares: 24 where it declares
/// none, 0 where what stands behind the slash does not read as a number up
/// to 255.
pub open spec fn declared_bits(column: Seq<char>) -> nat {
    let slash = crate::text::first_at(column, '/');
    if slash >= column.len() {
        24
    } else {
        match crate::text::number_of(column.skip(slash + 1), 10, 255) {
            Some(bits) => bits,
            None => 0,
        }
    }
}

/// The first two columns of a line, without the white space around them;
/// `None` where the line is empty, a comment, has one column or no name.
pub open spec fn columns(line: Seq<char>) -> Option<(Seq<char>, Seq<char>)> {
    let tab = crate::text::first_at(line, '\t');
    if line.len() == 0 || line[0] == '#' || tab >= line.len() {
        None
    } else {
        let rest = line.skip(tab + 1);
        let name = crate::text::trimmed(rest.take(crate::text::first_at(rest, '\t')));
        if name.len() == 0 {
            None
        } else {
            Some((crate::text::trimmed(line.take(tab)), name))
        }
    }
}

/// A register with the block of the prefix `bytes` of `bits` bits named
/// `name`; unchanged where there are no such blocks or too few bytes.
pub open spec fn entered_block(
    db: OuiView,
    bits: nat,
    bytes: Seq<u8>,
    name: Seq<char>,
) -> OuiView {
    if bits == 24 && bytes.len() >= 3 {
        OuiView { h24: db.h24.insert(bytes.take(3), name), ..db }
    } else if bits == 28 && bytes.len() >= 4 {
        OuiView { h28: db.h28.insert(half_byte_prefix(bytes, 4), name), ..db }
    } else if bits == 36 && bytes.len() >= 5 {
        OuiView { h36: db.h36.insert(half_byte_prefix(bytes, 5), name), ..db }
    } else {
        db
    }
}

/// A register with one more line.
pub open spec fn entered(db: OuiView, line: Seq<char>) -> OuiView {
    match columns(line) {
        Some((prefix, name)) => match prefix_bytes(
            prefix.take(crate::text::first_at(prefix, '/')),
        ) {
            Some(bytes) => entered_block(db, declared_bits(prefix), bytes, name),
            None => db,
        },
        None => db,
    }
}

/// A register with more lines, the first one first.
pub open spec fn entered_all(db: OuiView, s: Seq<Seq<char>>) -> OuiView
    decreases s.len(),
{
    if s.len() == 0 {
        db
    } else {
        entered_all(entered(db, s[0]), s.drop_first())
    }
}

/// The register that a text writes.
pub open spec fn db_of(text: Seq<char>) -> OuiView {
    entered_all(no_blocks(), lines(text))
}

/// The bit of an address that says that no vendor gave it.
pub open spec fn locally_administered(mac: Mac) -> bool {
    mac@[0] & 0x02 != 0
}

/// The vendor of an address: none where the address is locally administered,
/// else that of the longest registered prefix.
pub open spec fn vendor_of(db: OuiView, mac: Mac) -> Option<Seq<char>> {
    if locally_administered(mac) {
        None
    } else if db.h36.contains_key(half_byte_prefix(mac@, 5)) {
        Some(db.h36[half_byte_prefix(mac@, 5)])
    } else if db.h28.contains_key(half_byte_prefix(mac@, 4)) {
        Some(db.h28[half_byte_prefix(mac@, 4)])
    } else if db.h24.contains_key(mac@.take(3)) {
        Some(db.h24[mac@.take(3)])
    } else {
        None
    }
}

/// The label of an address: its vendor and its last three bytes, or the whole
/// address where no vendor is known.
pub open spec fn label_of(db: OuiView, mac: Mac) -> Seq<char> {
    match vendor_of(db, mac) {
        Some(name) => name.push(' ') + crate::text::colon_hex(mac@.skip(3)),
        None => crate::model::packet::mac_text(mac),
    }
}

/// Vendor names by prefix of `len` bytes, from names by the number that the
/// prefix writes.
pub open spec fn by_prefix(m: Map<u64, String>, len: nat) -> Map<Seq<u8>, Seq<char>> {
    Map::new(
        |p: Seq<u8>| p.len() == len && m.contains_key(crate::bytes::be_value(p) as u64),
        |p: Seq<u8>| m[crate::bytes::be_value(p) as u64]@,
    )
}

/// The register of vendors, each block under the number that its prefix
/// writes.
pub struct OuiDb {
    pub h24: HashMap<u64, String>,
    pub h28: HashMap<u64, String>,
    pub h36: HashMap<u64, String>,
}

impl View for OuiDb {
    type V = OuiView;

    open spec fn view(&self) -> OuiView {
        OuiView {
            h24: by_prefix(self.h24@, 3),
            h28: by_prefix(self.h28@, 4),
            h36: by_prefix(self.h36@, 5),
        }
    }
}

proof fn lemma_by_prefix_insert(m: Map<u64, String>, len: nat, p: Seq<u8>, name: String)
    requires
        p.len() == len <= 8,
    ensures
        by_prefix(m.insert(crate::bytes::be_value(p) as u64, name), len) == by_prefix(
            m,
            len,
        ).insert(p, name@),
{
    let code = crate::bytes::be_value(p) as u64;
    crate::bytes::lemma_be_value_fits(p);
    assert forall|q: Seq<u8>| q.len() == len && crate::bytes::be_value(q) as u64 == code implies q
        == p by {
        crate::bytes::lemma_be_value_fits(q);
        crate::bytes::lemma_be_value_injective(p, q);
    }
    assert(by_prefix(m.insert(code, name), len) =~= by_prefix(m, len).insert(p, name@));
}

/// Reads the bytes of a prefix, `None` where one of them does not read as a
/// byte.
pub fn parse_mac_prefix(text: &[char]) -> (r: Option<Vec<u8>>)
    ensures
        match prefix_bytes(text@) {
            Some(bytes) => r matches Some(v) && v@ == bytes,
            None => r is None,
        },
{
    let mut bytes: Vec<u8> = Vec::new();
    let mut rest = text;
    let ghost whole = prefix_bytes(text@);
    loop
        invariant
            match prefix_bytes(rest@) {
                Some(tail) => whole == Some(bytes@ + tail),
                None => whole is None,
            },
            whole == prefix_bytes(text@),
        decreases rest@.len(),
    {
        let end: usize = find(rest, ':');
        let value: u8 = match read_number(slice_subrange(rest, 0, end), true, 255) {
            Some(v) => v as u8,
            None => return None,
        };
        bytes.push(value);
        if end == rest.len() {
            return Some(bytes);
        }
        rest = slice_subrange(rest, end + 1, rest.len());
    }
}

impl OuiDb {
    /// A register without blocks.
    pub fn new() -> (r: Self)
        ensures
            r@ == no_blocks(),
    {
        let r = OuiDb { h24: HashMap::new(), h28: HashMap::new(), h36: HashMap::new() };
        assert(r@ =~= no_blocks());
        r
    }

    /// Names the block of a prefix of `bits` bits.
    fn enter_block(&mut self, bits: u64, bytes: &[u8], name: String)
        ensures
            final(self)@ == entered_block(old(self)@, bits as nat, bytes@, name@),
    {
        if bits == 24 && bytes.len() >= 3 {
            let prefix: [u8; 3] = [bytes[0], bytes[1], bytes[2]];
            proof {
                assert(prefix@ =~= bytes@.take(3));
                lemma_by_prefix_insert(self.h24@, 3, prefix@, name);
            }
            self.h24.insert(be_u64(prefix.as_slice()), name);
        } else if bits == 28 && bytes.len() >= 4 {
            let prefix: [u8; 4] = [bytes[0], bytes[1], bytes[2], bytes[3] & 0xf0];
            proof {
                assert(prefix@ =~= half_byte_prefix(bytes@, 4));
                lemma_by_prefix_insert(self.h28@, 4, prefix@, name);
            }
            self.h28.insert(be_u64(prefix.as_slice()), name);
        } else if bits == 36 && bytes.len() >= 5 {
            let prefix: [u8; 5] = [bytes[0], bytes[1], bytes[2], bytes[3], bytes[4] & 0xf0];
            proof {
                assert(prefix@ =~= half_byte_prefix(bytes@, 5));
                lemma_by_prefix_insert(self.h36@, 5, prefix@, name);
            }
            self.h36.insert(be_u64(prefix.as_slice()), name);
        }
    }

    /// Enters one line.
    fn enter(&mut self, line: &[char])
        ensures
            final(self)@ == entered(old(self)@, line@),
    {
        if line.len() == 0 || line[0] == '#' {
            return;
        }
        let tab: usize = find(line, '\t');
        if tab == line.len() {
            return;
        }
        let prefix = trim(slice_subrange(line, 0, tab));
        let rest = slice_subrange(line, tab + 1, line.len());
        let name = trim(slice_subrange(rest, 0, find(rest, '\t')));
        if name.len() == 0 {
            return;
        }
        let slash: usize = find(prefix, '/');
        let bits: u64 = if slash == prefix.len() {
            24
        } else {
            match read_number(slice_subrange(prefix, slash + 1, prefix.len()), false, 255) {
                Some(bits) => bits,
                None => 0,
            }
        };
        if let Some(bytes) = parse_mac_prefix(slice_subrange(prefix, 0, slash)) {
            self.enter_block(bits, bytes.as_slice(), string_of(name));
        }
    }
}

/// Reads a register; of two lines for one block the later counts.
pub fn build_db(text: &str) -> (r: OuiDb)
    ensures
        r@ == db_of(text@),
{
    let chars = chars_of(text);
    let mut db = OuiDb::new();
    let mut rest = chars.as_slice();
    while rest.len() > 0
        invariant
            entered_all(db@, lines(rest@)) == db_of(text@),
        decreases rest@.len(),
    {
        let ghost remaining = lines(rest@);
        let end: usize = find(rest, '\n');
        if end == rest.len() {
            db.enter(rest);
            proof {
                assert(remaining.drop_first() =~= Seq::empty());
                reveal_with_fuel(entered_all, 2);
            }
            return db;
        }
        let cut: usize = if end > 0 && rest[end - 1] == '\r' {
            end - 1
        } else {
            end
        };
        let line = slice_subrange(rest, 0, cut);
        proof {
            assert(line@ =~= without_return(rest@.take(end as int)));
            assert(remaining[0] == line@);
            assert(remaining.drop_first() =~= lines(rest@.skip(end + 1)));
        }
        db.enter(line);
        rest = slice_subrange(rest, end + 1, rest.len());
    }
    db
}

/// The short name of the vendor, where a prefix of the address is registered.
pub fn vendor<'a>(db: &'a OuiDb, mac: &Mac) -> (r: Option<&'a str>)
    ensures
        match vendor_of(db@, *mac) {
            Some(name) => r matches Some(s) && s@ == name,
            None => r is None,
        },
{
    let m = mac.0;
    if m[0] & 0x02 != 0 {
        return None;
    }
    let p36: [u8; 5] = [m[0], m[1], m[2], m[3], m[4] & 0xf0];
    let p28: [u8; 4] = [m[0], m[1], m[2], m[3] & 0xf0];
    let p24: [u8; 3] = [m[0], m[1], m[2]];
    proof {
        assert(p36@ =~= half_byte_prefix(mac@, 5));
        assert(p28@ =~= half_byte_prefix(mac@, 4));
        assert(p24@ =~= mac@.take(3));
    }
    if let Some(name) = db.h36.get(&be_u64(p36.as_slice())) {
        return Some(name.as_str());
    }
    if let Some(name) = db.h28.get(&be_u64(p28.as_slice())) {
        return Some(name.as_str());
    }
    match db.h24.get(&be_u64(p24.as_slice())) {
        Some(name) => Some(name.as_str()),
        None => None,
    }
}

/// The label of an Ethernet address.
pub fn label(db: &OuiDb, mac: &Mac) -> (r: String)
    ensures
        r@ == label_of(db@, *mac),
{
    match vendor(db, mac) {
        Some(name) => {
            let m = mac.0;
            let tail: [u8; 3] = [m[3], m[4], m[5]];
            let mut out = name.to_string();
            out.push(' ');
            push_colon_hex(&mut out, tail.as_slice());
            assert(tail@ =~= mac@.skip(3));
            out
        },
        None => mac.to_text(),
    }
}

/// Two texts, the first of which ends its last line, write the register that
/// their lines write one after the other.
pub proof fn law_registers_append(a: Seq<char>, b: Seq<char>)
    requires
        a.len() > 0 ==> a.last() == '\n',
    ensures
        db_of(a + b) == entered_all(db_of(a), lines(b)),
{
    lemma_lines_append(a, b);
    lemma_entered_append(no_blocks(), lines(a), lines(b));
}

proof fn lemma_lines_append(a: Seq<char>, b: Seq<char>)
    requires
        a.len() > 0 ==> a.last() == '\n',
    ensures
        lines(a + b) == lines(a) + lines(b),
    decreases a.len(),
{
    if a.len() == 0 {
        assert(a + b =~= b);
        assert(lines(a) + lines(b) =~= lines(b));
    } else {
        let end = crate::text::first_at(a, '\n');
        crate::text::lemma_first_at_bound(a, '\n');
        crate::text::lemma_first_at_place(a, '\n');
        if end == a.len() {
            assert(a[a.len() - 1] != '\n');
        }
        assert forall|j: int| 0 <= j < end implies (a + b)[j] != '\n' by {
            assert(a[j] != '\n');
        }
        crate::text::lemma_first_at(a + b, '\n', end);
        assert((a + b).take(end) =~= a.take(end));
        assert((a + b).skip(end + 1) =~= a.skip(end + 1) + b);
        if a.skip(end + 1).len() > 0 {
            assert(a.skip(end + 1).last() == a.last());
        }
        lemma_lines_append(a.skip(end + 1), b);
        assert(lines(a + b) =~= lines(a) + lines(b));
    }
}

proof fn lemma_entered_append(db: OuiView, a: Seq<Seq<char>>, b: Seq<Seq<char>>)
    ensures
        entered_all(db, a + b) == entered_all(entered_all(db, a), b),
    decreases a.len(),
{
    if a.len() == 0 {
        assert(a + b =~= b);
    } else {
        assert((a + b).drop_first() =~= a.drop_first() + b);
        lemma_entered_append(entered(db, a[0]), a.drop_first(), b);
    }
}

/// A later line counts: an address in the block that the last line names has
/// the name of that line, unless a longer prefix of it is registered.
pub proof fn law_later_line_counts(db: OuiView, bits: nat, bytes: Seq<u8>, name: Seq<char>, mac: Mac)
    requires
        !locally_administered(mac),
    ensures
        bits == 36 && bytes.len() >= 5 && half_byte_prefix(bytes, 5) == half_byte_prefix(mac@, 5)
            ==> vendor_of(entered_block(db, bits, bytes, name), mac) == Some(name),
        bits == 28 && bytes.len() >= 4 && half_byte_prefix(bytes, 4) == half_byte_prefix(mac@, 4)
            && !db.h36.contains_key(half_byte_prefix(mac@, 5)) ==> vendor_of(
            entered_block(db, bits, bytes, name),
            mac,
        ) == Some(name),
        bits == 24 && bytes.len() >= 3 && bytes.take(3) == mac@.take(3) && !db.h36.contains_key(
            half_byte_prefix(mac@, 5),
        ) && !db.h28.contains_key(half_byte_prefix(mac@, 4)) ==> vendor_of(
            entered_block(db, bits, bytes, name),
            mac,
        ) == Some(name),
{
}

/// A locally administered address has no vendor, and its label is the address
/// itself, whatever is registered.
pub proof fn law_local_address_has_no_vendor(db: OuiView, mac: Mac)
    requires
        locally_administered(mac),
    ensures
        vendor_of(db, mac) is None,
        label_of(db, mac) == crate::model::packet::mac_text(mac),
{
}

/// Every label, with a vendor or without, ends with the last three bytes of
/// the address.
pub proof fn law_label_ends_with_device(db: OuiView, mac: Mac)
    ensures
        label_of(db, mac).len() >= 8,
        label_of(db, mac).skip(label_of(db, mac).len() - 8) == crate::text::colon_hex(mac@.skip(3)),
{
    let tail = crate::text::colon_hex(mac@.skip(3));
    crate::text::lemma_colon_hex_len(mac@.skip(3));
    match vendor_of(db, mac) {
        Some(name) => {
            assert(label_of(db, mac).skip(label_of(db, mac).len() - 8) =~= tail);
        },
        None => {
            let s = mac@;
            let text = crate::text::colon_hex(s);
            crate::text::lemma_colon_hex_len(s);
            assert(s.drop_last().drop_last() =~= s.take(4));
            assert(s.drop_last().drop_last().drop_last() =~= s.take(3));
            let t = s.skip(3);
            assert(t.drop_last() =~= seq![s[3], s[4]]);
            assert(t.drop_last().drop_last() =~= seq![s[3]]);
            crate::text::lemma_colon_hex_len(s.take(3));
            reveal_with_fuel(crate::text::colon_hex, 4);
            assert(text.skip(text.len() - 8) =~= tail);
        },
    }
}

/// Two addresses with one label share their last three bytes.
pub proof fn law_label_tells_device(db: OuiView, a: Mac, b: Mac)
    requires
        label_of(db, a) == label_of(db, b),
    ensures
        a@.skip(3) == b@.skip(3),
{
    law_label_ends_with_device(db, a);
    law_label_ends_with_device(db, b);
    crate::text::lemma_colon_hex_injective(a@.skip(3), b@.skip(3));
}

proof fn lemma_half_byte(a: u8, b: u8)
    ensures
        a & 0xf0 == b & 0xf0 <==> a / 16 == b / 16,
{
    assert((a & 0xf0 == b & 0xf0) == (a / 16 == b / 16)) by (bit_vector);
}

proof fn lemma_half_byte_prefix(a: Seq<u8>, b: Seq<u8>, len: int)
    requires
        1 <= len <= a.len(),
        len <= b.len(),
    ensures
        half_byte_prefix(a, len) == half_byte_prefix(b, len) <==> (a.take(len - 1) == b.take(
            len - 1,
        ) && a[len - 1] / 16 == b[len - 1] / 16),
{
    let x = half_byte_prefix(a, len);
    let y = half_byte_prefix(b, len);
    lemma_half_byte(a[len - 1], b[len - 1]);
    if x == y {
        assert(a.take(len - 1) =~= x.drop_last());
        assert(b.take(len - 1) =~= y.drop_last());
        assert(x.last() == y.last());
    }
}

proof fn lemma_same_start(a: Seq<u8>, b: Seq<u8>, len: int)
    requires
        0 <= len <= a.len(),
        len <= b.len(),
    ensures
        a.take(len) == b.take(len) <==> forall|i: int| 0 <= i < len ==> a[i] == b[i],
{
    if a.take(len) == b.take(len) {
        assert forall|i: int| 0 <= i < len implies a[i] == b[i] by {
            assert(a.take(len)[i] == b.take(len)[i]);
        }
    } else {
        if forall|i: int| 0 <= i < len ==> a[i] == b[i] {
            assert(a.take(len) =~= b.take(len));
        }
    }
}

/// Two byte strings agree in their first `bits` bits, compared as numbers.
pub open spec fn same_bits(a: Seq<u8>, b: Seq<u8>, bits: nat) -> bool {
    &&& forall|i: int| 0 <= i < bits as int / 8 ==> a[i] == b[i]
    &&& bits % 8 == 4 ==> a[bits as int / 8] as int / 16 == b[bits as int / 8] as int / 16
}

/// A block covers the addresses that share its first 24, 28 or 36 bits and no
/// others: entering it leaves the vendor of every other address as it was.
pub proof fn law_block_covers_no_more(
    db: OuiView,
    bits: nat,
    bytes: Seq<u8>,
    name: Seq<char>,
    mac: Mac,
)
    requires
        bits == 24 || bits == 28 || bits == 36 ==> bytes.len() * 8 < bits || !same_bits(
            bytes,
            mac@,
            bits,
        ),
    ensures
        vendor_of(entered_block(db, bits, bytes, name), mac) == vendor_of(db, mac),
{
    if bits == 24 && bytes.len() >= 3 {
        lemma_same_start(bytes, mac@, 3);
    } else if bits == 28 && bytes.len() >= 4 {
        lemma_half_byte_prefix(bytes, mac@, 4);
        lemma_same_start(bytes, mac@, 3);
    } else if bits == 36 && bytes.len() >= 5 {
        lemma_half_byte_prefix(bytes, mac@, 5);
        lemma_same_start(bytes, mac@, 4);
    }
}

/// An address in a block that is entered has the name of the block, unless a
/// block with a longer prefix covers it. An address that no vendor gave, the
/// second lowest bit of its first byte set, never has a name.
pub proof fn law_block_covers_its_addresses(
    db: OuiView,
    bits: nat,
    bytes: Seq<u8>,
    name: Seq<char>,
    mac: Mac,
)
    requires
        bits == 24 || bits == 28 || bits == 36,
        bytes.len() * 8 >= bits,
        same_bits(bytes, mac@, bits),
    ensures
        ({
            let after = vendor_of(entered_block(db, bits, bytes, name), mac);
            let in_36 = vendor_of(
                OuiView { h24: Map::empty(), h28: Map::empty(), ..db },
                mac,
            );
            let in_28 = vendor_of(
                OuiView { h24: Map::empty(), h36: Map::empty(), ..db },
                mac,
            );
            &&& mac@[0] / 2 % 2 == 1 ==> after is None
            &&& mac@[0] / 2 % 2 == 0 && bits == 36 ==> after == Some(name)
            &&& mac@[0] / 2 % 2 == 0 && bits == 28 ==> after == (if in_36 is Some {
                in_36
            } else {
                Some(name)
            })
            &&& mac@[0] / 2 % 2 == 0 && bits == 24 ==> after == (if in_36 is Some {
                in_36
            } else if in_28 is Some {
                in_28
            } else {
                Some(name)
            })
        }),
{
    law_local_bit(mac);
    if bits == 24 {
        lemma_same_start(bytes, mac@, 3);
    } else if bits == 28 {
        lemma_half_byte_prefix(bytes, mac@, 4);
        lemma_same_start(bytes, mac@, 3);
    } else {
        lemma_half_byte_prefix(bytes, mac@, 5);
        lemma_same_start(bytes, mac@, 4);
    }
}

/// The bit that says that no vendor gave an address is worth two in its first
/// byte.
pub proof fn law_local_bit(mac: Mac)
    ensures
        locally_administered(mac) <==> mac@[0] / 2 % 2 == 1,
{
    let b = mac@[0];
    assert((b & 0x02 != 0) == (b / 2 % 2 == 1)) by (bit_vector);
}

/// Names are found by the longest prefix: a name of 36 bits before one of 28,
/// that before one of 24, and no name where no prefix is registered.
pub proof fn law_longest_prefix(db: OuiView, mac: Mac)
    ensures
        ({
            let in_36 = vendor_of(
                OuiView { h24: Map::empty(), h28: Map::empty(), ..db },
                mac,
            );
            let in_28 = vendor_of(
                OuiView { h24: Map::empty(), h36: Map::empty(), ..db },
                mac,
            );
            let in_24 = vendor_of(
                OuiView { h28: Map::empty(), h36: Map::empty(), ..db },
                mac,
            );
            vendor_of(db, mac) == (if in_36 is Some {
                in_36
            } else if in_28 is Some {
                in_28
            } else {
                in_24
            })
        }),
        vendor_of(no_blocks(), mac) is None,
        vendor_of(db_of(Seq::empty()), mac) is None,
{
}

/// A label is the vendor, a space and the last three bytes, or the address
/// alone; each of these bytes as two digits, with colons between.
pub proof fn law_label_places(db: OuiView, mac: Mac, i: int)
    requires
        0 <= i < 3,
    ensures
        ({
            let text = label_of(db, mac);
            match vendor_of(db, mac) {
                Some(name) => {
                    &&& text.len() == name.len() + 9
                    &&& text.take(name.len() as int) == name
                    &&& text[name.len() as int] == ' '
                    &&& text[name.len() + 1 + 3 * i] == "0123456789abcdef"@[mac.0@[3 + i] as int
                        / 16]
                    &&& text[name.len() + 2 + 3 * i] == "0123456789abcdef"@[mac.0@[3 + i] as int
                        % 16]
                    &&& i > 0 ==> text[name.len() + 3 * i] == ':'
                },
                None => {
                    &&& text.len() == 17
                    &&& forall|j: int|
                        0 <= j < 6 ==> text[3 * j] == "0123456789abcdef"@[(
                        #[trigger] mac.0@[j]) as int / 16] && text[3 * j + 1]
                            == "0123456789abcdef"@[mac.0@[j] as int % 16] && (j > 0 ==> text[3 * j
                            - 1] == ':')
                },
            }
        }),
{
    let tail = mac@.skip(3);
    crate::text::law_every_byte_is_written(tail);
    crate::text::law_every_byte_is_written(mac@);
    assert(tail[i] == mac@[3 + i]);
    if let Some(name) = vendor_of(db, mac) {
        assert(label_of(db, mac).take(name.len() as int) =~= name);
    } else {
        assert forall|j: int| 0 <= j < 6 implies label_of(db, mac)[3 * j] == "0123456789abcdef"@[(
        #[trigger] mac.0@[j]) as int / 16] && label_of(db, mac)[3 * j + 1]
            == "0123456789abcdef"@[mac.0@[j] as int % 16] && (j > 0 ==> label_of(db, mac)[3 * j - 1]
            == ':') by {
            assert(mac@[j] == mac.0@[j]);
        }
    }
}

/// The lines of a text: each ends with a newline, or a carriage return and a
/// newline, which are no part of it; the last one may go without.
pub proof fn law_lines(a: Seq<char>, rest: Seq<char>)
    requires
        forall|i: int| 0 <= i < a.len() ==> a[i] != '\n',
    ensures
        a.len() == 0 ==> lines(a) == Seq::<Seq<char>>::empty(),
        a.len() > 0 ==> lines(a) == seq![a],
        (a.len() == 0 || a.last() != '\r') ==> lines(a + seq!['\n'] + rest) == seq![a] + lines(
            rest,
        ),
        lines(a + seq!['\r', '\n'] + rest) == seq![a] + lines(rest),
{
    crate::text::lemma_first_at(a, '\n', a.len() as int);
    let s = a + seq!['\n'] + rest;
    assert(s[a.len() as int] == '\n');
    crate::text::lemma_first_at(s, '\n', a.len() as int);
    assert(s.take(a.len() as int) =~= a);
    assert(s.skip(a.len() as int + 1) =~= rest);
    let t = a + seq!['\r', '\n'] + rest;
    assert(t[a.len() as int + 1] == '\n');
    assert forall|j: int| 0 <= j < a.len() + 1 implies t[j] != '\n' by {
        if j < a.len() {
            assert(t[j] == a[j]);
        }
    }
    crate::text::lemma_first_at(t, '\n', a.len() as int + 1);
    assert(t.take(a.len() as int + 1) =~= a.push('\r'));
    assert(a.push('\r').drop_last() =~= a);
    assert(t.skip(a.len() as int + 2) =~= rest);
}

/// One more line at the end of a register is entered in what the lines before
/// it wrote.
pub proof fn law_register_grows(text: Seq<char>, line: Seq<char>)
    requires
        text.len() > 0 ==> text.last() == '\n',
        line.len() > 0,
        forall|i: int| 0 <= i < line.len() ==> line[i] != '\n',
        line.last() != '\r',
    ensures
        db_of(text + line) == entered(db_of(text), line),
        db_of(text + (line + seq!['\n'])) == entered(db_of(text), line),
{
    law_lines(line, Seq::empty());
    assert(line + seq!['\n'] + Seq::<char>::empty() =~= line + seq!['\n']);
    assert(seq![line] + lines(Seq::empty()) =~= seq![line]);
    law_registers_append(text, line);
    law_registers_append(text, line + seq!['\n']);
    assert(seq![line].drop_first() =~= Seq::empty());
    reveal_with_fuel(entered_all, 2);
}

proof fn lemma_first_byte_in_front(s: Seq<u8>)
    requires
        s.len() > 1,
    ensures
        crate::text::colon_hex(s) == crate::text::hex2(s[0]) + (seq![':'] + crate::text::colon_hex(
            s.drop_first(),
        )),
    decreases s.len(),
{
    if s.len() == 2 {
        assert(s.drop_last()[0] == s[0]);
        assert(s.drop_first()[0] == s[1]);
        reveal_with_fuel(crate::text::colon_hex, 2);
        assert(crate::text::colon_hex(s) =~= crate::text::hex2(s[0]) + (seq![':']
            + crate::text::colon_hex(s.drop_first())));
    } else {
        lemma_first_byte_in_front(s.drop_last());
        assert(s.drop_last().drop_first() =~= s.drop_first().drop_last());
        assert(crate::text::colon_hex(s) =~= crate::text::hex2(s[0]) + (seq![':']
            + crate::text::colon_hex(s.drop_first())));
    }
}

/// Bytes are read back from their written form, all of them.
pub proof fn law_prefix_reads_back(bytes: Seq<u8>)
    requires
        bytes.len() > 0,
    ensures
        prefix_bytes(crate::text::colon_hex(bytes)) == Some(bytes),
    decreases bytes.len(),
{
    let s = crate::text::colon_hex(bytes);
    let first = crate::text::hex2(bytes[0]);
    crate::text::law_byte_reads_back(bytes[0]);
    assert(first[0] != ':' && first[1] != ':');
    if bytes.len() == 1 {
        assert(s == first);
        crate::text::lemma_first_at(s, ':', 2);
        assert(s.take(2) =~= first);
        assert(bytes =~= seq![bytes[0]]);
    } else {
        let rest = crate::text::colon_hex(bytes.drop_first());
        lemma_first_byte_in_front(bytes);
        law_prefix_reads_back(bytes.drop_first());
        assert(s[2] == ':');
        crate::text::lemma_first_at(s, ':', 2);
        assert(s.take(2) =~= first);
        assert(s.skip(3) =~= rest);
        assert(bytes =~= seq![bytes[0]] + bytes.drop_first());
    }
}

/// A prefix is read byte by byte: what stands before the first colon, then
/// what stands behind it. Where one of them is no byte, there is no prefix.
pub proof fn law_prefix_byte_by_byte(a: Seq<char>, rest: Seq<char>)
    requires
        forall|i: int| 0 <= i < a.len() ==> a[i] != ':',
    ensures
        prefix_bytes(a) == (match crate::text::number_of(a, 16, 255) {
            Some(v) => Some(seq![v as u8]),
            None => None,
        }),
        prefix_bytes(a + seq![':'] + rest) == (match (
            crate::text::number_of(a, 16, 255),
            prefix_bytes(rest),
        ) {
            (Some(v), Some(tail)) => Some(seq![v as u8] + tail),
            _ => None,
        }),
{
    crate::text::lemma_first_at(a, ':', a.len() as int);
    assert(a.take(a.len() as int) =~= a);
    let s = a + seq![':'] + rest;
    assert(s[a.len() as int] == ':');
    crate::text::lemma_first_at(s, ':', a.len() as int);
    assert(s.take(a.len() as int) =~= a);
    assert(s.skip(a.len() as int + 1) =~= rest);
}

/// A name as a column holds it: no tab in it, no white space at its ends.
pub open spec fn is_column(s: Seq<char>) -> bool {
    &&& s.len() > 0
    &&& !crate::text::is_white(s[0])
    &&& !crate::text::is_white(s.last())
    &&& forall|i: int| 0 <= i < s.len() ==> s[i] != '\t'
}

/// White space that pads a column.
pub open spec fn is_padding(s: Seq<char>) -> bool {
    crate::text::all_white(s) && forall|i: int| 0 <= i < s.len() ==> s[i] != '\t'
}

proof fn lemma_columns(
    a: Seq<char>,
    prefix: Seq<char>,
    b: Seq<char>,
    c: Seq<char>,
    name: Seq<char>,
    d: Seq<char>,
    more: Seq<char>,
)
    requires
        is_padding(a) && is_padding(b) && is_padding(c) && is_padding(d),
        is_column(prefix),
        is_column(name),
        prefix[0] != '#',
        more.len() > 0 ==> more[0] == '\t',
    ensures
        columns(a + prefix + b + seq!['\t'] + (c + name + d + more)) == Some((prefix, name)),
{
    let first = a + prefix + b;
    let second = c + name + d;
    let rest = second + more;
    let line = first + seq!['\t'] + rest;
    assert(c + name + d + more =~= rest);
    assert forall|i: int| 0 <= i < first.len() implies line[i] != '\t' by {
        if i < a.len() {
            assert(line[i] == a[i]);
        } else if i < a.len() + prefix.len() {
            assert(line[i] == prefix[i - a.len()]);
        } else {
            assert(line[i] == b[i - a.len() - prefix.len()]);
        }
    }
    assert(line[first.len() as int] == '\t');
    crate::text::lemma_first_at(line, '\t', first.len() as int);
    assert(line.take(first.len() as int) =~= first);
    assert(line.skip(first.len() as int + 1) =~= rest);
    assert forall|i: int| 0 <= i < second.len() implies rest[i] != '\t' by {
        if i < c.len() {
            assert(rest[i] == c[i]);
        } else if i < c.len() + name.len() {
            assert(rest[i] == name[i - c.len()]);
        } else {
            assert(rest[i] == d[i - c.len() - name.len()]);
        }
    }
    if more.len() > 0 {
        assert(rest[second.len() as int] == more[0]);
    }
    crate::text::lemma_first_at(rest, '\t', second.len() as int);
    assert(rest.take(second.len() as int) =~= second);
    crate::text::law_trimming(a, prefix, b);
    crate::text::law_trimming(c, name, d);
    if a.len() > 0 {
        assert(line[0] == a[0]);
        assert(crate::text::is_white(a[0]));
    } else {
        assert(line[0] == prefix[0]);
    }
}

/// A line enters the block that it writes: the bytes of a prefix and, behind a
/// slash, the number of its bits; then a tab and the name. Where one of them
/// cannot be read it enters nothing. Padding around the columns and further
/// columns change nothing.
pub proof fn law_line_with_bits(
    db: OuiView,
    prefix: Seq<char>,
    bits: Seq<char>,
    name: Seq<char>,
    padding: (Seq<char>, Seq<char>, Seq<char>, Seq<char>),
    more: Seq<char>,
)
    requires
        is_column(prefix + seq!['/'] + bits),
        (prefix + seq!['/'] + bits)[0] != '#',
        forall|i: int| 0 <= i < prefix.len() ==> prefix[i] != '/',
        is_column(name),
        is_padding(padding.0) && is_padding(padding.1) && is_padding(padding.2) && is_padding(
            padding.3,
        ),
        more.len() > 0 ==> more[0] == '\t',
    ensures
        entered(
            db,
            padding.0 + (prefix + seq!['/'] + bits) + padding.1 + seq!['\t'] + (padding.2 + name
                + padding.3 + more),
        ) == (match (prefix_bytes(prefix), crate::text::number_of(bits, 10, 255)) {
            (Some(bytes), Some(n)) => entered_block(db, n, bytes, name),
            _ => db,
        }),
{
    let column = prefix + seq!['/'] + bits;
    assert forall|j: int| 0 <= j < prefix.len() implies column[j] != '/' by {
        assert(column[j] == prefix[j]);
    }
    assert(column[prefix.len() as int] == '/');
    crate::text::lemma_first_at(column, '/', prefix.len() as int);
    assert(column.take(prefix.len() as int) =~= prefix);
    assert(column.skip(prefix.len() as int + 1) =~= bits);
    lemma_columns(padding.0, column, padding.1, padding.2, name, padding.3, more);
}

/// A line without a slash enters a block of 24 bits.
pub proof fn law_line_without_bits(
    db: OuiView,
    prefix: Seq<char>,
    name: Seq<char>,
    padding: (Seq<char>, Seq<char>, Seq<char>, Seq<char>),
    more: Seq<char>,
)
    requires
        is_column(prefix),
        prefix[0] != '#',
        forall|i: int| 0 <= i < prefix.len() ==> prefix[i] != '/',
        is_column(name),
        is_padding(padding.0) && is_padding(padding.1) && is_padding(padding.2) && is_padding(
            padding.3,
        ),
        more.len() > 0 ==> more[0] == '\t',
    ensures
        entered(
            db,
            padding.0 + prefix + padding.1 + seq!['\t'] + (padding.2 + name + padding.3 + more),
        ) == (match prefix_bytes(prefix) {
            Some(bytes) => entered_block(db, 24, bytes, name),
            None => db,
        }),
{
    crate::text::lemma_first_at(prefix, '/', prefix.len() as int);
    assert(prefix.take(prefix.len() as int) =~= prefix);
    lemma_columns(padding.0, prefix, padding.1, padding.2, name, padding.3, more);
}

/// Empty lines, comments, lines of one column and lines without a name enter
/// nothing.
pub proof fn law_lines_that_enter_nothing(
    db: OuiView,
    line: Seq<char>,
    first: Seq<char>,
    c: Seq<char>,
    more: Seq<char>,
)
    requires
        line.len() == 0 || line[0] == '#' || forall|i: int| 0 <= i < line.len() ==> line[i] != '\t',
        forall|i: int| 0 <= i < first.len() ==> first[i] != '\t',
        is_padding(c),
        more.len() > 0 ==> more[0] == '\t',
    ensures
        entered(db, line) == db,
        entered(db, first + seq!['\t'] + (c + more)) == db,
{
    if line.len() > 0 && line[0] != '#' {
        crate::text::lemma_first_at(line, '\t', line.len() as int);
    }
    let rest = c + more;
    let whole = first + seq!['\t'] + rest;
    assert(whole[first.len() as int] == '\t');
    assert forall|j: int| 0 <= j < first.len() implies whole[j] != '\t' by {
        assert(whole[j] == first[j]);
    }
    crate::text::lemma_first_at(whole, '\t', first.len() as int);
    assert(whole.skip(first.len() as int + 1) =~= rest);
    assert forall|j: int| 0 <= j < c.len() implies rest[j] != '\t' by {
        assert(rest[j] == c[j]);
    }
    if more.len() > 0 {
        assert(rest[c.len() as int] == more[0]);
    }
    crate::text::lemma_first_at(rest, '\t', c.len() as int);
    assert(rest.take(c.len() as int) =~= c);
    let none = Seq::<char>::empty();
    assert(c + none + none =~= c);
    crate::text::law_trimming(c, none, none);
}

} // verus!
