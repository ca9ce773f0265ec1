//! Where Npcap keeps its libraries on Windows.
//!
//! The directory is not on the search path of the loader and has to be added
//! before the first call into the capture library.

use vstd::prelude::*;

use crate::text::chars_of;

verus! {

/// The directory of the Npcap libraries, below the system root or below
/// `C:\Windows` where that is not known.
pub open spec fn npcap_dir(sysroot: Option<Seq<char>>) -> Seq<char> {
    let root = match sysroot {
        Some(root) => root,
        None => "C:\\Windows"@,
    };
    root + "\\System32\\Npcap"@
}

/// A character in UTF-16.
pub open spec fn utf16_of(c: char) -> Seq<u16> {
    if (c as int) < 0x10000 {
        seq![c as u16]
    } else {
        seq![
            (0xd800 + (c as int - 0x10000) / 0x400) as u16,
            (0xdc00 + (c as int - 0x10000) % 0x400) as u16,
        ]
    }
}

/// A text in UTF-16.
pub open spec fn utf16(s: Seq<char>) -> Seq<u16>
    decreases s.len(),
{
    if s.len() == 0 {
        Seq::empty()
    } else {
        utf16(s.drop_last()) + utf16_of(s.last())
    }
}

/// Appends a character in UTF-16.
fn push_utf16(out: &mut Vec<u16>, c: char)
    ensures
        final(out)@ == old(out)@ + utf16_of(c),
{
    let n: u32 = c as u32;
    if n < 0x10000 {
        out.push(n as u16);
    } else {
        out.push((0xd800 + (n - 0x10000) / 0x400) as u16);
        out.push((0xdc00 + (n - 0x10000) % 0x400) as u16);
    }
    assert(out@ =~= old(out)@ + utf16_of(c));
}

/// The directory of the Npcap libraries in UTF-16, with a zero at its end.
pub fn npcap_dll_path(sysroot: Option<&str>) -> (r: Vec<u16>)
    ensures
        r@ == utf16(
            npcap_dir(
                match sysroot {
                    Some(root) => Some(root@),
                    None => None,
                },
            ),
        ).push(0),
{
    let mut dir = match sysroot {
        Some(root) => root.to_string(),
        None => "C:\\Windows".to_string(),
    };
    dir.append("\\System32\\Npcap");
    let chars = chars_of(dir.as_str());
    let mut wide: Vec<u16> = Vec::new();
    let mut i: usize = 0;
    while i < chars.len()
        invariant
            i <= chars@.len(),
            wide@ == utf16(chars@.take(i as int)),
        decreases chars@.len() - i,
    {
        push_utf16(&mut wide, chars[i]);
        proof {
            assert(chars@.take(i + 1).drop_last() =~= chars@.take(i as int));
        }
        i += 1;
    }
    assert(chars@.take(i as int) =~= chars@);
    wide.push(0);
    wide
}

proof fn lemma_utf16_of(c: char)
    requires
        c as int != 0,
    ensures
        forall|i: int| 0 <= i < utf16_of(c).len() ==> #[trigger] utf16_of(c)[i] != 0,
{
}

/// A path without a zero character has its only zero at the end.
pub proof fn law_zero_ends_the_path(s: Seq<char>)
    requires
        forall|i: int| 0 <= i < s.len() ==> s[i] as int != 0,
    ensures
        forall|i: int| 0 <= i < utf16(s).len() ==> utf16(s)[i] != 0,
    decreases s.len(),
{
    if s.len() > 0 {
        assert forall|i: int| 0 <= i < s.drop_last().len() implies s.drop_last()[i] as int
            != 0 by {
            assert(s[i] as int != 0);
        }
        law_zero_ends_the_path(s.drop_last());
        let head = utf16(s.drop_last());
        let tail = utf16_of(s.last());
        assert(s.last() as int != 0);
        lemma_utf16_of(s.last());
        assert forall|i: int| 0 <= i < utf16(s).len() implies utf16(s)[i] != 0 by {
            if i < head.len() {
                assert(utf16(s)[i] == head[i]);
            } else {
                assert(utf16(s)[i] == tail[i - head.len()]);
            }
        }
    }
}

/// The directory lies below the system root, which is `C:\Windows` where it is
/// not known.
pub proof fn law_npcap_directory(root: Seq<char>)
    ensures
        npcap_dir(Some(root)) == root + "\\System32\\Npcap"@,
        npcap_dir(None) == npcap_dir(Some("C:\\Windows"@)),
{
}

/// A text is written in UTF-16 character by character, in order. A character
/// below 0x10000 is its own unit; any other is a high and a low surrogate that
/// give back its number.
pub proof fn law_utf16_gives_back(s: Seq<char>, c: char)
    ensures
        utf16(Seq::empty()) == Seq::<u16>::empty(),
        ({
            let units = utf16(s.push(c)).skip(utf16(s).len() as int);
            &&& utf16(s.push(c)).take(utf16(s).len() as int) == utf16(s)
            &&& (c as int) < 0x10000 ==> units.len() == 1 && units[0] as int == c as int
            &&& (c as int) >= 0x10000 ==> {
                &&& units.len() == 2
                &&& 0xd800 <= units[0] <= 0xdbff
                &&& 0xdc00 <= units[1] <= 0xdfff
                &&& (units[0] - 0xd800) * 0x400 + (units[1] - 0xdc00) + 0x10000 == c as int
            }
        }),
{
    assert(s.push(c).drop_last() =~= s);
    let all = utf16(s.push(c));
    assert(all.take(utf16(s).len() as int) =~= utf16(s));
    assert(all.skip(utf16(s).len() as int) =~= utf16_of(c));
}

} // verus!
