//! Capture interfaces: listing, labels, selection.

use vstd::prelude::*;

use crate::capture::session::CaptureError;
use crate::text::{chars_of, contains, push_decimal, read_number, trim};

verus! {

/// A capture interface.
#[derive(Debug)]
pub struct Device {
    pub name: String,
    /// Readable name, where there is one.
    pub desc: Option<String>,
    /// Written addresses.
    pub addresses: Vec<String>,
}

/// A capture interface with its texts as characters.
pub struct DeviceView {
    pub name: Seq<char>,
    pub desc: Option<Seq<char>>,
    pub addresses: Seq<Seq<char>>,
}

impl View for Device {
    type V = DeviceView;

    open spec fn view(&self) -> DeviceView {
        DeviceView {
            name: self.name@,
            desc: crate::text::text_view(self.desc),
            addresses: crate::text::text_views(self.addresses@),
        }
    }
}

/// The views of several interfaces.
pub open spec fn device_views(s: Seq<Device>) -> Seq<DeviceView> {
    s.map_values(|d: Device| d@)
}

fn copied_text(s: &Option<String>) -> (r: Option<String>)
    ensures
        crate::text::text_view(r) == crate::text::text_view(*s),
{
    match s {
        Some(t) => Some(t.clone()),
        None => None,
    }
}

impl Clone for Device {
    fn clone(&self) -> (r: Self)
        ensures
            r@ == self@,
    {
        let mut addresses: Vec<String> = Vec::new();
        let mut i: usize = 0;
        while i < self.addresses.len()
            invariant
                i <= self.addresses@.len(),
                crate::text::text_views(addresses@) == crate::text::text_views(self.addresses@).take(i as int),
            decreases self.addresses@.len() - i,
        {
            let ghost before = addresses@;
            addresses.push(self.addresses[i].clone());
            proof {
                assert(crate::text::text_views(addresses@) =~= crate::text::text_views(before).push(self.addresses@[i as int]@));
                assert(crate::text::text_views(addresses@) =~= crate::text::text_views(self.addresses@).take(i + 1));
            }
            i += 1;
        }
        let r = Device { name: self.name.clone(), desc: copied_text(&self.desc), addresses };
        assert(r@.addresses =~= self@.addresses);
        r
    }
}

/// The interfaces that were enumerated, if there are any.
pub fn list_devices(found: Result<Vec<Device>, String>) -> (r: Result<Vec<Device>, CaptureError>)
    ensures
        match found {
            Ok(devices) => if devices@.len() == 0 {
                r == Err::<Vec<Device>, CaptureError>(CaptureError::NoDevice)
            } else {
                r == Ok::<Vec<Device>, CaptureError>(devices)
            },
            Err(text) => r == Err::<Vec<Device>, CaptureError>(CaptureError::Pcap(text)),
        },
{
    match found {
        Ok(devices) => if devices.len() == 0 {
            Err(CaptureError::NoDevice)
        } else {
            Ok(devices)
        },
        Err(text) => Err(CaptureError::Pcap(text)),
    }
}

/// Texts with a separator between.
pub open spec fn joined(parts: Seq<Seq<char>>, separator: Seq<char>) -> Seq<char>
    decreases parts.len(),
{
    if parts.len() == 0 {
        Seq::empty()
    } else if parts.len() == 1 {
        parts[0]
    } else {
        joined(parts.drop_last(), separator) + separator + parts.last()
    }
}

/// The label of an interface: the readable name, or the name where there is
/// none; then the addresses in brackets, where there are any.
pub open spec fn label_of(dev: DeviceView) -> Seq<char> {
    let desc = match dev.desc {
        Some(desc) => desc,
        None => dev.name,
    };
    if dev.addresses.len() == 0 {
        desc
    } else {
        desc + " ["@ + joined(dev.addresses, ", "@) + "]"@
    }
}

fn push_joined(out: &mut String, parts: &Vec<String>, separator: &str)
    ensures
        final(out)@ == old(out)@ + joined(crate::text::text_views(parts@), separator@),
{
    let ghost views = crate::text::text_views(parts@);
    let mut i: usize = 0;
    assert(out@ =~= old(out)@ + joined(views.take(0), separator@));
    while i < parts.len()
        invariant
            i <= parts@.len(),
            views == crate::text::text_views(parts@),
            out@ == old(out)@ + joined(views.take(i as int), separator@),
        decreases parts@.len() - i,
    {
        if i > 0 {
            out.append(separator);
        }
        out.append(parts[i].as_str());
        proof {
            assert(views.take(i + 1).drop_last() =~= views.take(i as int));
            assert(out@ =~= old(out)@ + joined(views.take(i + 1), separator@));
        }
        i += 1;
    }
    assert(views.take(i as int) =~= views);
}

/// The label of an interface.
pub fn device_label(dev: &Device) -> (r: String)
    ensures
        r@ == label_of(dev@),
{
    let mut out = match &dev.desc {
        Some(desc) => desc.clone(),
        None => dev.name.clone(),
    };
    if dev.addresses.len() > 0 {
        out.append(" [");
        push_joined(&mut out, &dev.addresses, ", ");
        out.append("]");
        assert(out@ =~= label_of(dev@));
    }
    out
}

/// What `str::to_lowercase` returns.
pub uninterp spec fn lowercase(s: Seq<char>) -> Seq<char>;

/// Every character is ASCII.
pub open spec fn is_ascii_text(s: Seq<char>) -> bool {
    forall|i: int| 0 <= i < s.len() ==> (#[trigger] s[i]) as int <= 127
}

/// An ASCII character with A to Z in lower case.
pub open spec fn ascii_lower(c: char) -> char {
    if 'A' <= c <= 'Z' {
        (c as int + 32) as char
    } else {
        c
    }
}

/// An ASCII text with A to Z in lower case.
pub open spec fn ascii_lowered(s: Seq<char>) -> Seq<char> {
    s.map_values(|c: char| ascii_lower(c))
}

/// `str::to_lowercase`.
///
/// The result depends on the text alone. Of an ASCII text it is the text with
/// A to Z in lower case; what Unicode makes of other characters is not spelled
/// out here.
#[verifier::external_body]
fn to_lowercase(s: &str) -> (r: String)
    ensures
        r@ == lowercase(s@),
        is_ascii_text(s@) ==> r@ == ascii_lowered(s@),
{
    s.to_lowercase()
}

/// The names of an interface in lower case.
pub struct LowerNames {
    pub name: String,
    pub desc: Option<String>,
}

/// The names of an interface in lower case, as characters.
pub struct LowerNamesView {
    pub name: Seq<char>,
    pub desc: Option<Seq<char>>,
}

impl View for LowerNames {
    type V = LowerNamesView;

    open spec fn view(&self) -> LowerNamesView {
        LowerNamesView { name: self.name@, desc: crate::text::text_view(self.desc) }
    }
}

/// The views of several names.
pub open spec fn names_views(s: Seq<LowerNames>) -> Seq<LowerNamesView> {
    s.map_values(|n: LowerNames| n@)
}

/// `part` stands in the name or in the readable name.
pub open spec fn names_hold(names: LowerNamesView, part: Seq<char>) -> bool {
    crate::text::has_part(names.name, part) || (names.desc is Some && crate::text::has_part(
        names.desc->0,
        part,
    ))
}

/// The first of `names` from `i` on that holds `part`.
pub open spec fn first_holding(names: Seq<LowerNamesView>, part: Seq<char>, i: int) -> Option<int>
    decreases names.len() - i,
{
    if i >= names.len() {
        None
    } else if names_hold(names[i], part) {
        Some(i)
    } else {
        first_holding(names, part, i + 1)
    }
}

/// The interface that `wanted` selects: the one at that index where it reads
/// as an index in range, else the first whose names hold it in lower case.
pub open spec fn picked(
    names: Seq<LowerNamesView>,
    wanted: Seq<char>,
    lower: Seq<char>,
) -> Option<int> {
    match crate::text::number_of(wanted, 10, usize::MAX as nat) {
        Some(index) => if index < names.len() {
            Some(index as int)
        } else {
            first_holding(names, lower, 0)
        },
        None => first_holding(names, lower, 0),
    }
}

/// Selects an interface by index or by a part of its names, all in lower case
/// already.
pub fn pick_device(names: &Vec<LowerNames>, wanted: &str, lower: &str) -> (r: Option<usize>)
    ensures
        match picked(names_views(names@), wanted@, lower@) {
            Some(i) => r == Some(i as usize) && 0 <= i < names@.len(),
            None => r is None,
        },
{
    if let Some(index) = read_number(chars_of(wanted).as_slice(), false, usize::MAX as u64) {
        if index < names.len() as u64 {
            return Some(index as usize);
        }
    }
    let ghost views = names_views(names@);
    let mut i: usize = 0;
    while i < names.len()
        invariant
            i <= names@.len(),
            views == names_views(names@),
            picked(views, wanted@, lower@) == first_holding(views, lower@, i as int),
        decreases names@.len() - i,
    {
        let entry = &names[i];
        assert(views[i as int] == entry@);
        let held = contains(entry.name.as_str(), lower) || match &entry.desc {
            Some(desc) => contains(desc.as_str(), lower),
            None => false,
        };
        if held {
            return Some(i);
        }
        i += 1;
    }
    None
}

/// The names of an interface in lower case.
pub open spec fn lower_names(dev: DeviceView) -> LowerNamesView {
    LowerNamesView {
        name: lowercase(dev.name),
        desc: match dev.desc {
            Some(desc) => Some(lowercase(desc)),
            None => None,
        },
    }
}

/// The interface that `wanted` selects among `devices`.
pub open spec fn selected(devices: Seq<DeviceView>, wanted: Seq<char>) -> Option<int> {
    picked(devices.map_values(|d: DeviceView| lower_names(d)), wanted, lowercase(wanted))
}

/// The names of an interface are ASCII.
pub open spec fn is_ascii_device(dev: DeviceView) -> bool {
    is_ascii_text(dev.name) && (dev.desc is Some ==> is_ascii_text(dev.desc->0))
}

/// The names of an ASCII interface in lower case.
pub open spec fn ascii_names(dev: DeviceView) -> LowerNamesView {
    LowerNamesView {
        name: ascii_lowered(dev.name),
        desc: match dev.desc {
            Some(desc) => Some(ascii_lowered(desc)),
            None => None,
        },
    }
}

/// The interface that `wanted` selects among `devices`, where all is ASCII.
pub open spec fn ascii_selected(devices: Seq<DeviceView>, wanted: Seq<char>) -> Option<int> {
    picked(devices.map_values(|d: DeviceView| ascii_names(d)), wanted, ascii_lowered(wanted))
}

/// The answer to a selection: the interface at `at`, or that none answers to
/// `wanted`.
pub open spec fn answers(
    r: Result<Device, CaptureError>,
    devices: Seq<Device>,
    at: Option<int>,
    wanted: Seq<char>,
) -> bool {
    match at {
        Some(i) => 0 <= i < devices.len() && r is Ok && r->Ok_0@ == devices[i]@,
        None => r is Err && r->Err_0 is IfaceNotFound && r->Err_0->IfaceNotFound_0@ == wanted,
    }
}

/// Finds an interface: by index in the list, else by a part of its name or
/// readable name in any case.
pub fn find_device(devices: &Vec<Device>, wanted: &str) -> (r: Result<Device, CaptureError>)
    ensures
        answers(r, devices@, selected(device_views(devices@), wanted@), wanted@),
        is_ascii_text(wanted@) && (forall|i: int|
            0 <= i < devices@.len() ==> is_ascii_device((#[trigger] devices@[i])@)) ==> answers(
            r,
            devices@,
            ascii_selected(device_views(devices@), wanted@),
            wanted@,
        ),
{
    let lower = to_lowercase(wanted);
    let mut names: Vec<LowerNames> = Vec::new();
    let ghost all = device_views(devices@).map_values(|d: DeviceView| lower_names(d));
    let mut i: usize = 0;
    while i < devices.len()
        invariant
            i <= devices@.len(),
            all == device_views(devices@).map_values(|d: DeviceView| lower_names(d)),
            names_views(names@) == all.take(i as int),
            forall|j: int|
                0 <= j < i && is_ascii_device(device_views(devices@)[j]) ==> #[trigger] all[j]
                    == ascii_names(device_views(devices@)[j]),
        decreases devices@.len() - i,
    {
        let desc = match &devices[i].desc {
            Some(desc) => Some(to_lowercase(desc.as_str())),
            None => None,
        };
        let ghost before = names@;
        names.push(LowerNames { name: to_lowercase(devices[i].name.as_str()), desc });
        proof {
            assert(names_views(names@) =~= names_views(before).push(all[i as int]));
            assert(names_views(names@) =~= all.take(i + 1));
        }
        i += 1;
    }
    assert(all.take(i as int) =~= all);
    proof {
        if forall|j: int| 0 <= j < devices@.len() ==> is_ascii_device((#[trigger] devices@[j])@) {
            assert(all =~= device_views(devices@).map_values(|d: DeviceView| ascii_names(d))) by {
                assert forall|j: int| 0 <= j < devices@.len() implies #[trigger] all[j]
                    == ascii_names(device_views(devices@)[j]) by {
                    assert(is_ascii_device(devices@[j]@));
                }
            }
        }
    }
    match pick_device(&names, wanted, lower.as_str()) {
        Some(at) => Ok(devices[at].clone()),
        None => Err(CaptureError::IfaceNotFound(wanted.to_string())),
    }
}

/// A line that was read at the interface prompt.
#[derive(Clone, Copy, PartialEq, Eq, Debug)]
pub enum Choice {
    /// The input ended.
    Closed,
    /// The index of an interface.
    Picked(usize),
    /// Anything else.
    Invalid,
}

/// What a line at the prompt chooses among `count` interfaces.
pub open spec fn choice_of(line: Seq<char>, count: nat) -> Choice {
    if line.len() == 0 {
        Choice::Closed
    } else {
        match crate::text::number_of(crate::text::trimmed(line), 10, usize::MAX as nat) {
            Some(i) => if i < count {
                Choice::Picked(i as usize)
            } else {
                Choice::Invalid
            },
            None => Choice::Invalid,
        }
    }
}

/// Reads a line of the interface prompt.
pub fn read_choice(line: &str, count: usize) -> (r: Choice)
    ensures
        r == choice_of(line@, count as nat),
{
    let chars = chars_of(line);
    if chars.len() == 0 {
        return Choice::Closed;
    }
    match read_number(trim(chars.as_slice()), false, usize::MAX as u64) {
        Some(i) => if i < count as u64 {
            Choice::Picked(i as usize)
        } else {
            Choice::Invalid
        },
        None => Choice::Invalid,
    }
}

/// One line of the interface menu.
pub open spec fn menu_line(i: nat, dev: DeviceView) -> Seq<char> {
    "  ["@ + crate::text::decimal(i) + "] "@ + label_of(dev)
}

/// The numbered list of interfaces.
pub fn device_menu(devices: &Vec<Device>) -> (r: Vec<String>)
    ensures
        crate::text::text_views(r@) == Seq::new(
            devices@.len(),
            |i: int| menu_line(i as nat, devices@[i]@),
        ),
{
    let mut r: Vec<String> = Vec::new();
    let ghost all = Seq::new(devices@.len(), |i: int| menu_line(i as nat, devices@[i]@));
    let mut i: usize = 0;
    while i < devices.len()
        invariant
            i <= devices@.len(),
            all == Seq::new(devices@.len(), |i: int| menu_line(i as nat, devices@[i]@)),
            crate::text::text_views(r@) == all.take(i as int),
        decreases devices@.len() - i,
    {
        let mut line = "  [".to_string();
        push_decimal(&mut line, i as u64);
        line.append("] ");
        line.append(device_label(&devices[i]).as_str());
        let ghost before = r@;
        r.push(line);
        proof {
            assert(crate::text::text_views(r@) =~= crate::text::text_views(before).push(all[i as int]));
            assert(crate::text::text_views(r@) =~= all.take(i + 1));
        }
        i += 1;
    }
    assert(all.take(i as int) =~= all);
    r
}

/// The answer to an invalid choice among `count` interfaces.
pub fn invalid_choice(count: usize) -> (r: String)
    requires
        count > 0,
    ensures
        r@ == "Invalid choice, expected 0.."@ + crate::text::decimal((count - 1) as nat),
{
    let mut out = "Invalid choice, expected 0..".to_string();
    push_decimal(&mut out, (count - 1) as u64);
    out
}

/// An index in range selects that interface, whatever the names are.
pub proof fn law_index_comes_first(devices: Seq<DeviceView>, wanted: Seq<char>, index: nat)
    requires
        crate::text::number_of(wanted, 10, usize::MAX as nat) == Some(index),
        index < devices.len(),
    ensures
        selected(devices, wanted) == Some(index as int),
{
}

proof fn lemma_first_holding(names: Seq<LowerNamesView>, part: Seq<char>, from: int)
    requires
        0 <= from <= names.len(),
    ensures
        match first_holding(names, part, from) {
            Some(i) => from <= i < names.len() && names_hold(names[i], part) && forall|j: int|
                from <= j < i ==> !names_hold(#[trigger] names[j], part),
            None => forall|j: int|
                from <= j < names.len() ==> !names_hold(#[trigger] names[j], part),
        },
    decreases names.len() - from,
{
    if from < names.len() && !names_hold(names[from], part) {
        lemma_first_holding(names, part, from + 1);
    }
}

/// A text that is no index in range selects the first interface one of whose
/// names holds it, both in lower case, and none where no interface does.
pub proof fn law_first_match_is_selected(devices: Seq<DeviceView>, wanted: Seq<char>)
    requires
        match crate::text::number_of(wanted, 10, usize::MAX as nat) {
            Some(index) => index >= devices.len(),
            None => true,
        },
    ensures
        match selected(devices, wanted) {
            Some(i) => 0 <= i < devices.len() && names_hold(
                lower_names(devices[i]),
                lowercase(wanted),
            ) && forall|j: int|
                0 <= j < i ==> !names_hold(lower_names(#[trigger] devices[j]), lowercase(wanted)),
            None => forall|j: int|
                0 <= j < devices.len() ==> !names_hold(
                    lower_names(#[trigger] devices[j]),
                    lowercase(wanted),
                ),
        },
{
    let names = devices.map_values(|d: DeviceView| lower_names(d));
    lemma_first_holding(names, lowercase(wanted), 0);
    assert forall|j: int| 0 <= j < devices.len() implies names[j] == lower_names(
        #[trigger] devices[j],
    ) by {}
    match selected(devices, wanted) {
        Some(i) => {
            assert forall|j: int| 0 <= j < i implies !names_hold(
                lower_names(#[trigger] devices[j]),
                lowercase(wanted),
            ) by {
                assert(!names_hold(names[j], lowercase(wanted)));
            }
        },
        None => {
            assert forall|j: int| 0 <= j < devices.len() implies !names_hold(
                lower_names(#[trigger] devices[j]),
                lowercase(wanted),
            ) by {
                assert(!names_hold(names[j], lowercase(wanted)));
            }
        },
    }
}

/// The selection by name does not see upper and lower case: two texts with
/// one lower case, neither an index in range, select the same interface.
pub proof fn law_case_is_ignored(devices: Seq<DeviceView>, a: Seq<char>, b: Seq<char>)
    requires
        lowercase(a) == lowercase(b),
        crate::text::number_of(a, 10, usize::MAX as nat) is None,
        crate::text::number_of(b, 10, usize::MAX as nat) is None,
    ensures
        selected(devices, a) == selected(devices, b),
{
}

/// Each address stands in the label of its interface, in order: one more
/// address comes in before the closing bracket, behind a comma and a space
/// where another one stands there.
pub proof fn law_label_grows(dev: Device, longer: Device, address: Seq<char>)
    requires
        longer.name@ == dev.name@,
        longer.desc == dev.desc,
        longer@.addresses == dev@.addresses.push(address),
    ensures
        dev.addresses@.len() == 0 ==> label_of(dev@) == (match dev.desc {
            Some(desc) => desc@,
            None => dev.name@,
        }),
        dev.addresses@.len() == 0 ==> label_of(longer@) == label_of(dev@) + seq![' ', '[']
            + address + seq![']'],
        dev.addresses@.len() > 0 ==> label_of(longer@) == label_of(dev@).drop_last() + seq![
            ',',
            ' ',
        ] + address + seq![']'],
        dev.addresses@.len() > 0 ==> label_of(dev@).last() == ']',
        longer.addresses@.len() == dev.addresses@.len() + 1,
{
    reveal_strlit(" [");
    reveal_strlit(", ");
    reveal_strlit("]");
    assert(" ["@ =~= seq![' ', '[']);
    assert(", "@ =~= seq![',', ' ']);
    assert("]"@ =~= seq![']']);
    let old_list = dev@.addresses;
    let new_list = longer@.addresses;
    assert(old_list.len() == dev.addresses@.len());
    assert(new_list.len() == longer.addresses@.len());
    assert(new_list.last() == address);
    assert(new_list.drop_last() =~= old_list);
    if old_list.len() > 0 {
        let start = match dev@.desc {
            Some(desc) => desc,
            None => dev@.name,
        };
        let shown = joined(old_list, ", "@);
        assert(label_of(dev@).drop_last() =~= start + " ["@ + shown);
        assert(label_of(longer@) =~= start + " ["@ + shown + ", "@ + address + "]"@);
    } else {
        assert(new_list[0] == address);
    }
}

/// The characters of some texts together.
pub open spec fn length_together(parts: Seq<Seq<char>>) -> nat
    decreases parts.len(),
{
    if parts.len() == 0 {
        0
    } else {
        length_together(parts.drop_last()) + parts.last().len()
    }
}

proof fn lemma_joined_len(parts: Seq<Seq<char>>, separator: Seq<char>)
    ensures
        parts.len() == 0 ==> joined(parts, separator).len() == 0,
        parts.len() > 0 ==> joined(parts, separator).len() == length_together(parts)
            + separator.len() * (parts.len() - 1),
    decreases parts.len(),
{
    reveal_with_fuel(length_together, 2);
    if parts.len() > 1 {
        lemma_joined_len(parts.drop_last(), separator);
        let n = parts.len() - 1;
        assert(separator.len() * n == separator.len() * (n - 1) + separator.len())
            by (nonlinear_arith);
    } else if parts.len() == 1 {
        assert(separator.len() * 0 == 0);
        assert(parts.last() == parts[0]);
        assert(parts.drop_last().len() == 0);
    }
}

/// The label of an interface has room for all of its addresses: their
/// characters, two for each comma, and three for the brackets.
pub proof fn law_label_length(dev: Device)
    ensures
        label_of(dev@).len() == (match dev.desc {
            Some(desc) => desc@.len(),
            None => dev.name@.len(),
        }) + (if dev.addresses@.len() == 0 {
            0
        } else {
            length_together(dev@.addresses) + 2 * (dev.addresses@.len() - 1) + 3
        }),
{
    reveal_strlit(" [");
    reveal_strlit(", ");
    reveal_strlit("]");
    lemma_joined_len(dev@.addresses, ", "@);
}

/// The interface that a text selects: the one at that index, where the text
/// writes an index in range; else the first that has the text in its name or
/// readable name, all in lower case; else none.
pub proof fn law_selection(devices: Seq<DeviceView>, wanted: Seq<char>)
    ensures
        match crate::text::number_of(wanted, 10, usize::MAX as nat) {
            Some(index) => index < devices.len() ==> selected(devices, wanted) == Some(
                index as int,
            ),
            None => true,
        },
        ({
            let low = lowercase(wanted);
            let by_name = match crate::text::number_of(wanted, 10, usize::MAX as nat) {
                Some(index) => index >= devices.len(),
                None => true,
            };
            by_name ==> match selected(devices, wanted) {
                Some(at) => {
                    &&& 0 <= at < devices.len()
                    &&& crate::text::has_part(lowercase(devices[at].name), low) || (
                    devices[at].desc is Some && crate::text::has_part(
                        lowercase(devices[at].desc->0),
                        low,
                    ))
                    &&& forall|j: int|
                        0 <= j < at ==> !crate::text::has_part(
                            lowercase((#[trigger] devices[j]).name),
                            low,
                        ) && (devices[j].desc is Some ==> !crate::text::has_part(
                            lowercase(devices[j].desc->0),
                            low,
                        ))
                },
                None => forall|j: int|
                    0 <= j < devices.len() ==> !crate::text::has_part(
                        lowercase((#[trigger] devices[j]).name),
                        low,
                    ) && (devices[j].desc is Some ==> !crate::text::has_part(
                        lowercase(devices[j].desc->0),
                        low,
                    )),
            }
        }),
{
    let low = lowercase(wanted);
    let by_name = match crate::text::number_of(wanted, 10, usize::MAX as nat) {
        Some(index) => index >= devices.len(),
        None => true,
    };
    if by_name {
        law_first_match_is_selected(devices, wanted);
        match selected(devices, wanted) {
            Some(at) => {
                assert forall|j: int| 0 <= j < at implies !crate::text::has_part(
                    lowercase((#[trigger] devices[j]).name),
                    low,
                ) && (devices[j].desc is Some ==> !crate::text::has_part(
                    lowercase(devices[j].desc->0),
                    low,
                )) by {
                    assert(!names_hold(lower_names(devices[j]), low));
                }
            },
            None => {
                assert forall|j: int| 0 <= j < devices.len() implies !crate::text::has_part(
                    lowercase((#[trigger] devices[j]).name),
                    low,
                ) && (devices[j].desc is Some ==> !crate::text::has_part(
                    lowercase(devices[j].desc->0),
                    low,
                )) by {
                    assert(!names_hold(lower_names(devices[j]), low));
                }
            },
        }
    }
}

/// Every index of the list selects its interface, written in decimal.
pub proof fn law_index_selects(devices: Seq<DeviceView>, index: nat)
    requires
        index < devices.len() <= usize::MAX,
    ensures
        selected(devices, crate::text::decimal(index)) == Some(index as int),
{
    crate::text::law_decimal_reads_back(index, usize::MAX as nat);
}

/// At the prompt an index, with white space around it or not, picks the
/// interface of that index where there is one. A line that is no number picks
/// none, and no line at all means that the input ended.
pub proof fn law_choices(a: Seq<char>, index: nat, b: Seq<char>, line: Seq<char>, count: nat)
    requires
        crate::text::all_white(a),
        crate::text::all_white(b),
        count <= usize::MAX,
    ensures
        index < count ==> choice_of(a + crate::text::decimal(index) + b, count) == Choice::Picked(
            index as usize,
        ),
        index >= count ==> choice_of(a + crate::text::decimal(index) + b, count)
            == Choice::Invalid,
        choice_of(line, count) == Choice::Closed <==> line.len() == 0,
        line.len() > 0 ==> match crate::text::number_of(
            crate::text::trimmed(line),
            10,
            usize::MAX as nat,
        ) {
            Some(n) => choice_of(line, count) == (if n < count {
                Choice::Picked(n as usize)
            } else {
                Choice::Invalid
            }),
            None => choice_of(line, count) == Choice::Invalid,
        },
{
    let d = crate::text::decimal(index);
    crate::text::lemma_decimal_digits(index);
    assert('0' <= d[0] <= '9' && '0' <= d[d.len() - 1] <= '9');
    crate::text::law_trimming(a, d, b);
    crate::text::law_decimal_reads_back(index, usize::MAX as nat);
}

/// A line of the menu tells the index by which its interface is picked, in
/// brackets behind two spaces, and then the label.
pub proof fn law_menu_lines(i: nat, dev: DeviceView)
    ensures
        ({
            let line = menu_line(i, dev);
            let close = line.len() - label_of(dev).len() - 2;
            &&& close > 3
            &&& line[0] == ' ' && line[1] == ' ' && line[2] == '['
            &&& line.subrange(3, close) == crate::text::decimal(i)
            &&& line[close] == ']' && line[close + 1] == ' '
            &&& line.skip(close + 2) == label_of(dev)
        }),
{
    reveal_strlit("  [");
    reveal_strlit("] ");
    let d = crate::text::decimal(i);
    let line = menu_line(i, dev);
    crate::text::lemma_decimal_digits(i);
    assert(line.subrange(3, line.len() - label_of(dev).len() - 2) =~= d);
    assert(line.skip(line.len() - label_of(dev).len()) =~= label_of(dev));
}

/// Only the letters A to Z change in lower case, each to the letter at its
/// place in a to z.
pub proof fn law_ascii_lower_case(s: Seq<char>, i: int)
    requires
        0 <= i < s.len(),
    ensures
        ascii_lowered(s).len() == s.len(),
        'A' <= s[i] <= 'Z' ==> ascii_lowered(s)[i] as int - 'a' as int == s[i] as int - 'A' as int,
        !('A' <= s[i] <= 'Z') ==> ascii_lowered(s)[i] == s[i],
{
}

/// Interfaces are seen as they are, in order: every name and every address.
pub proof fn law_devices_are_seen(devices: Seq<Device>, i: int, j: int)
    requires
        0 <= i < devices.len(),
    ensures
        device_views(devices).len() == devices.len(),
        device_views(devices)[i].name == devices[i].name@,
        device_views(devices)[i].desc is Some == devices[i].desc is Some,
        devices[i].desc is Some ==> device_views(devices)[i].desc->0 == devices[i].desc->0@,
        device_views(devices)[i].addresses.len() == devices[i].addresses@.len(),
        0 <= j < devices[i].addresses@.len() ==> device_views(devices)[i].addresses[j]
            == devices[i].addresses@[j]@,
{
}

/// The answer to a selection is the interface itself, or the text that no
/// interface answers to.
pub proof fn law_answers(
    r: Result<Device, CaptureError>,
    devices: Seq<Device>,
    at: Option<int>,
    wanted: Seq<char>,
)
    requires
        answers(r, devices, at, wanted),
    ensures
        r matches Ok(dev) ==> at is Some && 0 <= at->0 < devices.len() && dev.name@
            == devices[at->0].name@ && dev@ == devices[at->0]@,
        r matches Err(e) ==> at is None && e is IfaceNotFound && e->IfaceNotFound_0@ == wanted,
{
}

} // verus!
