//! Messages to the browser: one change of one graph each, as JSON.
//!
//! The counters in a message are totals, not increments, so a message that
//! was missed is made good by the next one. Beside these changes the server
//! tells the fade time, and a browser may ask for another one.

use vstd::prelude::*;
use vstd::view::View as _;

use crate::json::{find_number, find_text, read_object, write_object, Member};
use crate::text::same_text;

verus! {

/// The graph that a message changes.
#[derive(Clone, Copy, PartialEq, Eq, Debug)]
pub enum View {
    /// The graph of Ethernet addresses.
    Ether,
    /// The graph of IP addresses.
    Inter,
}

/// One change of one graph.
#[derive(PartialEq, Eq, Debug)]
pub enum Delta {
    UpsertNode {
        view: View,
        id: String,
        label: String,
        bytes: u64,
        packets: u64,
        proto: String,
    },
    UpsertEdge {
        view: View,
        id: String,
        source: String,
        target: String,
        bytes: u64,
        packets: u64,
        proto: String,
    },
    RemoveNode { view: View, id: String },
    RemoveEdge { view: View, id: String },
}

/// One change of one graph, with its texts as characters.
pub enum DeltaView {
    UpsertNode {
        view: View,
        id: Seq<char>,
        label: Seq<char>,
        bytes: nat,
        packets: nat,
        proto: Seq<char>,
    },
    UpsertEdge {
        view: View,
        id: Seq<char>,
        source: Seq<char>,
        target: Seq<char>,
        bytes: nat,
        packets: nat,
        proto: Seq<char>,
    },
    RemoveNode { view: View, id: Seq<char> },
    RemoveEdge { view: View, id: Seq<char> },
}

impl vstd::view::View for Delta {
    type V = DeltaView;

    open spec fn view(&self) -> DeltaView {
        match self {
            Delta::UpsertNode { view, id, label, bytes, packets, proto } => DeltaView::UpsertNode {
                view: *view,
                id: id@,
                label: label@,
                bytes: *bytes as nat,
                packets: *packets as nat,
                proto: proto@,
            },
            Delta::UpsertEdge { view, id, source, target, bytes, packets, proto } => {
                DeltaView::UpsertEdge {
                    view: *view,
                    id: id@,
                    source: source@,
                    target: target@,
                    bytes: *bytes as nat,
                    packets: *packets as nat,
                    proto: proto@,
                }
            },
            Delta::RemoveNode { view, id } => DeltaView::RemoveNode { view: *view, id: id@ },
            Delta::RemoveEdge { view, id } => DeltaView::RemoveEdge { view: *view, id: id@ },
        }
    }
}

impl Clone for Delta {
    fn clone(&self) -> (r: Self)
        ensures
            r@ == self@,
    {
        match self {
            Delta::UpsertNode { view, id, label, bytes, packets, proto } => Delta::UpsertNode {
                view: *view,
                id: id.clone(),
                label: label.clone(),
                bytes: *bytes,
                packets: *packets,
                proto: proto.clone(),
            },
            Delta::UpsertEdge { view, id, source, target, bytes, packets, proto } => {
                Delta::UpsertEdge {
                    view: *view,
                    id: id.clone(),
                    source: source.clone(),
                    target: target.clone(),
                    bytes: *bytes,
                    packets: *packets,
                    proto: proto.clone(),
                }
            },
            Delta::RemoveNode { view, id } => Delta::RemoveNode { view: *view, id: id.clone() },
            Delta::RemoveEdge { view, id } => Delta::RemoveEdge { view: *view, id: id.clone() },
        }
    }
}

/// The name of a graph in a message.
pub open spec fn view_name(view: View) -> Seq<char> {
    match view {
        View::Ether => "ether"@,
        View::Inter => "inter"@,
    }
}

/// A member whose value is a text.
pub open spec fn text_member(name: Seq<char>, s: Seq<char>) -> (
    Seq<char>,
    crate::json::MemberView,
) {
    (name, crate::json::MemberView::Text(s))
}

/// A member whose value is a number.
pub open spec fn number_member(name: Seq<char>, n: nat) -> (Seq<char>, crate::json::MemberView) {
    (name, crate::json::MemberView::Number(Some(n)))
}

/// The members of a message, in order.
pub open spec fn members_of(delta: DeltaView) -> Seq<(Seq<char>, crate::json::MemberView)> {
    match delta {
        DeltaView::UpsertNode { view, id, label, bytes, packets, proto } => seq![
            text_member("type"@, "upsert_node"@),
            text_member("view"@, view_name(view)),
            text_member("id"@, id),
            text_member("label"@, label),
            number_member("bytes"@, bytes),
            number_member("packets"@, packets),
            text_member("proto"@, proto),
        ],
        DeltaView::UpsertEdge { view, id, source, target, bytes, packets, proto } => seq![
            text_member("type"@, "upsert_edge"@),
            text_member("view"@, view_name(view)),
            text_member("id"@, id),
            text_member("source"@, source),
            text_member("target"@, target),
            number_member("bytes"@, bytes),
            number_member("packets"@, packets),
            text_member("proto"@, proto),
        ],
        DeltaView::RemoveNode { view, id } => seq![
            text_member("type"@, "remove_node"@),
            text_member("view"@, view_name(view)),
            text_member("id"@, id),
        ],
        DeltaView::RemoveEdge { view, id } => seq![
            text_member("type"@, "remove_edge"@),
            text_member("view"@, view_name(view)),
            text_member("id"@, id),
        ],
    }
}

/// A message as JSON.
pub open spec fn json_of(delta: DeltaView) -> Seq<char> {
    crate::json::object_text(members_of(delta))
}

/// The graph that a message names.
pub open spec fn view_in(m: Map<Seq<char>, crate::json::MemberView>) -> Option<View> {
    let name = crate::json::text_in(m, "view"@);
    if name == Some("ether"@) {
        Some(View::Ether)
    } else if name == Some("inter"@) {
        Some(View::Inter)
    } else {
        None
    }
}

/// The message that the members of an object write, `None` where they write
/// none. Members that a message does not have are passed over.
pub open spec fn delta_of(m: Map<Seq<char>, crate::json::MemberView>) -> Option<DeltaView> {
    let kind = crate::json::text_in(m, "type"@);
    let id = crate::json::text_in(m, "id"@);
    let label = crate::json::text_in(m, "label"@);
    let source = crate::json::text_in(m, "source"@);
    let target = crate::json::text_in(m, "target"@);
    let bytes = crate::json::number_in(m, "bytes"@);
    let packets = crate::json::number_in(m, "packets"@);
    let proto = crate::json::text_in(m, "proto"@);
    if view_in(m) is None || id is None {
        None
    } else if kind == Some("upsert_node"@) {
        if label is Some && bytes is Some && packets is Some && proto is Some {
            Some(
                DeltaView::UpsertNode {
                    view: view_in(m)->0,
                    id: id->0,
                    label: label->0,
                    bytes: bytes->0,
                    packets: packets->0,
                    proto: proto->0,
                },
            )
        } else {
            None
        }
    } else if kind == Some("upsert_edge"@) {
        if source is Some && target is Some && bytes is Some && packets is Some && proto is Some {
            Some(
                DeltaView::UpsertEdge {
                    view: view_in(m)->0,
                    id: id->0,
                    source: source->0,
                    target: target->0,
                    bytes: bytes->0,
                    packets: packets->0,
                    proto: proto->0,
                },
            )
        } else {
            None
        }
    } else if kind == Some("remove_node"@) {
        Some(DeltaView::RemoveNode { view: view_in(m)->0, id: id->0 })
    } else if kind == Some("remove_edge"@) {
        Some(DeltaView::RemoveEdge { view: view_in(m)->0, id: id->0 })
    } else {
        None
    }
}

/// The view of an optional message.
pub open spec fn delta_view(delta: Option<Delta>) -> Option<DeltaView> {
    match delta {
        Some(d) => Some(d@),
        None => None,
    }
}

fn name_of_view(view: View) -> (r: String)
    ensures
        r@ == view_name(view),
{
    match view {
        View::Ether => "ether".to_string(),
        View::Inter => "inter".to_string(),
    }
}

impl Delta {
    /// The message as JSON.
    pub fn to_json(&self) -> (r: String)
        ensures
            r@ == json_of(self@),
    {
        let members: Vec<(&str, Member)> = match self {
            Delta::UpsertNode { view, id, label, bytes, packets, proto } => vec![
                ("type", Member::Text("upsert_node".to_string())),
                ("view", Member::Text(name_of_view(*view))),
                ("id", Member::Text(id.clone())),
                ("label", Member::Text(label.clone())),
                ("bytes", Member::Number(Some(*bytes))),
                ("packets", Member::Number(Some(*packets))),
                ("proto", Member::Text(proto.clone())),
            ],
            Delta::UpsertEdge { view, id, source, target, bytes, packets, proto } => vec![
                ("type", Member::Text("upsert_edge".to_string())),
                ("view", Member::Text(name_of_view(*view))),
                ("id", Member::Text(id.clone())),
                ("source", Member::Text(source.clone())),
                ("target", Member::Text(target.clone())),
                ("bytes", Member::Number(Some(*bytes))),
                ("packets", Member::Number(Some(*packets))),
                ("proto", Member::Text(proto.clone())),
            ],
            Delta::RemoveNode { view, id } => vec![
                ("type", Member::Text("remove_node".to_string())),
                ("view", Member::Text(name_of_view(*view))),
                ("id", Member::Text(id.clone())),
            ],
            Delta::RemoveEdge { view, id } => vec![
                ("type", Member::Text("remove_edge".to_string())),
                ("view", Member::Text(name_of_view(*view))),
                ("id", Member::Text(id.clone())),
            ],
        };
        assert(members@.map_values(|m: (&str, Member)| (m.0@, m.1@)) =~= members_of(self@));
        write_object(&members)
    }

    fn from_members(members: &Vec<(String, Member)>) -> (r: Option<Delta>)
        ensures
            delta_view(r) == delta_of(
                crate::json::by_name(crate::json::member_views(members@)),
            ),
    {
        let view = match find_text(members, "view") {
            Some(name) => if same_text(name.as_str(), "ether") {
                View::Ether
            } else if same_text(name.as_str(), "inter") {
                View::Inter
            } else {
                return None;
            },
            None => return None,
        };
        let id = match find_text(members, "id") {
            Some(id) => id,
            None => return None,
        };
        let kind = match find_text(members, "type") {
            Some(kind) => kind,
            None => return None,
        };
        if same_text(kind.as_str(), "upsert_node") {
            match (
                find_text(members, "label"),
                find_number(members, "bytes"),
                find_number(members, "packets"),
                find_text(members, "proto"),
            ) {
                (Some(label), Some(bytes), Some(packets), Some(proto)) => Some(
                    Delta::UpsertNode { view, id, label, bytes, packets, proto },
                ),
                _ => None,
            }
        } else if same_text(kind.as_str(), "upsert_edge") {
            match (
                find_text(members, "source"),
                find_text(members, "target"),
                find_number(members, "bytes"),
                find_number(members, "packets"),
                find_text(members, "proto"),
            ) {
                (Some(source), Some(target), Some(bytes), Some(packets), Some(proto)) => Some(
                    Delta::UpsertEdge { view, id, source, target, bytes, packets, proto },
                ),
                _ => None,
            }
        } else if same_text(kind.as_str(), "remove_node") {
            Some(Delta::RemoveNode { view, id })
        } else if same_text(kind.as_str(), "remove_edge") {
            Some(Delta::RemoveEdge { view, id })
        } else {
            None
        }
    }

    /// Reads back what `to_json` wrote. Every other text gives `None`, JSON or
    /// not: members out of order, spaces between them, another escape.
    pub fn read_back(text: &str) -> (r: Option<Delta>)
        ensures
            match r {
                Some(delta) => text@ == json_of(delta@),
                None => forall|d: DeltaView| fits(d) ==> text@ != #[trigger] json_of(d),
            },
            forall|d: DeltaView| fits(d) && text@ == #[trigger] json_of(d) ==> delta_view(r)
                == Some(d),
    {
        let read = read_object(text);
        proof {
            assert forall|d: DeltaView| fits(d) && text@ == #[trigger] json_of(d) implies (
            read is Some && delta_of(
                crate::json::by_name(crate::json::member_views(read->0@)),
            ) == Some(d)) by {
                lemma_members_are_object(d);
                law_reading_gives_the_message(d);
                assert(text@ == crate::json::object_text(members_of(d)));
            }
        }
        let delta = match read {
            Some(members) => Delta::from_members(&members),
            None => None,
        };
        match delta {
            Some(delta) if same_text(delta.to_json().as_str(), text) => Some(delta),
            _ => None,
        }
    }
}

/// The counters of a message fit in 64 bits.
pub open spec fn fits(delta: DeltaView) -> bool {
    match delta {
        DeltaView::UpsertNode { bytes, packets, .. } => bytes <= u64::MAX && packets <= u64::MAX,
        DeltaView::UpsertEdge { bytes, packets, .. } => bytes <= u64::MAX && packets <= u64::MAX,
        _ => true,
    }
}

proof fn lemma_names_differ()
    ensures
        "type"@ != "view"@,
        "type"@ != "id"@,
        "view"@ != "id"@,
        "label"@ != "bytes"@,
        "label"@ != "proto"@,
        "bytes"@ != "proto"@,
        "source"@ != "target"@,
        "type"@.len() == 4,
        "view"@.len() == 4,
        "id"@.len() == 2,
        "label"@.len() == 5,
        "bytes"@.len() == 5,
        "proto"@.len() == 5,
        "packets"@.len() == 7,
        "source"@.len() == 6,
        "target"@.len() == 6,
        "type"@[0] != '$',
        "view"@[0] != '$',
        "id"@[0] != '$',
        "label"@[0] != '$',
        "bytes"@[0] != '$',
        "proto"@[0] != '$',
        "packets"@[0] != '$',
        "source"@[0] != '$',
        "target"@[0] != '$',
{
    reveal_strlit("type");
    reveal_strlit("view");
    reveal_strlit("id");
    reveal_strlit("label");
    reveal_strlit("bytes");
    reveal_strlit("proto");
    reveal_strlit("packets");
    reveal_strlit("source");
    reveal_strlit("target");
    assert("type"@[0] == 't' && "view"@[0] == 'v');
    assert("label"@[0] == 'l' && "bytes"@[0] == 'b' && "proto"@[0] == 'p');
    assert("source"@[0] == 's' && "target"@[0] == 't');
}

proof fn lemma_kinds_differ()
    ensures
        "upsert_node"@ != "upsert_edge"@,
        "upsert_node"@ != "remove_node"@,
        "upsert_node"@ != "remove_edge"@,
        "upsert_edge"@ != "remove_node"@,
        "upsert_edge"@ != "remove_edge"@,
        "remove_node"@ != "remove_edge"@,
        "ether"@ != "inter"@,
{
    reveal_strlit("upsert_node");
    reveal_strlit("upsert_edge");
    reveal_strlit("remove_node");
    reveal_strlit("remove_edge");
    reveal_strlit("ether");
    reveal_strlit("inter");
    assert("upsert_node"@[0] == 'u' && "upsert_node"@[7] == 'n');
    assert("upsert_edge"@[0] == 'u' && "upsert_edge"@[7] == 'e');
    assert("remove_node"@[0] == 'r' && "remove_node"@[7] == 'n');
    assert("remove_edge"@[0] == 'r' && "remove_edge"@[7] == 'e');
    assert("ether"@[0] == 'e' && "inter"@[0] == 'i');
}

proof fn lemma_members_are_object(delta: DeltaView)
    ensures
        crate::json::has_distinct_names(members_of(delta)),
        fits(delta) ==> crate::json::is_object(members_of(delta)),
        forall|i: int|
            0 <= i < members_of(delta).len() ==> crate::json::is_plain(
                (#[trigger] members_of(delta)[i]).1,
            ),
{
    lemma_names_differ();
}

/// Reading the members of a message gives the message.
pub proof fn law_reading_gives_the_message(delta: DeltaView)
    ensures
        delta_of(crate::json::by_name(members_of(delta))) == Some(delta),
{
    let ms = members_of(delta);
    let m = crate::json::by_name(ms);
    lemma_members_are_object(delta);
    lemma_kinds_differ();
    crate::json::lemma_by_name(ms);
    assert(m.contains_key(ms[0].0) && m[ms[0].0] == ms[0].1);
    assert(m.contains_key(ms[1].0) && m[ms[1].0] == ms[1].1);
    assert(m.contains_key(ms[2].0) && m[ms[2].0] == ms[2].1);
    if delta is UpsertNode || delta is UpsertEdge {
        assert(m.contains_key(ms[3].0) && m[ms[3].0] == ms[3].1);
        assert(m.contains_key(ms[4].0) && m[ms[4].0] == ms[4].1);
        assert(m.contains_key(ms[5].0) && m[ms[5].0] == ms[5].1);
        assert(m.contains_key(ms[6].0) && m[ms[6].0] == ms[6].1);
    }
    if delta is UpsertEdge {
        assert(m.contains_key(ms[7].0) && m[ms[7].0] == ms[7].1);
    }
}

/// Nothing is lost in writing: messages with one JSON are one message.
pub proof fn law_json_is_lossless(a: DeltaView, b: DeltaView)
    requires
        json_of(a) == json_of(b),
    ensures
        a == b,
{
    lemma_members_are_object(a);
    lemma_members_are_object(b);
    crate::json::law_objects_are_lossless(members_of(a), members_of(b));
    law_reading_gives_the_message(a);
    law_reading_gives_the_message(b);
}

/// The members of the message that tells the fade time.
pub open spec fn config_members(fade_secs: nat) -> Seq<(Seq<char>, crate::json::MemberView)> {
    seq![text_member("type"@, "config"@), number_member("fade_secs"@, fade_secs)]
}

/// The message that tells the fade time, as JSON.
pub open spec fn config_text(fade_secs: nat) -> Seq<char> {
    crate::json::object_text(config_members(fade_secs))
}

/// Writes the message that tells the fade time.
pub fn config_json(fade_secs: u64) -> (r: String)
    ensures
        r@ == config_text(fade_secs as nat),
{
    let members: Vec<(&str, Member)> = vec![
        ("type", Member::Text("config".to_string())),
        ("fade_secs", Member::Number(Some(fade_secs))),
    ];
    assert(members@.map_values(|m: (&str, Member)| (m.0@, m.1@)) =~= config_members(
        fade_secs as nat,
    ));
    write_object(&members)
}

/// The fade time that the members of an object ask for, `None` where they ask
/// for none.
pub open spec fn set_fade_of(m: Map<Seq<char>, crate::json::MemberView>) -> Option<nat> {
    if crate::json::text_in(m, "type"@) == Some("set_fade"@) {
        crate::json::number_in(m, "seconds"@)
    } else {
        None
    }
}

/// The members of a request for another fade time.
pub open spec fn set_fade_members(seconds: nat) -> Seq<(Seq<char>, crate::json::MemberView)> {
    seq![text_member("type"@, "set_fade"@), number_member("seconds"@, seconds)]
}

/// The fade time that the members of an object ask for.
pub fn set_fade_from_members(members: &Vec<(String, Member)>) -> (r: Option<u64>)
    ensures
        match set_fade_of(crate::json::by_name(crate::json::member_views(members@))) {
            Some(n) => r == Some(n as u64) && n <= u64::MAX,
            None => r is None,
        },
{
    match find_text(members, "type") {
        Some(kind) => if same_text(kind.as_str(), "set_fade") {
            find_number(members, "seconds")
        } else {
            None
        },
        None => None,
    }
}

/// Reads a request for another fade time.
pub fn read_set_fade(text: &str) -> (r: Option<u64>)
    ensures
        match crate::json::read_members(text@) {
            Some(m) => match set_fade_of(m) {
                Some(n) => r == Some(n as u64) && n <= u64::MAX,
                None => r is None,
            },
            None => r is None,
        },
        forall|n: u64|
            text@ == crate::json::object_text(#[trigger] set_fade_members(n as nat)) ==> r == Some(
                n,
            ),
{
    let read = read_object(text);
    proof {
        reveal_strlit("type");
        reveal_strlit("seconds");
        assert forall|n: u64|
            text@ == crate::json::object_text(
                #[trigger] set_fade_members(n as nat),
            ) implies read is Some && set_fade_of(
            crate::json::by_name(crate::json::member_views(read->0@)),
        ) == Some(n as nat) by {
            let ms = set_fade_members(n as nat);
            assert(ms[0].0.len() == 4 && ms[1].0.len() == 7);
            assert(ms[0].0[0] == 't' && ms[1].0[0] == 's');
            assert(crate::json::is_object(ms));
            crate::json::lemma_by_name(ms);
            let m = crate::json::by_name(ms);
            assert(m.contains_key(ms[0].0) && m[ms[0].0] == ms[0].1);
            assert(m.contains_key(ms[1].0) && m[ms[1].0] == ms[1].1);
        }
    }
    match read {
        Some(members) => set_fade_from_members(&members),
        None => None,
    }
}

/// What a message changes: a node or an edge of a graph.
pub struct Target {
    pub edge: bool,
    pub view: View,
    pub id: Seq<char>,
}

/// The node or edge that a message changes.
pub open spec fn target_of(delta: DeltaView) -> Target {
    match delta {
        DeltaView::UpsertNode { view, id, .. } => Target { edge: false, view, id },
        DeltaView::UpsertEdge { view, id, .. } => Target { edge: true, view, id },
        DeltaView::RemoveNode { view, id } => Target { edge: false, view, id },
        DeltaView::RemoveEdge { view, id } => Target { edge: true, view, id },
    }
}

/// What a reader of the messages knows: of each node and edge that is there,
/// the message that last described it.
pub open spec fn applied(known: Map<Target, DeltaView>, delta: DeltaView) -> Map<
    Target,
    DeltaView,
> {
    if delta is UpsertNode || delta is UpsertEdge {
        known.insert(target_of(delta), delta)
    } else {
        known.remove(target_of(delta))
    }
}

/// What a reader knows after several messages, the first one first.
pub open spec fn applied_all(known: Map<Target, DeltaView>, deltas: Seq<DeltaView>) -> Map<
    Target,
    DeltaView,
>
    decreases deltas.len(),
{
    if deltas.len() == 0 {
        known
    } else {
        applied(applied_all(known, deltas.drop_last()), deltas.last())
    }
}

proof fn lemma_alike_elsewhere(
    a: Map<Target, DeltaView>,
    b: Map<Target, DeltaView>,
    deltas: Seq<DeltaView>,
    target: Target,
)
    requires
        a.remove(target) == b.remove(target),
    ensures
        applied_all(a, deltas).remove(target) == applied_all(b, deltas).remove(target),
    decreases deltas.len(),
{
    if deltas.len() > 0 {
        lemma_alike_elsewhere(a, b, deltas.drop_last(), target);
        let x = applied_all(a, deltas.drop_last());
        let y = applied_all(b, deltas.drop_last());
        assert forall|t: Target| t != target implies (x.contains_key(t) == #[trigger] y.contains_key(
            t,
        ) && (x.contains_key(t) ==> x[t] == y[t])) by {
            assert(x.remove(target).contains_key(t) == y.remove(target).contains_key(t));
            if x.contains_key(t) {
                assert(x.remove(target)[t] == y.remove(target)[t]);
            }
        }
        assert(applied_all(a, deltas).remove(target) =~= applied_all(b, deltas).remove(target));
    }
}

/// A message that a slow reader misses is made good by the next message on
/// the same node or edge, whatever comes between.
pub proof fn law_missed_message_is_repaired(
    known: Map<Target, DeltaView>,
    missed: DeltaView,
    between: Seq<DeltaView>,
    next: DeltaView,
)
    requires
        target_of(next) == target_of(missed),
    ensures
        applied_all(known, between.push(next)) == applied_all(
            applied(known, missed),
            between.push(next),
        ),
{
    let target = target_of(missed);
    assert(known.remove(target) =~= applied(known, missed).remove(target));
    lemma_alike_elsewhere(known, applied(known, missed), between, target);
    assert(between.push(next).drop_last() =~= between);
    let x = applied_all(known, between);
    let y = applied_all(applied(known, missed), between);
    assert(x.insert(target, next) =~= x.remove(target).insert(target, next));
    assert(y.insert(target, next) =~= y.remove(target).insert(target, next));
}

/// A message that comes twice has no further effect.
pub proof fn law_repeated_message_changes_nothing(known: Map<Target, DeltaView>, delta: DeltaView)
    ensures
        applied(applied(known, delta), delta) == applied(known, delta),
{
    assert(applied(applied(known, delta), delta) =~= applied(known, delta));
}

/// After upserts of different nodes and edges each of them is known, and
/// nothing else.
pub proof fn lemma_applied_upserts(deltas: Seq<DeltaView>)
    requires
        forall|i: int|
            0 <= i < deltas.len() ==> (#[trigger] deltas[i]) is UpsertNode
                || deltas[i] is UpsertEdge,
        forall|i: int, j: int|
            0 <= i < j < deltas.len() ==> target_of(#[trigger] deltas[i]) != target_of(
                #[trigger] deltas[j],
            ),
    ensures
        forall|i: int|
            0 <= i < deltas.len() ==> applied_all(Map::empty(), deltas).contains_key(
                target_of(#[trigger] deltas[i]),
            ) && applied_all(Map::empty(), deltas)[target_of(deltas[i])] == deltas[i],
        forall|t: Target| #[trigger]
            applied_all(Map::empty(), deltas).contains_key(t) ==> exists|i: int|
                0 <= i < deltas.len() && target_of(#[trigger] deltas[i]) == t,
    decreases deltas.len(),
{
    if deltas.len() > 0 {
        let head = deltas.drop_last();
        let last = deltas.last();
        assert forall|i: int| 0 <= i < head.len() implies head[i] == #[trigger] deltas[i] by {}
        assert forall|i: int, j: int| 0 <= i < j < head.len() implies target_of(
            #[trigger] head[i],
        ) != target_of(#[trigger] head[j]) by {
            assert(head[i] == deltas[i] && head[j] == deltas[j]);
        }
        assert forall|i: int| 0 <= i < head.len() implies (#[trigger] head[i]) is UpsertNode
            || head[i] is UpsertEdge by {
            assert(head[i] == deltas[i]);
        }
        lemma_applied_upserts(head);
        let before = applied_all(Map::empty(), head);
        let after = applied_all(Map::empty(), deltas);
        assert(deltas[deltas.len() - 1] == last);
        assert(after == before.insert(target_of(last), last));
        assert forall|i: int| 0 <= i < deltas.len() implies after.contains_key(
            target_of(#[trigger] deltas[i]),
        ) && after[target_of(deltas[i])] == deltas[i] by {
            if i < head.len() {
                assert(head[i] == deltas[i]);
                assert(target_of(deltas[i]) != target_of(deltas[deltas.len() - 1]));
            }
        }
        assert forall|t: Target| #[trigger] after.contains_key(t) implies exists|i: int|
            0 <= i < deltas.len() && target_of(#[trigger] deltas[i]) == t by {
            if t == target_of(last) {
                assert(target_of(deltas[deltas.len() - 1]) == t);
            } else {
                assert(before.contains_key(t));
                let i = choose|i: int|
                    0 <= i < head.len() && target_of(#[trigger] head[i]) == t;
                assert(target_of(deltas[i]) == t);
            }
        }
    }
}

/// The members of each message, in order: its kind, the graph that it changes,
/// and its fields under their own names.
pub proof fn law_message_members(delta: Delta)
    ensures
        match delta {
            Delta::UpsertNode { view, id, label, bytes, packets, proto } => {
                let shown = match view {
                    View::Ether => "ether"@,
                    View::Inter => "inter"@,
                };
                json_of(delta@) == crate::json::object_text(
                    seq![
                        ("type"@, crate::json::MemberView::Text("upsert_node"@)),
                        ("view"@, crate::json::MemberView::Text(shown)),
                        ("id"@, crate::json::MemberView::Text(id@)),
                        ("label"@, crate::json::MemberView::Text(label@)),
                        ("bytes"@, crate::json::MemberView::Number(Some(bytes as nat))),
                        ("packets"@, crate::json::MemberView::Number(Some(packets as nat))),
                        ("proto"@, crate::json::MemberView::Text(proto@)),
                    ],
                )
            },
            Delta::UpsertEdge { view, id, source, target, bytes, packets, proto } => {
                let shown = match view {
                    View::Ether => "ether"@,
                    View::Inter => "inter"@,
                };
                json_of(delta@) == crate::json::object_text(
                    seq![
                        ("type"@, crate::json::MemberView::Text("upsert_edge"@)),
                        ("view"@, crate::json::MemberView::Text(shown)),
                        ("id"@, crate::json::MemberView::Text(id@)),
                        ("source"@, crate::json::MemberView::Text(source@)),
                        ("target"@, crate::json::MemberView::Text(target@)),
                        ("bytes"@, crate::json::MemberView::Number(Some(bytes as nat))),
                        ("packets"@, crate::json::MemberView::Number(Some(packets as nat))),
                        ("proto"@, crate::json::MemberView::Text(proto@)),
                    ],
                )
            },
            Delta::RemoveNode { view, id } => {
                let shown = match view {
                    View::Ether => "ether"@,
                    View::Inter => "inter"@,
                };
                json_of(delta@) == crate::json::object_text(
                    seq![
                        ("type"@, crate::json::MemberView::Text("remove_node"@)),
                        ("view"@, crate::json::MemberView::Text(shown)),
                        ("id"@, crate::json::MemberView::Text(id@)),
                    ],
                )
            },
            Delta::RemoveEdge { view, id } => {
                let shown = match view {
                    View::Ether => "ether"@,
                    View::Inter => "inter"@,
                };
                json_of(delta@) == crate::json::object_text(
                    seq![
                        ("type"@, crate::json::MemberView::Text("remove_edge"@)),
                        ("view"@, crate::json::MemberView::Text(shown)),
                        ("id"@, crate::json::MemberView::Text(id@)),
                    ],
                )
            },
        },
{
}

/// The message that tells the fade time has its kind and the seconds as
/// members.
pub proof fn law_config_members(fade_secs: nat)
    ensures
        config_text(fade_secs) == crate::json::object_text(
            seq![
                ("type"@, crate::json::MemberView::Text("config"@)),
                ("fade_secs"@, crate::json::MemberView::Number(Some(fade_secs))),
            ],
        ),
{
}

/// A request for another fade time is an object whose kind is `set_fade`, with
/// the seconds as a number. Nothing else is one.
pub proof fn law_fade_requests(m: Map<Seq<char>, crate::json::MemberView>, seconds: nat)
    ensures
        set_fade_of(m) == Some(seconds) <==> {
            &&& m.contains_key("type"@)
            &&& m["type"@] == crate::json::MemberView::Text("set_fade"@)
            &&& m.contains_key("seconds"@)
            &&& m["seconds"@] == crate::json::MemberView::Number(Some(seconds))
        },
        crate::server::client::event_of(None) == crate::server::client::ClientEvent::PeerMessage,
        set_fade_of(m) is None ==> crate::server::client::event_of(Some(m))
            == crate::server::client::ClientEvent::PeerMessage,
        set_fade_of(m) == Some(seconds) && seconds < 0x1_0000_0000_0000_0000
            ==> crate::server::client::event_of(Some(m))
            == crate::server::client::ClientEvent::SetFade(seconds as u64),
{
}

/// Counters fit where they are below two to the power 64.
pub proof fn law_what_fits(delta: DeltaView)
    ensures
        fits(delta) <==> match delta {
            DeltaView::UpsertNode { bytes, packets, .. } => bytes < 0x1_0000_0000_0000_0000
                && packets < 0x1_0000_0000_0000_0000,
            DeltaView::UpsertEdge { bytes, packets, .. } => bytes < 0x1_0000_0000_0000_0000
                && packets < 0x1_0000_0000_0000_0000,
            _ => true,
        },
{
}

} // verus!
