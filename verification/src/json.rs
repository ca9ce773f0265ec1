//! JSON objects whose members are texts and numbers.

use vstd::prelude::*;

use crate::text::{push_decimal, same_text};

verus! {

/// The value of a member.
#[derive(PartialEq, Eq, Debug)]
pub enum Member {
    Text(String),
    /// A number, where it is whole, not negative and fits in 64 bits.
    Number(Option<u64>),
    /// Anything else.
    Other,
}

/// The value of a member, with its text as characters.
pub enum MemberView {
    Text(Seq<char>),
    Number(Option<nat>),
    Other,
}

impl View for Member {
    type V = MemberView;

    open spec fn view(&self) -> MemberView {
        match self {
            Member::Text(s) => MemberView::Text(s@),
            Member::Number(Some(n)) => MemberView::Number(Some(*n as nat)),
            Member::Number(None) => MemberView::Number(None),
            Member::Other => MemberView::Other,
        }
    }
}

/// The views of several members.
pub open spec fn member_views(s: Seq<(String, Member)>) -> Seq<(Seq<char>, MemberView)> {
    s.map_values(|m: (String, Member)| (m.0@, m.1@))
}

/// A character inside a JSON string: quote, backslash and the control
/// characters are escaped, everything else stands for itself.
pub open spec fn escaped_char(c: char) -> Seq<char> {
    if c == '"' {
        seq!['\\', '"']
    } else if c == '\\' {
        seq!['\\', '\\']
    } else if c as int == 8 {
        seq!['\\', 'b']
    } else if c as int == 9 {
        seq!['\\', 't']
    } else if c as int == 10 {
        seq!['\\', 'n']
    } else if c as int == 12 {
        seq!['\\', 'f']
    } else if c as int == 13 {
        seq!['\\', 'r']
    } else if (c as int) < 32 {
        seq!['\\', 'u', '0', '0'] + crate::text::hex2(c as u8)
    } else {
        seq![c]
    }
}

/// A text inside a JSON string.
pub open spec fn escaped(s: Seq<char>) -> Seq<char>
    decreases s.len(),
{
    if s.len() == 0 {
        Seq::empty()
    } else {
        escaped_char(s[0]) + escaped(s.drop_first())
    }
}

/// A text as a JSON string.
pub open spec fn json_string(s: Seq<char>) -> Seq<char> {
    seq!['"'] + escaped(s) + seq!['"']
}

/// `serde_json::to_string` on a text.
///
/// It always succeeds and gives the text between quotes, with the escapes of
/// `escaped_char`.
#[verifier::external_body]
fn to_json(s: &str) -> (r: String)
    ensures
        r@ == json_string(s@),
{
    serde_json::to_string(s).unwrap_or_default()
}

/// A text or a number.
pub open spec fn is_plain(value: MemberView) -> bool {
    value is Text || (value is Number && value->Number_0 is Some)
}

/// A text, or a number that fits in 64 bits.
pub open spec fn is_writable(value: MemberView) -> bool {
    is_plain(value) && (value is Number ==> value->Number_0->0 <= u64::MAX)
}

/// A value as JSON.
pub open spec fn value_text(value: MemberView) -> Seq<char> {
    match value {
        MemberView::Text(s) => json_string(s),
        MemberView::Number(Some(n)) => crate::text::decimal(n),
        _ => "null"@,
    }
}

/// A member as JSON.
pub open spec fn member_text(member: (Seq<char>, MemberView)) -> Seq<char> {
    json_string(member.0) + (seq![':'] + value_text(member.1))
}

/// Members as JSON, with commas between.
pub open spec fn members_text(members: Seq<(Seq<char>, MemberView)>) -> Seq<char>
    decreases members.len(),
{
    if members.len() == 0 {
        Seq::empty()
    } else if members.len() == 1 {
        member_text(members[0])
    } else {
        members_text(members.drop_last()) + (seq![','] + member_text(members.last()))
    }
}

/// An object as JSON, its members in order.
pub open spec fn object_text(members: Seq<(Seq<char>, MemberView)>) -> Seq<char> {
    seq!['{'] + members_text(members) + seq!['}']
}

/// The members of an object can be written, no name stands twice, and none
/// starts with a dollar sign: `serde_json` keeps such names for itself.
pub open spec fn is_object(members: Seq<(Seq<char>, MemberView)>) -> bool {
    &&& forall|i: int| 0 <= i < members.len() ==> is_writable((#[trigger] members[i]).1)
    &&& forall|i: int|
        0 <= i < members.len() ==> (#[trigger] members[i]).0.len() == 0 || members[i].0[0] != '$'
    &&& has_distinct_names(members)
}

/// No name stands twice.
pub open spec fn has_distinct_names(members: Seq<(Seq<char>, MemberView)>) -> bool {
    forall|i: int, j: int|
        0 <= i < j < members.len() ==> (#[trigger] members[i]).0 != (#[trigger] members[j]).0
}

/// The values by name; of a name that stands twice the last value.
pub open spec fn by_name(members: Seq<(Seq<char>, MemberView)>) -> Map<Seq<char>, MemberView>
    decreases members.len(),
{
    if members.len() == 0 {
        Map::empty()
    } else {
        by_name(members.drop_last()).insert(members.last().0, members.last().1)
    }
}

/// The members of the object that `serde_json::from_str` reads in a text,
/// `None` where the text is no JSON or no object.
pub uninterp spec fn read_members(text: Seq<char>) -> Option<Map<Seq<char>, MemberView>>;

/// `serde_json::from_str` to a `serde_json::Value`, the members of an object.
///
/// The members are those of `read_members`, each name once. An object that
/// was written as `object_text` writes it is read back.
#[verifier::external_body]
pub(crate) fn read_object(text: &str) -> (r: Option<Vec<(String, Member)>>)
    ensures
        (r is Some) == (read_members(text@) is Some),
        r matches Some(members) ==> by_name(member_views(members@)) == read_members(text@)->0,
        forall|members: Seq<(Seq<char>, MemberView)>|
            is_object(members) && text@ == #[trigger] object_text(members) ==> r is Some && by_name(
                member_views(r->0@),
            ) == by_name(members),
{
    let serde_json::Value::Object(map) = serde_json::from_str(text).ok()? else { return None };
    Some(map.into_iter().map(|(name, value)| (name, match value {
        serde_json::Value::String(s) => Member::Text(s),
        serde_json::Value::Number(n) => Member::Number(n.as_u64()),
        _ => Member::Other,
    })).collect())
}

/// Writes an object.
pub fn write_object(members: &Vec<(&str, Member)>) -> (r: String)
    ensures
        r@ == object_text(members@.map_values(|m: (&str, Member)| (m.0@, m.1@))),
{
    let ghost views = members@.map_values(|m: (&str, Member)| (m.0@, m.1@));
    let mut out = String::new();
    out.push('{');
    let ghost open = out@;
    let mut i: usize = 0;
    assert(out@ =~= open + members_text(views.take(0)));
    while i < members.len()
        invariant
            i <= members@.len(),
            views == members@.map_values(|m: (&str, Member)| (m.0@, m.1@)),
            out@ == open + members_text(views.take(i as int)),
        decreases members@.len() - i,
    {
        let ghost before = out@;
        if i > 0 {
            out.push(',');
        }
        out.append(to_json(members[i].0).as_str());
        out.push(':');
        match &members[i].1 {
            Member::Text(s) => out.append(to_json(s.as_str()).as_str()),
            Member::Number(Some(n)) => push_decimal(&mut out, *n),
            _ => out.append("null"),
        }
        proof {
            let now = views.take(i + 1);
            assert(now.drop_last() =~= views.take(i as int));
            assert(now.last() == views[i as int]);
            if i == 0 {
                assert(now[0] == views[0]);
                assert(members_text(now) == member_text(views[0]));
                assert(before =~= open);
                assert(out@ =~= open + member_text(views[0]));
            } else {
                assert(out@ =~= before + (seq![','] + member_text(views[i as int])));
                assert(out@ =~= open + members_text(now));
            }
        }
        i += 1;
    }
    assert(views.take(i as int) =~= views);
    out.push('}');
    assert(open =~= seq!['{']);
    assert(out@ =~= object_text(views));
    out
}

/// The text of a member, where it has one.
pub open spec fn text_in(m: Map<Seq<char>, MemberView>, name: Seq<char>) -> Option<Seq<char>> {
    if m.contains_key(name) && m[name] is Text {
        Some(m[name]->Text_0)
    } else {
        None
    }
}

/// The number of a member, where it has one.
pub open spec fn number_in(m: Map<Seq<char>, MemberView>, name: Seq<char>) -> Option<nat> {
    if m.contains_key(name) && m[name] is Number {
        m[name]->Number_0
    } else {
        None
    }
}

/// Finds the last member of that name.
pub fn find_member<'a>(members: &'a Vec<(String, Member)>, name: &str) -> (r: Option<&'a Member>)
    ensures
        ({
            let m = by_name(member_views(members@));
            match r {
                Some(value) => m.contains_key(name@) && m[name@] == value@,
                None => !m.contains_key(name@),
            }
        }),
{
    let ghost views = member_views(members@);
    let mut left: usize = members.len();
    assert(views.take(left as int) =~= views);
    while left > 0
        invariant
            left <= members@.len(),
            views == member_views(members@),
            by_name(views).contains_key(name@) == by_name(views.take(left as int)).contains_key(
                name@,
            ),
            by_name(views).contains_key(name@) ==> by_name(views)[name@] == by_name(
                views.take(left as int),
            )[name@],
        decreases left,
    {
        left -= 1;
        proof {
            let now = views.take(left + 1);
            assert(now.drop_last() =~= views.take(left as int));
            assert(now.last() == views[left as int]);
        }
        if same_text(members[left].0.as_str(), name) {
            return Some(&members[left].1);
        }
    }
    assert(views.take(0) =~= Seq::empty());
    None
}

/// Finds the text of a member.
pub fn find_text(members: &Vec<(String, Member)>, name: &str) -> (r: Option<String>)
    ensures
        crate::text::text_view(r) == text_in(by_name(member_views(members@)), name@),
{
    match find_member(members, name) {
        Some(Member::Text(s)) => Some(s.clone()),
        _ => None,
    }
}

/// Finds the number of a member.
pub fn find_number(members: &Vec<(String, Member)>, name: &str) -> (r: Option<u64>)
    ensures
        match number_in(by_name(member_views(members@)), name@) {
            Some(n) => r == Some(n as u64) && n <= u64::MAX,
            None => r is None,
        },
{
    match find_member(members, name) {
        Some(Member::Number(n)) => *n,
        _ => None,
    }
}

proof fn lemma_escaped_char_prefix(c: char, x: Seq<char>, d: char, y: Seq<char>)
    requires
        escaped_char(c) + x == escaped_char(d) + y,
    ensures
        c == d,
        x == y,
{
    let e = escaped_char(c);
    let f = escaped_char(d);
    let z = e + x;
    assert(z[0] == e[0] && z[0] == f[0]);
    if e.len() > 1 && f.len() > 1 {
        assert(z[1] == e[1] && z[1] == f[1]);
        if e.len() == 6 && f.len() == 6 {
            assert(z[4] == e[4] && z[5] == e[5]);
            assert(z[4] == f[4] && z[5] == f[5]);
            crate::text::lemma_digit_injective(c as u8 as int / 16, d as u8 as int / 16);
            crate::text::lemma_digit_injective(c as u8 as int % 16, d as u8 as int % 16);
        }
    }
    crate::text::lemma_same_length_prefix(e, x, f, y);
}

proof fn lemma_escaped_prefix(a: Seq<char>, x: Seq<char>, b: Seq<char>, y: Seq<char>)
    requires
        escaped(a) + (seq!['"'] + x) == escaped(b) + (seq!['"'] + y),
    ensures
        a == b,
        x == y,
    decreases a.len(),
{
    let p = seq!['"'] + x;
    let q = seq!['"'] + y;
    let z = escaped(a) + p;
    if a.len() == 0 && b.len() == 0 {
        assert(escaped(a) + p =~= p);
        assert(escaped(b) + q =~= q);
        crate::text::lemma_same_length_prefix(seq!['"'], x, seq!['"'], y);
        assert(a =~= b);
    } else if a.len() == 0 {
        assert(z[0] == '"');
        assert(z[0] == escaped_char(b[0])[0]);
    } else if b.len() == 0 {
        assert((escaped(b) + q)[0] == '"');
        assert(z[0] == escaped_char(a[0])[0]);
    } else {
        let ra = escaped(a.drop_first()) + p;
        let rb = escaped(b.drop_first()) + q;
        assert(escaped(a) + p =~= escaped_char(a[0]) + ra);
        assert(escaped(b) + q =~= escaped_char(b[0]) + rb);
        lemma_escaped_char_prefix(a[0], ra, b[0], rb);
        lemma_escaped_prefix(a.drop_first(), x, b.drop_first(), y);
        assert(a =~= seq![a[0]] + a.drop_first());
        assert(b =~= seq![b[0]] + b.drop_first());
    }
}

proof fn lemma_string_prefix(a: Seq<char>, x: Seq<char>, b: Seq<char>, y: Seq<char>)
    requires
        json_string(a) + x == json_string(b) + y,
    ensures
        a == b,
        x == y,
{
    let quote = seq!['"'];
    let ra = escaped(a) + (quote + x);
    let rb = escaped(b) + (quote + y);
    assert(json_string(a) + x =~= quote + ra);
    assert(json_string(b) + y =~= quote + rb);
    crate::text::lemma_same_length_prefix(quote, ra, quote, rb);
    lemma_escaped_prefix(a, x, b, y);
}

/// What stands behind a member: a comma or a brace.
spec fn is_end(x: Seq<char>) -> bool {
    x.len() > 0 && (x[0] == ',' || x[0] == '}')
}

proof fn lemma_value_prefix(a: MemberView, x: Seq<char>, b: MemberView, y: Seq<char>)
    requires
        value_text(a) + x == value_text(b) + y,
        is_plain(a),
        is_plain(b),
        is_end(x),
        is_end(y),
    ensures
        a == b,
        x == y,
{
    let z = value_text(a) + x;
    match (a, b) {
        (MemberView::Text(s), MemberView::Text(t)) => {
            lemma_string_prefix(s, x, t, y);
        },
        (MemberView::Number(Some(m)), MemberView::Number(Some(n))) => {
            crate::text::lemma_decimal_prefix(m, x, n, y);
        },
        (MemberView::Text(s), MemberView::Number(Some(n))) => {
            crate::text::lemma_decimal_digits(n);
            assert(z[0] == json_string(s)[0]);
            assert(z[0] == crate::text::decimal(n)[0]);
        },
        (MemberView::Number(Some(m)), MemberView::Text(t)) => {
            crate::text::lemma_decimal_digits(m);
            assert(z[0] == crate::text::decimal(m)[0]);
            assert(z[0] == json_string(t)[0]);
        },
        _ => {},
    }
}

proof fn lemma_member_prefix(
    a: (Seq<char>, MemberView),
    x: Seq<char>,
    b: (Seq<char>, MemberView),
    y: Seq<char>,
)
    requires
        member_text(a) + x == member_text(b) + y,
        is_plain(a.1),
        is_plain(b.1),
        is_end(x),
        is_end(y),
    ensures
        a == b,
        x == y,
{
    let colon = seq![':'];
    let ra = colon + (value_text(a.1) + x);
    let rb = colon + (value_text(b.1) + y);
    assert(member_text(a) + x =~= json_string(a.0) + ra);
    assert(member_text(b) + y =~= json_string(b.0) + rb);
    lemma_string_prefix(a.0, ra, b.0, rb);
    crate::text::lemma_same_length_prefix(
        colon,
        value_text(a.1) + x,
        colon,
        value_text(b.1) + y,
    );
    lemma_value_prefix(a.1, x, b.1, y);
}

/// What follows the first member.
spec fn after_first(members: Seq<(Seq<char>, MemberView)>, x: Seq<char>) -> Seq<char> {
    if members.len() <= 1 {
        x
    } else {
        seq![','] + (members_text(members.drop_first()) + x)
    }
}

proof fn lemma_members_from_front(members: Seq<(Seq<char>, MemberView)>, x: Seq<char>)
    requires
        members.len() > 0,
    ensures
        members_text(members) + x == member_text(members[0]) + after_first(members, x),
    decreases members.len(),
{
    if members.len() > 1 {
        let head = members.drop_last();
        let last = seq![','] + member_text(members.last());
        lemma_members_from_front(head, last + x);
        assert(head[0] == members[0]);
        assert(members_text(members) + x =~= members_text(head) + (last + x));
        let rest = members.drop_first();
        assert(rest.drop_last() =~= head.drop_first());
        assert(rest.last() == members.last());
        if members.len() == 2 {
            assert(rest[0] == members[1]);
            assert(after_first(head, last + x) =~= seq![','] + (members_text(rest) + x));
        } else {
            assert(members_text(rest) =~= members_text(head.drop_first()) + last);
            assert(members_text(head.drop_first()) + (last + x) =~= members_text(rest) + x);
        }
    }
}

proof fn lemma_members_prefix(
    a: Seq<(Seq<char>, MemberView)>,
    b: Seq<(Seq<char>, MemberView)>,
)
    requires
        members_text(a) + seq!['}'] == members_text(b) + seq!['}'],
        forall|i: int| 0 <= i < a.len() ==> is_plain((#[trigger] a[i]).1),
        forall|i: int| 0 <= i < b.len() ==> is_plain((#[trigger] b[i]).1),
    ensures
        a == b,
    decreases a.len(),
{
    let end = seq!['}'];
    let z = members_text(a) + end;
    if a.len() == 0 && b.len() == 0 {
        assert(a =~= b);
    } else if a.len() == 0 {
        lemma_members_from_front(b, end);
        assert(z[0] == '}');
        assert(z[0] == member_text(b[0])[0]);
    } else if b.len() == 0 {
        lemma_members_from_front(a, end);
        assert((members_text(b) + end)[0] == '}');
        assert(z[0] == member_text(a[0])[0]);
    } else {
        lemma_members_from_front(a, end);
        lemma_members_from_front(b, end);
        let ra = after_first(a, end);
        let rb = after_first(b, end);
        lemma_member_prefix(a[0], ra, b[0], rb);
        if a.len() > 1 && b.len() > 1 {
            let ta = a.drop_first();
            let tb = b.drop_first();
            crate::text::lemma_same_length_prefix(
                seq![','],
                members_text(ta) + end,
                seq![','],
                members_text(tb) + end,
            );
            assert forall|i: int| 0 <= i < ta.len() implies is_plain((#[trigger] ta[i]).1) by {
                assert(ta[i] == a[i + 1]);
            }
            assert forall|i: int| 0 <= i < tb.len() implies is_plain((#[trigger] tb[i]).1) by {
                assert(tb[i] == b[i + 1]);
            }
            lemma_members_prefix(ta, tb);
        } else {
            assert(ra[0] == rb[0]);
        }
        assert(a =~= seq![a[0]] + a.drop_first());
        assert(b =~= seq![b[0]] + b.drop_first());
    }
}

/// Nothing is lost in writing: objects with one text have the same members in
/// the same order.
pub proof fn law_objects_are_lossless(
    a: Seq<(Seq<char>, MemberView)>,
    b: Seq<(Seq<char>, MemberView)>,
)
    requires
        object_text(a) == object_text(b),
        forall|i: int| 0 <= i < a.len() ==> is_plain((#[trigger] a[i]).1),
        forall|i: int| 0 <= i < b.len() ==> is_plain((#[trigger] b[i]).1),
    ensures
        a == b,
{
    let brace = seq!['{'];
    let ra = members_text(a) + seq!['}'];
    let rb = members_text(b) + seq!['}'];
    assert(object_text(a) =~= brace + ra);
    assert(object_text(b) =~= brace + rb);
    crate::text::lemma_same_length_prefix(brace, ra, brace, rb);
    lemma_members_prefix(a, b);
}

/// Each member of an object stands under its name.
pub proof fn lemma_by_name(members: Seq<(Seq<char>, MemberView)>)
    requires
        has_distinct_names(members),
    ensures
        forall|i: int|
            0 <= i < members.len() ==> by_name(members).contains_key((#[trigger] members[i]).0)
                && by_name(members)[members[i].0] == members[i].1,
    decreases members.len(),
{
    if members.len() > 0 {
        let head = members.drop_last();
        assert forall|i: int, j: int| 0 <= i < j < head.len() implies (#[trigger] head[i]).0 != (
        #[trigger] head[j]).0 by {
            assert(head[i] == members[i] && head[j] == members[j]);
        }
        lemma_by_name(head);
        assert forall|i: int| 0 <= i < members.len() implies by_name(members).contains_key(
            (#[trigger] members[i]).0,
        ) && by_name(members)[members[i].0] == members[i].1 by {
            if i < head.len() {
                assert(head[i] == members[i]);
                assert(members[i].0 != members[members.len() - 1].0);
            }
        }
    }
}

/// Every member stands in the object, in order: one more comes in before the
/// closing brace, behind a comma where another one stands there. A member is
/// its name, a colon and its value; a value is a text or a decimal number.
pub proof fn law_object_grows(
    members: Seq<(Seq<char>, MemberView)>,
    name: Seq<char>,
    text: Seq<char>,
    number: nat,
)
    ensures
        object_text(Seq::empty()) == seq!['{', '}'],
        members.len() == 0 ==> object_text(members.push((name, MemberView::Text(text)))) == seq![
            '{',
        ] + json_string(name) + seq![':'] + json_string(text) + seq!['}'],
        members.len() == 0 ==> object_text(members.push((name, MemberView::Number(Some(number)))))
            == seq!['{'] + json_string(name) + seq![':'] + crate::text::decimal(number) + seq![
            '}',
        ],
        members.len() > 0 ==> object_text(members.push((name, MemberView::Text(text))))
            == object_text(members).drop_last() + seq![','] + json_string(name) + seq![':']
            + json_string(text) + seq!['}'],
        members.len() > 0 ==> object_text(members.push((name, MemberView::Number(Some(number)))))
            == object_text(members).drop_last() + seq![','] + json_string(name) + seq![':']
            + crate::text::decimal(number) + seq!['}'],
{
    assert(object_text(Seq::empty()) =~= seq!['{', '}']);
    lemma_object_push(members, (name, MemberView::Text(text)));
    lemma_object_push(members, (name, MemberView::Number(Some(number))));
}

proof fn lemma_object_push(
    members: Seq<(Seq<char>, MemberView)>,
    member: (Seq<char>, MemberView),
)
    ensures
        members.len() == 0 ==> object_text(members.push(member)) == seq!['{'] + json_string(
            member.0,
        ) + seq![':'] + value_text(member.1) + seq!['}'],
        members.len() > 0 ==> object_text(members.push(member)) == object_text(members).drop_last()
            + seq![','] + json_string(member.0) + seq![':'] + value_text(member.1) + seq!['}'],
{
    let longer = members.push(member);
    let name = json_string(member.0);
    let value = value_text(member.1);
    assert(longer.drop_last() =~= members);
    assert(longer.last() == member);
    if members.len() == 0 {
        assert(longer[0] == member);
        assert(object_text(longer) =~= seq!['{'] + name + seq![':'] + value + seq!['}']);
    } else {
        let start = members_text(members);
        assert(object_text(members).drop_last() =~= seq!['{'] + start);
        assert(object_text(longer) =~= seq!['{'] + start + seq![','] + name + seq![':'] + value
            + seq!['}']);
    }
}

/// Between its quotes a JSON string is the text character by character. A
/// character stands for itself unless it is a quote, a backslash or below 32;
/// these are escaped.
pub proof fn law_strings_character_by_character(s: Seq<char>, c: char)
    ensures
        json_string(Seq::empty()) == seq!['"', '"'],
        json_string(s.push(c)) == json_string(s).drop_last() + escaped_char(c) + seq!['"'],
        c != '"' && c != '\\' && c as int >= 32 ==> escaped_char(c) == seq![c],
        escaped_char('"') == seq!['\\', '"'],
        escaped_char('\\') == seq!['\\', '\\'],
        escaped_char('\u{8}') == seq!['\\', 'b'],
        escaped_char('\t') == seq!['\\', 't'],
        escaped_char('\n') == seq!['\\', 'n'],
        escaped_char('\u{c}') == seq!['\\', 'f'],
        escaped_char('\r') == seq!['\\', 'r'],
        (c as int) < 32 && c != '\u{8}' && c != '\t' && c != '\n' && c != '\u{c}' && c != '\r'
            ==> escaped_char(c) == seq![
            '\\',
            'u',
            '0',
            '0',
            "0123456789abcdef"@[c as int / 16],
            "0123456789abcdef"@[c as int % 16],
        ],
{
    assert(json_string(Seq::empty()) =~= seq!['"', '"']);
    lemma_escaped_push(s, c);
    assert(json_string(s).drop_last() =~= seq!['"'] + escaped(s));
    assert(json_string(s.push(c)) =~= json_string(s).drop_last() + escaped_char(c) + seq!['"']);
    if (c as int) < 32 {
        crate::text::law_hex_halves(c as u8, 0);
        assert(c as u8 as int == c as int);
        let h = crate::text::hex2(c as u8);
        assert(seq!['\\', 'u', '0', '0'] + h =~= seq!['\\', 'u', '0', '0', h[0], h[1]]);
    }
}

proof fn lemma_escaped_push(s: Seq<char>, c: char)
    ensures
        escaped(s.push(c)) == escaped(s) + escaped_char(c),
    decreases s.len(),
{
    if s.len() == 0 {
        assert(s.push(c).drop_first() =~= Seq::empty());
        reveal_with_fuel(escaped, 2);
        assert(escaped(s.push(c)) =~= escaped(s) + escaped_char(c));
    } else {
        assert(s.push(c).drop_first() =~= s.drop_first().push(c));
        lemma_escaped_push(s.drop_first(), c);
        assert(escaped(s.push(c)) =~= escaped(s) + escaped_char(c));
    }
}

/// A member is found under its name; of two with one name the later counts,
/// and only a text is read as a text, only a number as a number.
pub proof fn law_members_by_name(
    members: Seq<(Seq<char>, MemberView)>,
    name: Seq<char>,
    value: MemberView,
    other: Seq<char>,
)
    requires
        other != name,
    ensures
        ({
            let before = by_name(members);
            let after = by_name(members.push((name, value)));
            &&& after.contains_key(name) && after[name] == value
            &&& after.contains_key(other) == before.contains_key(other)
            &&& before.contains_key(other) ==> after[other] == before[other]
            &&& text_in(after, name) == (match value {
                MemberView::Text(s) => Some(s),
                _ => None,
            })
            &&& number_in(after, name) == (match value {
                MemberView::Number(n) => n,
                _ => None,
            })
            &&& text_in(after, other) == text_in(before, other)
            &&& number_in(after, other) == number_in(before, other)
        }),
        !by_name(Seq::empty()).contains_key(name),
        text_in(by_name(Seq::empty()), name) is None,
        number_in(by_name(Seq::empty()), name) is None,
{
    assert(members.push((name, value)).drop_last() =~= members);
}

/// Members are seen as they are, in order.
pub proof fn law_members_in_order(s: Seq<(String, Member)>, i: int)
    ensures
        member_views(s).len() == s.len(),
        0 <= i < s.len() ==> member_views(s)[i].0 == s[i].0@ && match s[i].1 {
            Member::Text(t) => member_views(s)[i].1 == MemberView::Text(t@),
            Member::Number(Some(n)) => member_views(s)[i].1 == MemberView::Number(Some(n as nat)),
            Member::Number(None) => member_views(s)[i].1 == MemberView::Number(None),
            Member::Other => member_views(s)[i].1 == MemberView::Other,
        },
{
}

} // verus!
