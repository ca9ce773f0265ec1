//! The loop of one client as decisions: each event gives the next action.

use vstd::prelude::*;

use crate::wsproto::{config_json, read_set_fade};

verus! {

/// Something that the loop of a client waits for.
#[derive(PartialEq, Eq, Debug)]
pub enum ClientEvent {
    /// The last message went out, or did not.
    SendDone(bool),
    /// A change came in, encoded.
    Received(String),
    /// Changes were lost because the client is slow.
    Lagged(u64),
    /// No more changes will come.
    SourceClosed,
    /// The client asks for another fade time, in seconds.
    SetFade(u64),
    /// What was to be published is on its way to every client.
    Published,
    /// The client sent something else that is not a close.
    PeerMessage,
    /// The client closed, failed or went away.
    PeerGone,
}

/// What the loop of a client does next.
#[derive(PartialEq, Eq, Debug)]
pub enum ClientAction {
    Send(String),
    /// Keep a fade time, and hand a message to every client.
    Publish(u64, String),
    /// Wait for a change or for the client.
    Wait,
    End,
}

/// What the loop of a client does next, with its text as characters.
pub enum ClientActionView {
    Send(Seq<char>),
    Publish(u64, Seq<char>),
    Wait,
    End,
}

impl View for ClientAction {
    type V = ClientActionView;

    open spec fn view(&self) -> ClientActionView {
        match self {
            ClientAction::Send(text) => ClientActionView::Send(text@),
            ClientAction::Publish(secs, text) => ClientActionView::Publish(*secs, text@),
            ClientAction::Wait => ClientActionView::Wait,
            ClientAction::End => ClientActionView::End,
        }
    }
}

/// The loop of a client: what is left of the opening messages.
#[derive(Debug)]
pub struct ClientSession {
    opening: Vec<String>,
    /// Opening messages that were handed out.
    next: usize,
}

impl View for ClientSession {
    type V = Seq<Seq<char>>;

    /// The opening messages that are still to be sent.
    closed spec fn view(&self) -> Seq<Seq<char>> {
        crate::text::text_views(self.opening@).skip(self.next as int)
    }
}

/// What follows the opening messages that went out: the next one, or the wait
/// for changes.
pub open spec fn next_of_opening(left: Seq<Seq<char>>) -> (Seq<Seq<char>>, ClientActionView) {
    if left.len() > 0 {
        (left.drop_first(), ClientActionView::Send(left[0]))
    } else {
        (left, ClientActionView::Wait)
    }
}

/// One step of the loop of a client that has `left` of the opening messages to
/// send.
pub open spec fn client_step(left: Seq<Seq<char>>, event: ClientEvent) -> (
    Seq<Seq<char>>,
    ClientActionView,
) {
    match event {
        ClientEvent::SendDone(true) => next_of_opening(left),
        ClientEvent::SendDone(false) => (left, ClientActionView::End),
        ClientEvent::Received(text) => (left, ClientActionView::Send(text@)),
        ClientEvent::Lagged(_) => (left, ClientActionView::Wait),
        ClientEvent::SourceClosed => (left, ClientActionView::End),
        ClientEvent::SetFade(secs) => (
            left,
            ClientActionView::Publish(secs, crate::wsproto::config_text(secs as nat)),
        ),
        ClientEvent::Published => (left, ClientActionView::Wait),
        ClientEvent::PeerMessage => (left, ClientActionView::Wait),
        ClientEvent::PeerGone => (left, ClientActionView::End),
    }
}

impl ClientSession {
    /// No more is handed out than there is.
    #[verifier::type_invariant]
    spec fn within(self) -> bool {
        self.next <= self.opening@.len()
    }

    /// A client that is to get `opening` first.
    pub fn new(opening: Vec<String>) -> (r: Self)
        ensures
            r@ == crate::text::text_views(opening@),
    {
        let r = ClientSession { opening, next: 0 };
        assert(r@ =~= crate::text::text_views(opening@));
        r
    }

    /// What to do first, and after each message that went out.
    pub fn proceed(&mut self) -> (r: ClientAction)
        ensures
            (final(self)@, r@) == next_of_opening(old(self)@),
    {
        proof {
            use_type_invariant(&*self);
        }
        if self.next < self.opening.len() {
            let text = self.opening[self.next].clone();
            self.next = self.next + 1;
            assert(self@ =~= old(self)@.drop_first());
            ClientAction::Send(text)
        } else {
            ClientAction::Wait
        }
    }

    /// What to do after an event.
    pub fn step(&mut self, event: ClientEvent) -> (r: ClientAction)
        ensures
            (final(self)@, r@) == client_step(old(self)@, event),
    {
        match event {
            ClientEvent::SendDone(sent) => if sent {
                self.proceed()
            } else {
                ClientAction::End
            },
            ClientEvent::Received(text) => ClientAction::Send(text),
            ClientEvent::Lagged(_) => ClientAction::Wait,
            ClientEvent::SourceClosed => ClientAction::End,
            ClientEvent::SetFade(secs) => ClientAction::Publish(secs, config_json(secs)),
            ClientEvent::Published => ClientAction::Wait,
            ClientEvent::PeerMessage => ClientAction::Wait,
            ClientEvent::PeerGone => ClientAction::End,
        }
    }
}

/// What the members of an object that a client sent ask for.
pub open spec fn event_of(m: Option<Map<Seq<char>, crate::json::MemberView>>) -> ClientEvent {
    match m {
        Some(members) => match crate::wsproto::set_fade_of(members) {
            Some(secs) => ClientEvent::SetFade(secs as u64),
            None => ClientEvent::PeerMessage,
        },
        None => ClientEvent::PeerMessage,
    }
}

/// What a text that a client sent asks for: another fade time, or nothing.
pub fn peer_event(text: &str) -> (r: ClientEvent)
    ensures
        r == event_of(crate::json::read_members(text@)),
        forall|n: u64|
            text@ == crate::json::object_text(
                #[trigger] crate::wsproto::set_fade_members(n as nat),
            ) ==> r == ClientEvent::SetFade(n),
{
    match read_set_fade(text) {
        Some(secs) => ClientEvent::SetFade(secs),
        None => ClientEvent::PeerMessage,
    }
}

/// What a client is sent from an action on, when `events` follow.
pub open spec fn sent(
    left: Seq<Seq<char>>,
    action: ClientActionView,
    events: Seq<ClientEvent>,
) -> Seq<Seq<char>>
    decreases events.len(),
{
    let now = match action {
        ClientActionView::Send(text) => seq![text],
        _ => Seq::empty(),
    };
    if events.len() == 0 || action is End {
        now
    } else {
        let (rest, next) = client_step(left, events[0]);
        now + sent(rest, next, events.drop_first())
    }
}

/// What a client is sent in all.
pub open spec fn sent_to_client(
    opening: Seq<Seq<char>>,
    events: Seq<ClientEvent>,
) -> Seq<Seq<char>> {
    let (left, first) = next_of_opening(opening);
    sent(left, first, events)
}

/// As many messages went out as there are.
pub open spec fn all_sent(count: nat) -> Seq<ClientEvent> {
    Seq::new(count, |i: int| ClientEvent::SendDone(true))
}

/// The changes that came in, in order.
pub open spec fn changes(events: Seq<ClientEvent>) -> Seq<Seq<char>>
    decreases events.len(),
{
    if events.len() == 0 {
        Seq::empty()
    } else {
        let rest = changes(events.drop_first());
        match events[0] {
            ClientEvent::Received(text) => seq![text@] + rest,
            _ => rest,
        }
    }
}

/// Nothing among the events ends the loop.
pub open spec fn none_ends(events: Seq<ClientEvent>) -> bool {
    forall|i: int|
        0 <= i < events.len() ==> (#[trigger] events[i]) != ClientEvent::SendDone(false)
            && events[i] != ClientEvent::SourceClosed && events[i] != ClientEvent::PeerGone
}

proof fn lemma_sent_live(action: ClientActionView, events: Seq<ClientEvent>)
    requires
        none_ends(events),
        action !is End,
    ensures
        sent(Seq::empty(), action, events) == (match action {
            ClientActionView::Send(text) => seq![text],
            _ => Seq::empty(),
        }) + changes(events),
    decreases events.len(),
{
    let left = Seq::<Seq<char>>::empty();
    let now = match action {
        ClientActionView::Send(text) => seq![text],
        _ => Seq::empty(),
    };
    if events.len() == 0 {
        assert(now + changes(events) =~= now);
    } else {
        assert(events[0] != ClientEvent::SendDone(false));
        let (rest, next) = client_step(left, events[0]);
        assert(rest =~= left);
        assert(none_ends(events.drop_first())) by {
            assert forall|i: int| 0 <= i < events.drop_first().len() implies (
            #[trigger] events.drop_first()[i]) != ClientEvent::SendDone(false)
                && events.drop_first()[i] != ClientEvent::SourceClosed && events.drop_first()[i]
                != ClientEvent::PeerGone by {
                assert(events.drop_first()[i] == events[i + 1]);
            }
        }
        lemma_sent_live(next, events.drop_first());
        assert(sent(left, action, events) =~= now + changes(events));
    }
}

proof fn lemma_sent_opening(
    left: Seq<Seq<char>>,
    first: Seq<char>,
    events: Seq<ClientEvent>,
)
    requires
        none_ends(events),
    ensures
        sent(left, ClientActionView::Send(first), all_sent(left.len() + 1) + events) == seq![first]
            + left + changes(events),
    decreases left.len(),
{
    let all = all_sent(left.len() + 1) + events;
    assert(all[0] == ClientEvent::SendDone(true));
    assert(all.drop_first() =~= all_sent(left.len()) + events);
    let (rest, next) = client_step(left, all[0]);
    if left.len() == 0 {
        assert(left =~= Seq::empty());
        assert(all.drop_first() =~= events);
        lemma_sent_live(next, events);
        assert(seq![first] + left + changes(events) =~= seq![first] + (Seq::empty() + changes(
            events,
        )));
    } else {
        lemma_sent_opening(rest, left[0], events);
        assert(seq![first] + left + changes(events) =~= seq![first] + (seq![left[0]] + rest
            + changes(events)));
    }
}

/// A client whose opening messages go out, and that stays, is sent all of them
/// in order and then every change that came in, in order. Changes lost on the
/// way and messages of the client have no effect on that.
pub proof fn law_opening_then_changes(opening: Seq<Seq<char>>, events: Seq<ClientEvent>)
    requires
        none_ends(events),
    ensures
        sent_to_client(opening, all_sent(opening.len()) + events) == opening + changes(events),
{
    if opening.len() == 0 {
        assert(all_sent(0) + events =~= events);
        assert(opening =~= Seq::empty());
        lemma_sent_live(ClientActionView::Wait, events);
        assert(opening + changes(events) =~= Seq::empty() + changes(events));
    } else {
        lemma_sent_opening(opening.drop_first(), opening[0], events);
        assert(seq![opening[0]] + opening.drop_first() =~= opening);
    }
}

/// A client is told the fade time first, then everything that is known, then
/// every change.
pub proof fn law_client_is_told_everything(
    fade_secs: nat,
    known: Seq<crate::wsproto::DeltaView>,
    events: Seq<ClientEvent>,
)
    requires
        none_ends(events),
    ensures
        sent_to_client(
            crate::server::opening_texts(fade_secs, known),
            all_sent(known.len() + 1) + events,
        ) == seq![crate::wsproto::config_text(fade_secs)] + known.map_values(
            |d: crate::wsproto::DeltaView| crate::wsproto::json_of(d),
        ) + changes(events),
{
    law_opening_then_changes(crate::server::opening_texts(fade_secs, known), events);
}

/// A request for another fade time reaches everyone: it is kept and published,
/// and every client that the published message reaches is sent the new time.
pub proof fn law_set_fade_reaches_every_client(
    asking: Seq<Seq<char>>,
    secs: u64,
    clients: Seq<Seq<Seq<char>>>,
    message: String,
)
    requires
        client_step(asking, ClientEvent::SetFade(secs)).1 == ClientActionView::Publish(
            secs,
            message@,
        ),
    ensures
        message@ == crate::wsproto::config_text(secs as nat),
        forall|i: int|
            0 <= i < clients.len() ==> client_step(
                #[trigger] clients[i],
                ClientEvent::Received(message),
            ) == (
                clients[i],
                ClientActionView::Send(crate::wsproto::config_text(secs as nat)),
            ),
{
}

/// A client is sent nothing more after a message that did not go out, after
/// the end of the changes, or after it went away.
pub proof fn law_end_is_final(
    left: Seq<Seq<char>>,
    event: ClientEvent,
    more: Seq<ClientEvent>,
)
    requires
        event == ClientEvent::SendDone(false) || event == ClientEvent::SourceClosed || event
            == ClientEvent::PeerGone,
    ensures
        client_step(left, event).1 is End,
        sent(left, ClientActionView::Wait, seq![event] + more) == Seq::<Seq<char>>::empty(),
{
    let events = seq![event] + more;
    assert(events[0] == event);
    reveal_with_fuel(sent, 2);
    assert(sent(left, ClientActionView::Wait, events) =~= Seq::empty());
}

/// What each event leads to. A change is sent on as it is; a request for
/// another fade time is kept and published; a failed message, the end of the
/// changes and the end of the client end the loop; everything else waits. Only
/// a message that went out takes the next of the opening messages.
pub proof fn law_events_and_actions(
    left: Seq<Seq<char>>,
    text: String,
    lost: u64,
    secs: u64,
    event: ClientEvent,
)
    ensures
        client_step(left, ClientEvent::Received(text)).1 == ClientActionView::Send(text@),
        client_step(left, ClientEvent::Lagged(lost)).1 == ClientActionView::Wait,
        client_step(left, ClientEvent::PeerMessage).1 == ClientActionView::Wait,
        client_step(left, ClientEvent::Published).1 == ClientActionView::Wait,
        client_step(left, ClientEvent::SetFade(secs)).1 == ClientActionView::Publish(
            secs,
            crate::json::object_text(
                seq![
                    ("type"@, crate::json::MemberView::Text("config"@)),
                    ("fade_secs"@, crate::json::MemberView::Number(Some(secs as nat))),
                ],
            ),
        ),
        client_step(left, ClientEvent::SourceClosed).1 == ClientActionView::End,
        client_step(left, ClientEvent::PeerGone).1 == ClientActionView::End,
        client_step(left, ClientEvent::SendDone(false)).1 == ClientActionView::End,
        event != ClientEvent::SendDone(true) ==> client_step(left, event).0 == left,
{
    crate::wsproto::law_config_members(secs as nat);
}

/// The opening messages go out one by one, the first one first; after the last
/// one the loop waits.
pub proof fn law_opening_in_order(first: Seq<char>, rest: Seq<Seq<char>>)
    ensures
        next_of_opening(seq![first] + rest) == (rest, ClientActionView::Send(first)),
        client_step(seq![first] + rest, ClientEvent::SendDone(true)) == (
            rest,
            ClientActionView::Send(first),
        ),
        next_of_opening(Seq::empty()) == (Seq::<Seq<char>>::empty(), ClientActionView::Wait),
        client_step(Seq::empty(), ClientEvent::SendDone(true)) == (
            Seq::<Seq<char>>::empty(),
            ClientActionView::Wait,
        ),
{
    assert((seq![first] + rest).drop_first() =~= rest);
}

/// An action is seen as it is.
pub proof fn law_actions_are_seen(text: String, secs: u64)
    ensures
        ClientAction::Send(text)@ == ClientActionView::Send(text@),
        ClientAction::Publish(secs, text)@ == ClientActionView::Publish(secs, text@),
        ClientAction::Wait@ == ClientActionView::Wait,
        ClientAction::End@ == ClientActionView::End,
{
}

} // verus!
