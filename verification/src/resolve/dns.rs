//! Which addresses are worth a reverse lookup, and what counts as a name.
//!
//! An address is tried once in a session, whether the lookup succeeds or not,
//! and only a few lookups run at one time.

use std::collections::BTreeSet;

use vstd::prelude::*;

use crate::model::packet::IpAddr;
use crate::model::tables::encode_ip;
use crate::text::same_text;

verus! {

/// Lookups that may run at one time.
pub const CONCURRENT_LOOKUPS: usize = 8;

/// Requests that may wait.
pub const REQUEST_QUEUE: usize = 1024;

/// 224.0.0.0/4.
pub open spec fn v4_multicast(o: Seq<u8>) -> bool {
    224 <= o[0] <= 239
}

/// 169.254.0.0/16.
pub open spec fn v4_link_local(o: Seq<u8>) -> bool {
    o[0] == 169 && o[1] == 254
}

/// fe80::/10.
pub open spec fn v6_link_local(o: Seq<u8>) -> bool {
    o[0] == 0xfe && 0x80 <= o[1] <= 0xbf
}

/// All bytes but the last are zero.
pub open spec fn zero_but_last(o: Seq<u8>) -> bool {
    forall|i: int| 0 <= i < o.len() - 1 ==> o[i] == 0
}

/// Addresses that may have a useful name: for IPv4, neither multicast nor
/// 255.255.255.255, 0.0.0.0, 127.0.0.0/8 or link-local; for IPv6, neither
/// multicast (ff00::/8) nor ::, ::1 or link-local.
pub open spec fn resolvable(ip: IpAddr) -> bool {
    match ip {
        IpAddr::V4(octets) => {
            let o = octets@;
            &&& !v4_multicast(o)
            &&& o != seq![255u8, 255, 255, 255]
            &&& o != seq![0u8, 0, 0, 0]
            &&& o[0] != 127
            &&& !v4_link_local(o)
        },
        IpAddr::V6(octets) => {
            let o = octets@;
            &&& o[0] != 0xff
            &&& !(zero_but_last(o) && o[15] <= 1)
            &&& !v6_link_local(o)
        },
    }
}

/// Whether an address may have a useful name.
pub fn is_resolvable(ip: &IpAddr) -> (r: bool)
    ensures
        r == resolvable(*ip),
{
    match ip {
        IpAddr::V4(o) => {
            proof {
                if o[0] == 255 && o[1] == 255 && o[2] == 255 && o[3] == 255 {
                    assert(o@ =~= seq![255u8, 255, 255, 255]);
                }
                if o[0] == 0 && o[1] == 0 && o[2] == 0 && o[3] == 0 {
                    assert(o@ =~= seq![0u8, 0, 0, 0]);
                }
            }
            let multicast = o[0] >= 224 && o[0] <= 239;
            let broadcast = o[0] == 255 && o[1] == 255 && o[2] == 255 && o[3] == 255;
            let unspecified = o[0] == 0 && o[1] == 0 && o[2] == 0 && o[3] == 0;
            let loopback = o[0] == 127;
            let link_local = o[0] == 169 && o[1] == 254;
            !multicast && !broadcast && !unspecified && !loopback && !link_local
        },
        IpAddr::V6(o) => {
            let mut zeros: usize = 0;
            while zeros < 15 && o[zeros] == 0
                invariant
                    zeros <= 15,
                    forall|i: int| 0 <= i < zeros ==> o@[i] == 0,
                decreases 15 - zeros,
            {
                zeros += 1;
            }
            let multicast = o[0] == 0xff;
            let unspecified_or_loopback = zeros == 15 && o[15] <= 1;
            let link_local = o[0] == 0xfe && o[1] >= 0x80 && o[1] <= 0xbf;
            !multicast && !unspecified_or_loopback && !link_local
        },
    }
}

/// An address is tried where it may have a name and was not tried before.
pub open spec fn worth_a_try(attempted: Set<IpAddr>, ip: IpAddr) -> bool {
    resolvable(ip) && !attempted.contains(ip)
}

/// The addresses that were tried.
pub struct Attempted {
    /// Kind and number of each.
    codes: BTreeSet<(u8, u128)>,
}

impl View for Attempted {
    type V = Set<IpAddr>;

    closed spec fn view(&self) -> Set<IpAddr> {
        Set::new(|ip: IpAddr| self.codes@.contains(crate::model::tables::ip_code(ip)))
    }
}

impl Attempted {
    /// Nothing was tried.
    pub fn new() -> (r: Self)
        ensures
            r@ == Set::<IpAddr>::empty(),
    {
        let r = Attempted { codes: BTreeSet::new() };
        assert(r@ =~= Set::<IpAddr>::empty());
        r
    }

    /// Whether to look the address up now; if so, it counts as tried.
    pub fn try_once(&mut self, ip: &IpAddr) -> (r: bool)
        ensures
            r == worth_a_try(old(self)@, *ip),
            final(self)@ == (if r {
                old(self)@.insert(*ip)
            } else {
                old(self)@
            }),
    {
        if !is_resolvable(ip) {
            return false;
        }
        let ghost before = self.codes@;
        let fresh = self.codes.insert(encode_ip(ip));
        proof {
            assert forall|other: IpAddr| #[trigger] self@.contains(other) == (other == *ip || old(
                self,
            )@.contains(other)) by {
                if crate::model::tables::ip_code(other) == crate::model::tables::ip_code(*ip) {
                    crate::model::tables::lemma_ip_code_injective(other, *ip);
                }
            }
            if fresh {
                assert(self@ =~= old(self)@.insert(*ip));
            } else {
                assert(old(self)@.contains(*ip));
                assert(self@ =~= old(self)@);
            }
        }
        fresh
    }
}

/// The name that a lookup found. The resolver answers with the address itself
/// where it knows no name, so the written address is no name.
pub fn accept_name(ip: &IpAddr, looked_up: Option<String>) -> (r: Option<String>)
    ensures
        match looked_up {
            Some(name) => if name@ == crate::model::address::ip_text(*ip) {
                r is None
            } else {
                r == looked_up
            },
            None => r is None,
        },
{
    match looked_up {
        Some(name) => if same_text(name.as_str(), ip.to_text().as_str()) {
            None
        } else {
            Some(name)
        },
        None => None,
    }
}

/// The addresses that are looked up when `requests` arrive one after the
/// other.
pub open spec fn lookups(requests: Seq<IpAddr>) -> Seq<IpAddr>
    decreases requests.len(),
{
    if requests.len() == 0 {
        Seq::empty()
    } else {
        let before = lookups(requests.drop_last());
        if worth_a_try(before.to_set(), requests.last()) {
            before.push(requests.last())
        } else {
            before
        }
    }
}

/// No address is looked up twice, and those that are looked up are exactly
/// the requested ones that may have a name.
pub proof fn law_each_address_once(requests: Seq<IpAddr>)
    ensures
        lookups(requests).no_duplicates(),
        forall|ip: IpAddr| #[trigger]
            lookups(requests).contains(ip) == (resolvable(ip) && requests.contains(ip)),
    decreases requests.len(),
{
    if requests.len() > 0 {
        let head = requests.drop_last();
        let last = requests.last();
        let before = lookups(head);
        law_each_address_once(head);
        assert(before.to_set().contains(last) == before.contains(last));
        assert forall|ip: IpAddr| #[trigger] lookups(requests).contains(ip) == (resolvable(ip)
            && requests.contains(ip)) by {
            assert(requests =~= head.push(last));
            if requests.contains(ip) && ip != last {
                let i = choose|i: int| 0 <= i < requests.len() && requests[i] == ip;
                assert(head[i] == ip);
            }
            if head.contains(ip) {
                let i = choose|i: int| 0 <= i < head.len() && head[i] == ip;
                assert(requests[i] == ip);
            }
            if worth_a_try(before.to_set(), last) {
                let now = before.push(last);
                assert(now[before.len() as int] == last);
                if before.contains(ip) {
                    let i = choose|i: int| 0 <= i < before.len() && before[i] == ip;
                    assert(now[i] == ip);
                }
                if now.contains(ip) && ip != last {
                    let i = choose|i: int| 0 <= i < now.len() && now[i] == ip;
                    assert(before[i] == ip);
                }
            }
            assert(requests[requests.len() - 1] == last);
        }
    }
}

/// Whether one more lookup may start beside those that run.
pub fn may_start(running: usize) -> (r: bool)
    ensures
        r == (running < CONCURRENT_LOOKUPS),
{
    running < CONCURRENT_LOOKUPS
}

/// What the resolver knows.
#[verifier::ext_equal]
pub struct ResolverView {
    pub attempted: Set<IpAddr>,
    /// An address that is worth a lookup and waits for another one to end.
    pub waiting: Option<IpAddr>,
    /// Lookups that run.
    pub running: nat,
}

/// A resolver at its start.
pub open spec fn idle() -> ResolverView {
    ResolverView { attempted: Set::empty(), waiting: None, running: 0 }
}

/// After a request for a name: what the resolver knows, and the lookup to
/// start.
pub open spec fn requested(v: ResolverView, ip: IpAddr) -> (ResolverView, Option<IpAddr>) {
    if !worth_a_try(v.attempted, ip) {
        (v, None)
    } else if v.running < CONCURRENT_LOOKUPS {
        (
            ResolverView {
                attempted: v.attempted.insert(ip),
                running: v.running + 1,
                ..v
            },
            Some(ip),
        )
    } else {
        (ResolverView { attempted: v.attempted.insert(ip), waiting: Some(ip), ..v }, None)
    }
}

/// After the end of a lookup: what the resolver knows, and the lookup to
/// start.
pub open spec fn ended(v: ResolverView) -> (ResolverView, Option<IpAddr>) {
    if v.waiting is Some {
        (ResolverView { waiting: None, ..v }, v.waiting)
    } else {
        (ResolverView { running: (v.running - 1) as nat, ..v }, None)
    }
}

/// The resolver: takes requests while none waits, and starts a lookup while
/// few enough run.
pub struct Resolver {
    attempted: Attempted,
    waiting: Option<IpAddr>,
    running: usize,
}

impl View for Resolver {
    type V = ResolverView;

    closed spec fn view(&self) -> ResolverView {
        ResolverView {
            attempted: self.attempted@,
            waiting: self.waiting,
            running: self.running as nat,
        }
    }
}

impl Resolver {
    /// No more lookups run than may.
    #[verifier::type_invariant]
    spec fn within_limit(self) -> bool {
        self.running <= CONCURRENT_LOOKUPS
    }

    /// A resolver at its start.
    pub fn new() -> (r: Self)
        ensures
            r@ == idle(),
    {
        Resolver { attempted: Attempted::new(), waiting: None, running: 0 }
    }

    /// Whether an address waits for a lookup to end.
    pub fn is_waiting(&self) -> (r: bool)
        ensures
            r == (self@.waiting is Some),
    {
        self.waiting.is_some()
    }

    /// The number of lookups that run.
    pub fn running(&self) -> (r: usize)
        ensures
            r == self@.running,
            r <= CONCURRENT_LOOKUPS,
    {
        proof {
            use_type_invariant(self);
        }
        self.running
    }

    /// Takes a request; the lookup to start, if any.
    pub fn request(&mut self, ip: &IpAddr) -> (r: Option<IpAddr>)
        requires
            old(self)@.waiting is None,
        ensures
            (final(self)@, r) == requested(old(self)@, *ip),
            final(self)@.running <= CONCURRENT_LOOKUPS,
    {
        proof {
            use_type_invariant(&*self);
        }
        let mut attempted = Attempted::new();
        std::mem::swap(&mut attempted, &mut self.attempted);
        let fresh = attempted.try_once(ip);
        self.attempted = attempted;
        if !fresh {
            None
        } else if may_start(self.running) {
            self.running = self.running + 1;
            Some(*ip)
        } else {
            self.waiting = Some(*ip);
            None
        }
    }

    /// Takes the end of a lookup; the lookup to start, if any.
    pub fn finished(&mut self) -> (r: Option<IpAddr>)
        requires
            old(self)@.running > 0,
        ensures
            (final(self)@, r) == ended(old(self)@),
            final(self)@.running <= CONCURRENT_LOOKUPS,
    {
        proof {
            use_type_invariant(&*self);
        }
        match self.waiting {
            Some(ip) => {
                self.waiting = None;
                Some(ip)
            },
            None => {
                self.running = self.running - 1;
                None
            },
        }
    }
}

/// Something that happens to the resolver.
pub enum ResolverEvent {
    Requested(IpAddr),
    Ended,
}

/// What the resolver knows after `events`, and the lookups that it started.
pub open spec fn resolved(events: Seq<ResolverEvent>) -> (ResolverView, Seq<IpAddr>)
    decreases events.len(),
{
    if events.len() == 0 {
        (idle(), Seq::empty())
    } else {
        let (v, started) = resolved(events.drop_last());
        let (w, start) = match events.last() {
            ResolverEvent::Requested(ip) => requested(v, ip),
            ResolverEvent::Ended => ended(v),
        };
        (
            w,
            match start {
                Some(ip) => started.push(ip),
                None => started,
            },
        )
    }
}

/// Requests come while none waits, and only lookups that run end.
pub open spec fn can_happen(events: Seq<ResolverEvent>) -> bool
    decreases events.len(),
{
    events.len() == 0 || (can_happen(events.drop_last()) && match events.last() {
        ResolverEvent::Requested(_) => resolved(events.drop_last()).0.waiting is None,
        ResolverEvent::Ended => resolved(events.drop_last()).0.running > 0,
    })
}

/// The addresses that were asked for, in order.
pub open spec fn requests_in(events: Seq<ResolverEvent>) -> Seq<IpAddr>
    decreases events.len(),
{
    if events.len() == 0 {
        Seq::empty()
    } else {
        let before = requests_in(events.drop_last());
        match events.last() {
            ResolverEvent::Requested(ip) => before.push(ip),
            ResolverEvent::Ended => before,
        }
    }
}

/// The lookups that ended.
pub open spec fn ended_in(events: Seq<ResolverEvent>) -> nat
    decreases events.len(),
{
    if events.len() == 0 {
        0
    } else {
        ended_in(events.drop_last()) + if events.last() is Ended {
            1nat
        } else {
            0
        }
    }
}

/// At no time do more than eight lookups run: those that were started and did
/// not end. The lookups that were started, and the one that waits, are those
/// of `lookups`, in order: each requested address that may have a name, once.
pub proof fn law_few_lookups_each_once(events: Seq<ResolverEvent>)
    requires
        can_happen(events),
    ensures
        ({
            let (v, started) = resolved(events);
            &&& v.running <= 8
            &&& started.len() == ended_in(events) + v.running
            &&& lookups(requests_in(events)) == (match v.waiting {
                Some(ip) => started.push(ip),
                None => started,
            })
            &&& v.attempted == lookups(requests_in(events)).to_set()
            &&& v.waiting is Some ==> v.running == 8
        }),
    decreases events.len(),
{
    if events.len() == 0 {
        assert(idle().attempted =~= lookups(requests_in(events)).to_set());
    } else {
        let head = events.drop_last();
        law_few_lookups_each_once(head);
        let (v, started) = resolved(head);
        let (w, now) = resolved(events);
        let before = lookups(requests_in(head));
        match events.last() {
            ResolverEvent::Requested(ip) => {
                assert(requests_in(events).drop_last() =~= requests_in(head));
                assert(requests_in(events).last() == ip);
                if worth_a_try(v.attempted, ip) {
                    assert(lookups(requests_in(events)) == before.push(ip));
                    assert forall|x: IpAddr| #[trigger] before.push(ip).to_set().contains(x) == (
                    before.to_set().contains(x) || x == ip) by {
                        assert(before.push(ip)[before.len() as int] == ip);
                        if before.contains(x) {
                            let i = choose|i: int| 0 <= i < before.len() && before[i] == x;
                            assert(before.push(ip)[i] == x);
                        }
                    }
                    assert(w.attempted =~= before.push(ip).to_set());
                }
            },
            ResolverEvent::Ended => {},
        }
    }
}

/// An IPv4 address is looked up unless its number lies in 224.0.0.0/4,
/// 127.0.0.0/8 or 169.254.0.0/16, or is the first or the last of all.
pub proof fn law_v4_ranges(octets: [u8; 4])
    ensures
        ({
            let n = octets@[0] * 0x100_0000 + octets@[1] * 0x1_0000 + octets@[2] * 0x100
                + octets@[3];
            resolvable(IpAddr::V4(octets)) <==> !(n == 0 || n == 0xffff_ffff || 0x7f00_0000 <= n
                <= 0x7fff_ffff || 0xa9fe_0000 <= n <= 0xa9fe_ffff || 0xe000_0000 <= n
                <= 0xefff_ffff)
        }),
{
    let o = octets@;
    if o[0] == 0 && o[1] == 0 && o[2] == 0 && o[3] == 0 {
        assert(o =~= seq![0u8, 0, 0, 0]);
    }
    if o[0] == 255 && o[1] == 255 && o[2] == 255 && o[3] == 255 {
        assert(o =~= seq![255u8, 255, 255, 255]);
    }
}

/// An IPv6 address is looked up unless it is one of the first two of all, or
/// its first sixteen bits lie in fe80::/10 or ff00::/8.
pub proof fn law_v6_ranges(octets: [u8; 16])
    ensures
        ({
            let top = octets@[0] * 0x100 + octets@[1];
            resolvable(IpAddr::V6(octets)) <==> !(crate::bytes::be_value(octets@) <= 1 || 0xfe80
                <= top <= 0xfebf || 0xff00 <= top <= 0xffff)
        }),
{
    let o = octets@;
    lemma_small_value(o);
    if crate::bytes::be_value(o) <= 1 {
        assert(o[15] <= 1);
    }
}

proof fn lemma_small_value(o: Seq<u8>)
    requires
        o.len() > 0,
    ensures
        crate::bytes::be_value(o) <= 1 <==> zero_but_last(o) && o.last() <= 1,
    decreases o.len(),
{
    let head = o.drop_last();
    assert(crate::bytes::be_value(o) == crate::bytes::be_value(head) * 256 + o.last());
    if head.len() > 0 {
        lemma_zero_value(head);
        if zero_but_last(o) {
            assert forall|i: int| 0 <= i < head.len() implies head[i] == 0 by {
                assert(o[i] == 0);
            }
        }
        if crate::bytes::be_value(head) == 0 {
            assert forall|i: int| 0 <= i < o.len() - 1 implies o[i] == 0 by {
                assert(head[i] == 0);
            }
        }
    }
}

proof fn lemma_zero_value(o: Seq<u8>)
    ensures
        crate::bytes::be_value(o) == 0 <==> forall|i: int| 0 <= i < o.len() ==> o[i] == 0,
    decreases o.len(),
{
    if o.len() > 0 {
        let head = o.drop_last();
        lemma_zero_value(head);
        if crate::bytes::be_value(o) == 0 {
            assert forall|i: int| 0 <= i < o.len() implies o[i] == 0 by {
                if i < head.len() {
                    assert(head[i] == 0);
                }
            }
        }
        if forall|i: int| 0 <= i < o.len() ==> o[i] == 0 {
            assert forall|i: int| 0 <= i < head.len() implies head[i] == 0 by {
                assert(o[i] == 0);
            }
            assert(o[o.len() - 1] == 0);
        }
    }
}

/// A request starts a lookup at once where the address may have a name, was
/// not asked for before, and fewer than eight lookups run; where eight run it
/// waits. Every other request changes nothing.
pub proof fn law_requests(v: ResolverView, ip: IpAddr)
    ensures
        ({
            let (after, start) = requested(v, ip);
            let fresh = resolvable(ip) && !v.attempted.contains(ip);
            &&& !fresh ==> after == v && start is None
            &&& fresh && v.running < 8 ==> start == Some(ip) && after.running == v.running + 1
                && after.waiting == v.waiting
            &&& fresh && v.running >= 8 ==> start is None && after.waiting == Some(ip)
                && after.running == v.running
            &&& fresh ==> after.attempted == v.attempted.insert(ip)
        }),
{
}

/// The end of a lookup starts the one that waits, or leaves one less to run.
pub proof fn law_ends(v: ResolverView)
    requires
        v.running > 0,
    ensures
        ({
            let (after, start) = ended(v);
            &&& start == v.waiting
            &&& after.waiting is None
            &&& after.attempted == v.attempted
            &&& after.running == v.running - (if v.waiting is Some {
                0int
            } else {
                1
            })
        }),
{
}

/// At the start nothing was asked for, nothing waits and nothing runs.
pub proof fn law_starts_idle(ip: IpAddr)
    ensures
        !idle().attempted.contains(ip),
        idle().waiting is None,
        idle().running == 0,
{
}

/// Eight lookups may run and 1024 requests may wait.
pub proof fn law_resolver_settings()
    ensures
        CONCURRENT_LOOKUPS == 8,
        REQUEST_QUEUE == 1024,
{
}

} // verus!
