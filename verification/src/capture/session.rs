//! The capture loop as decisions: each event gives the counters and the next
//! action.

use vstd::prelude::*;

verus! {

/// Why a capture cannot start or go on.
#[derive(PartialEq, Eq, Debug)]
pub enum CaptureError {
    /// The capture library reports an error.
    Pcap(String),
    /// There is no interface at all.
    NoDevice,
    /// No interface answers to that text.
    IfaceNotFound(String),
}

/// The message of an error.
pub open spec fn error_text(e: CaptureError) -> Seq<char> {
    match e {
        CaptureError::Pcap(text) => "pcap: "@ + text@,
        CaptureError::NoDevice => "no capture interface available"@,
        CaptureError::IfaceNotFound(wanted) => "interface '"@ + wanted@
            + "' not found (use --iface with an index or a name substring)"@,
    }
}

impl CaptureError {
    /// The message of the error.
    pub fn to_text(&self) -> (r: String)
        ensures
            r@ == error_text(*self),
    {
        match self {
            CaptureError::Pcap(text) => {
                let mut out = "pcap: ".to_string();
                out.append(text.as_str());
                out
            },
            CaptureError::NoDevice => "no capture interface available".to_string(),
            CaptureError::IfaceNotFound(wanted) => {
                let mut out = "interface '".to_string();
                out.append(wanted.as_str());
                out.append("' not found (use --iface with an index or a name substring)");
                out
            },
        }
    }
}

/// Length of frame that is kept.
pub const SNAPLEN: i32 = 65535;

/// Size of the kernel buffer, in bytes.
pub const BUFFER_SIZE: i32 = 16777216;

/// Time after which a read gives up, so that a shutdown is seen.
pub const READ_TIMEOUT_MS: i32 = 500;

/// Time between two looks at the kernel counters under load.
pub const KERNEL_STATS_PERIOD_MS: u64 = 1000;

/// Counters of a capture.
#[derive(Clone, Copy, PartialEq, Eq, Debug)]
pub struct CaptureStats {
    pub frames: u64,
    /// Bytes on the wire.
    pub bytes: u64,
    /// Frames that the kernel lost, since the start.
    pub kernel_drops: u64,
    /// Frames that could not be decoded.
    pub parse_errors: u64,
    /// Frames thrown away because their consumer was behind.
    pub chan_drops: u64,
}

/// Why a read gave no frame.
#[derive(Clone, Copy, PartialEq, Eq, Debug)]
pub enum Failure {
    /// Nothing came in time.
    TimeoutExpired,
    /// A file is at its end.
    NoMorePackets,
    Other,
}

/// What the capture loop sees.
#[derive(PartialEq, Eq, Debug)]
pub enum Event {
    /// A shutdown was asked for.
    Shutdown,
    /// A frame of that length on the wire.
    Packet(u32),
    /// A read without a frame, with the words of the capture library.
    Failed(Failure, String),
}

/// What the capture loop does next.
#[derive(PartialEq, Eq, Debug)]
pub enum Action {
    /// Hand the frame on and read again.
    Deliver,
    /// Look at the kernel counters and read again.
    RefreshDrops,
    /// End well.
    Stop,
    /// End with an error.
    Fail(CaptureError),
}

/// What to do after an event: of a live capture where `live` holds, else of
/// the replay of a file.
pub open spec fn action_of(live: bool, event: Event) -> Action {
    match event {
        Event::Shutdown => Action::Stop,
        Event::Packet(_) => Action::Deliver,
        Event::Failed(failure, text) => if live && failure == Failure::TimeoutExpired {
            Action::RefreshDrops
        } else if !live && failure == Failure::NoMorePackets {
            Action::Stop
        } else {
            Action::Fail(CaptureError::Pcap(text))
        },
    }
}

/// The sum of two counts, modulo two to the power 64.
pub open spec fn wrapped_sum(a: nat, b: nat) -> u64 {
    ((a + b) % 0x1_0000_0000_0000_0000) as u64
}

/// The counters after an event: a frame adds one frame and its bytes.
pub open spec fn stats_after(stats: CaptureStats, event: Event) -> CaptureStats {
    match event {
        Event::Packet(wire_len) => CaptureStats {
            frames: wrapped_sum(stats.frames as nat, 1),
            bytes: wrapped_sum(stats.bytes as nat, wire_len as nat),
            ..stats
        },
        _ => stats,
    }
}

impl Default for CaptureStats {
    /// Nothing was counted.
    fn default() -> (r: Self)
        ensures
            r == (CaptureStats {
                frames: 0,
                bytes: 0,
                kernel_drops: 0,
                parse_errors: 0,
                chan_drops: 0,
            }),
    {
        CaptureStats { frames: 0, bytes: 0, kernel_drops: 0, parse_errors: 0, chan_drops: 0 }
    }
}

impl CaptureStats {
    fn count(&mut self, wire_len: u32)
        ensures
            *final(self) == stats_after(*old(self), Event::Packet(wire_len)),
    {
        self.frames = self.frames.wrapping_add(1);
        self.bytes = self.bytes.wrapping_add(wire_len as u64);
    }

    /// Counts an event of a live capture and says what to do next.
    pub fn live_step(&mut self, event: Event) -> (r: Action)
        ensures
            *final(self) == stats_after(*old(self), event),
            r == action_of(true, event),
    {
        match event {
            Event::Shutdown => Action::Stop,
            Event::Packet(wire_len) => {
                self.count(wire_len);
                Action::Deliver
            },
            Event::Failed(Failure::TimeoutExpired, _) => Action::RefreshDrops,
            Event::Failed(_, text) => Action::Fail(CaptureError::Pcap(text)),
        }
    }

    /// Counts an event of the replay of a file and says what to do next.
    pub fn file_step(&mut self, event: Event) -> (r: Action)
        ensures
            *final(self) == stats_after(*old(self), event),
            r == action_of(false, event),
    {
        match event {
            Event::Shutdown => Action::Stop,
            Event::Packet(wire_len) => {
                self.count(wire_len);
                Action::Deliver
            },
            Event::Failed(Failure::NoMorePackets, _) => Action::Stop,
            Event::Failed(_, text) => Action::Fail(CaptureError::Pcap(text)),
        }
    }

    /// Keeps what the kernel says that it lost, where it says anything.
    pub fn record_drops(&mut self, dropped: Option<u32>)
        ensures
            *final(self) == (match dropped {
                Some(n) => CaptureStats { kernel_drops: n as u64, ..*old(self) },
                None => *old(self),
            }),
    {
        if let Some(n) = dropped {
            self.kernel_drops = n as u64;
        }
    }
}

/// Whether to look at the kernel counters again after a frame.
pub fn kernel_stats_due(elapsed_ms: u64) -> (r: bool)
    ensures
        r == (elapsed_ms >= 1000),
{
    elapsed_ms >= KERNEL_STATS_PERIOD_MS
}

/// The loop ends on that event.
pub open spec fn ends(live: bool, event: Event) -> bool {
    action_of(live, event) is Stop || action_of(live, event) is Fail
}

/// The counters after the events up to the one on which the loop ends.
pub open spec fn stats_of_run(live: bool, stats: CaptureStats, events: Seq<Event>) -> CaptureStats
    decreases events.len(),
{
    if events.len() == 0 {
        stats
    } else if ends(live, events[0]) {
        stats_after(stats, events[0])
    } else {
        stats_of_run(live, stats_after(stats, events[0]), events.drop_first())
    }
}

/// The lengths of the frames that are handed on before the loop ends.
pub open spec fn delivered(live: bool, events: Seq<Event>) -> Seq<u32>
    decreases events.len(),
{
    if events.len() == 0 || ends(live, events[0]) {
        Seq::empty()
    } else {
        let rest = delivered(live, events.drop_first());
        match events[0] {
            Event::Packet(wire_len) => seq![wire_len] + rest,
            _ => rest,
        }
    }
}

/// The sum of some lengths.
pub open spec fn sum(lens: Seq<u32>) -> nat
    decreases lens.len(),
{
    if lens.len() == 0 {
        0
    } else {
        lens[0] as nat + sum(lens.drop_first())
    }
}

/// The counters hold the number and the bytes of the frames that were handed
/// on, modulo two to the power 64; nothing else is counted on the way.
pub proof fn law_run_counts_delivered(live: bool, stats: CaptureStats, events: Seq<Event>)
    ensures
        stats_of_run(live, stats, events).frames == wrapped_sum(
            stats.frames as nat,
            delivered(live, events).len(),
        ),
        stats_of_run(live, stats, events).bytes == wrapped_sum(
            stats.bytes as nat,
            sum(delivered(live, events)),
        ),
        stats_of_run(live, stats, events).kernel_drops == stats.kernel_drops,
        stats_of_run(live, stats, events).parse_errors == stats.parse_errors,
        stats_of_run(live, stats, events).chan_drops == stats.chan_drops,
    decreases events.len(),
{
    if events.len() > 0 && !ends(live, events[0]) {
        let next = stats_after(stats, events[0]);
        let rest = delivered(live, events.drop_first());
        law_run_counts_delivered(live, next, events.drop_first());
        if let Event::Packet(wire_len) = events[0] {
            let all = delivered(live, events);
            assert(all.drop_first() =~= rest);
            lemma_wrapped_sum(stats.frames as nat, 1, rest.len());
            lemma_wrapped_sum(stats.bytes as nat, wire_len as nat, sum(rest));
        }
    }
}

proof fn lemma_wrapped_sum(a: nat, b: nat, c: nat)
    ensures
        wrapped_sum(wrapped_sum(a, b) as nat, c) == wrapped_sum(a, b + c),
{
    let m: int = 0x1_0000_0000_0000_0000;
    vstd::arithmetic::div_mod::lemma_add_mod_noop((a + b) as int, c as int, m);
    vstd::arithmetic::div_mod::lemma_mod_bound((a + b) as int, m);
    vstd::arithmetic::div_mod::lemma_add_mod_noop((a + b) as int % m, c as int, m);
    vstd::arithmetic::div_mod::lemma_mod_twice((a + b) as int, m);
}

/// A live capture outlasts every quiet period, and the end of a file is the
/// good end of its replay; every other failed read ends the loop with the
/// words of the capture library.
pub proof fn law_failed_reads(failure: Failure, text: String)
    ensures
        ends(true, Event::Failed(failure, text)) == (failure != Failure::TimeoutExpired),
        ends(false, Event::Failed(failure, text)),
        action_of(false, Event::Failed(failure, text)) is Stop == (failure
            == Failure::NoMorePackets),
        forall|live: bool| #[trigger]
            action_of(live, Event::Failed(failure, text)) is Fail ==> action_of(
                live,
                Event::Failed(failure, text),
            ) == Action::Fail(CaptureError::Pcap(text)),
{
}

/// One frame of `n` bytes raises the frames by one and the bytes by `n`, and
/// nothing else. Past two to the power 64 a counter starts again at zero.
pub proof fn law_one_frame_counts(stats: CaptureStats, n: u32)
    ensures
        ({
            let after = stats_after(stats, Event::Packet(n));
            &&& stats.frames + 1 < 0x1_0000_0000_0000_0000 ==> after.frames == stats.frames + 1
            &&& stats.frames + 1 == 0x1_0000_0000_0000_0000 ==> after.frames == 0
            &&& stats.bytes + n < 0x1_0000_0000_0000_0000 ==> after.bytes == stats.bytes + n
            &&& stats.bytes + n >= 0x1_0000_0000_0000_0000 ==> after.bytes == stats.bytes + n
                - 0x1_0000_0000_0000_0000
            &&& after.kernel_drops == stats.kernel_drops
            &&& after.parse_errors == stats.parse_errors
            &&& after.chan_drops == stats.chan_drops
        }),
{
}

/// Without a frame nothing is counted.
pub proof fn law_only_frames_count(stats: CaptureStats, event: Event)
    requires
        event !is Packet,
    ensures
        stats_after(stats, event) == stats,
{
}

/// A run from zero ends with the number of the frames that were handed on, and
/// with the plain sum of their lengths, as long as these fit in 64 bits.
pub proof fn law_run_from_zero(live: bool, stats: CaptureStats, events: Seq<Event>)
    requires
        stats.frames == 0,
        stats.bytes == 0,
        delivered(live, events).len() < 0x1_0000_0000_0000_0000,
        sum(delivered(live, events)) < 0x1_0000_0000_0000_0000,
    ensures
        stats_of_run(live, stats, events).frames == delivered(live, events).len(),
        stats_of_run(live, stats, events).bytes == sum(delivered(live, events)),
{
    law_run_counts_delivered(live, stats, events);
}

/// What each event leads to. A frame is handed on and a shutdown ends well,
/// live or not. A quiet period is used to look at the kernel counters; in a
/// file it is an error like any other. The end of a file is a good end; a live
/// capture has none.
pub proof fn law_events_and_actions(live: bool, wire_len: u32, text: String)
    ensures
        action_of(live, Event::Shutdown) == Action::Stop,
        action_of(live, Event::Packet(wire_len)) == Action::Deliver,
        action_of(true, Event::Failed(Failure::TimeoutExpired, text)) == Action::RefreshDrops,
        action_of(false, Event::Failed(Failure::TimeoutExpired, text)) == Action::Fail(
            CaptureError::Pcap(text),
        ),
        action_of(false, Event::Failed(Failure::NoMorePackets, text)) == Action::Stop,
        action_of(true, Event::Failed(Failure::NoMorePackets, text)) == Action::Fail(
            CaptureError::Pcap(text),
        ),
        action_of(live, Event::Failed(Failure::Other, text)) == Action::Fail(
            CaptureError::Pcap(text),
        ),
{
}

/// The words of each error: what the capture library says is kept whole, and a
/// missing interface is named.
pub proof fn law_error_words(text: String)
    ensures
        error_text(CaptureError::Pcap(text)) == "pcap: "@ + text@,
        error_text(CaptureError::NoDevice) == "no capture interface available"@,
        error_text(CaptureError::IfaceNotFound(text)) == "interface '"@ + text@
            + "' not found (use --iface with an index or a name substring)"@,
{
}

/// How interfaces are opened: whole frames, a kernel buffer of sixteen
/// mebibytes, and a look at the shutdown twice a second.
pub proof fn law_capture_settings()
    ensures
        SNAPLEN + 1 == 64 * 1024,
        BUFFER_SIZE == 16 * 1024 * 1024,
        READ_TIMEOUT_MS * 2 == 1000,
        KERNEL_STATS_PERIOD_MS == 1000,
{
}

} // verus!
