//! Conversations by key.

use std::time::Instant;

use vstd::prelude::*;

use crate::model::coded_map::{CodedKey, CodedMap};
use crate::model::packet::{Proto, ProtoView};
use crate::model::tables::{ConvStats, ConvView};

verus! {

/// Conversations by key, at most one for each key.
pub struct ConvTable<K: CodedKey> {
    convs: CodedMap<K, ConvStats>,
}

impl<K: CodedKey> View for ConvTable<K> {
    type V = Map<K, ConvView>;

    closed spec fn view(&self) -> Map<K, ConvView> {
        self.convs@.map_values(|c: ConvStats| c@)
    }
}

/// The first `n` conversations of `m` by bytes, largest first. Which of
/// several equals stand there, and in what order, is left open.
pub open spec fn is_top<K>(m: Map<K, ConvView>, top: Seq<(K, ConvView)>, n: nat) -> bool {
    &&& top.len() == if n <= m.dom().len() {
        n
    } else {
        m.dom().len()
    }
    &&& forall|i: int|
        0 <= i < top.len() ==> m.contains_key((#[trigger] top[i]).0) && m[top[i].0] == top[i].1
    &&& forall|i: int, j: int| 0 <= i < j < top.len() ==> top[i].0 != top[j].0
    &&& forall|i: int, j: int| 0 <= i < j < top.len() ==> top[i].1.bytes >= top[j].1.bytes
    &&& forall|k: K, i: int|
        #![trigger m.contains_key(k), top[i]]
        m.contains_key(k) && 0 <= i < top.len() ==> m[k].bytes <= top[i].1.bytes || exists|j: int|
            0 <= j < top.len() && (#[trigger] top[j]).0 == k
}

/// References to keys and counters, as keys and views.
pub open spec fn entry_views<K>(s: Seq<(&K, &ConvStats)>) -> Seq<(K, ConvView)> {
    s.map_values(|e: (&K, &ConvStats)| (*e.0, e.1@))
}

impl<K: CodedKey> ConvTable<K> {
    /// The counters of each conversation are in order.
    #[verifier::type_invariant]
    spec fn in_order(self) -> bool {
        forall|k: K| #[trigger] self.convs@.contains_key(k) ==> self.convs@[k].wf()
    }

    /// A table without conversations.
    pub fn new() -> (r: Self)
        ensures
            r@ == Map::<K, ConvView>::empty(),
    {
        let r = ConvTable { convs: CodedMap::new() };
        assert(r@ =~= Map::<K, ConvView>::empty());
        r
    }

    /// The number of conversations.
    pub fn len(&self) -> (r: usize)
        ensures
            r == self@.dom().len(),
            self@.dom().finite(),
    {
        assert(self@.dom() =~= self.convs@.dom());
        self.convs.len()
    }

    /// Whether there is no conversation.
    pub fn is_empty(&self) -> (r: bool)
        ensures
            r == (self@ == Map::<K, ConvView>::empty()),
    {
        let r = self.len() == 0;
        proof {
            if r {
                assert(self@.dom() =~= Set::empty());
                assert(self@ =~= Map::<K, ConvView>::empty());
            } else {
                assert(Map::<K, ConvView>::empty().dom().len() == 0);
            }
        }
        r
    }

    /// The counters of one conversation.
    pub fn get(&self, key: &K) -> (r: Option<&ConvStats>)
        ensures
            match r {
                Some(conv) => self@.contains_key(*key) && conv@ == self@[*key] && conv.wf(),
                None => !self@.contains_key(*key),
            },
    {
        proof {
            use_type_invariant(self);
        }
        self.convs.get(key)
    }

    /// Whether one more frame fits in the counters of its conversation.
    pub fn has_room(&self, key: &K, bytes: u64) -> (r: bool)
        ensures
            r == room_in(self@, *key, bytes),
    {
        match self.get(key) {
            Some(conv) => conv.bytes <= u64::MAX - bytes && conv.packets < u64::MAX,
            None => true,
        }
    }

    /// Every conversation.
    pub fn all(&self) -> (r: Vec<(&K, &ConvStats)>)
        ensures
            crate::model::coded_map::lists(self@, entry_views(r@)),
            forall|i: int| 0 <= i < r@.len() ==> (#[trigger] r@[i]).1.wf(),
    {
        proof {
            use_type_invariant(self);
        }
        let r = self.convs.all();
        proof {
            let plain = crate::model::coded_map::unref(r@);
            let views = entry_views(r@);
            assert(self@.dom() =~= self.convs@.dom());
            assert forall|i: int| 0 <= i < r@.len() implies (#[trigger] views[i]) == (
                plain[i].0,
                plain[i].1@,
            ) && self.convs@.contains_key(plain[i].0) && self.convs@[plain[i].0] == *r@[i].1 by {}
            assert forall|i: int| 0 <= i < r@.len() implies (#[trigger] r@[i]).1.wf() by {
                assert(views[i] == (plain[i].0, plain[i].1@));
            }
            assert forall|i: int, j: int| 0 <= i < j < views.len() implies views[i].0
                != views[j].0 by {
                assert(plain[i].0 != plain[j].0);
            }
            assert forall|k: K| #[trigger] self@.contains_key(k) implies exists|i: int|
                0 <= i < views.len() && (#[trigger] views[i]).0 == k by {
                assert(self.convs@.contains_key(k));
                let i = choose|i: int| 0 <= i < plain.len() && (#[trigger] plain[i]).0 == k;
                assert(views[i].0 == k);
            }
        }
        r
    }

    /// The first `n` conversations by bytes, largest first.
    pub fn top(&self, n: usize) -> (r: Vec<(&K, &ConvStats)>)
        ensures
            is_top(self@, entry_views(r@), n as nat),
            forall|i: int| 0 <= i < r@.len() ==> (#[trigger] r@[i]).1.wf(),
    {
        let listed = self.all();
        let ghost seen = entry_views(listed@);
        let mut best: Vec<(&K, &ConvStats)> = Vec::new();
        let mut next: usize = 0;
        proof {
            reveal(is_top_of);
        }
        while next < listed.len()
            invariant
                next <= listed@.len(),
                seen == entry_views(listed@),
                crate::model::coded_map::lists(self@, seen),
                is_top_of(seen.take(next as int), entry_views(best@), n as nat),
                forall|i: int| 0 <= i < best@.len() ==> (#[trigger] best@[i]).1.wf(),
                forall|i: int| 0 <= i < listed@.len() ==> (#[trigger] listed@[i]).1.wf(),
            decreases listed@.len() - next,
        {
            let entry = listed[next];
            let ghost old_best = entry_views(best@);
            let mut at: usize = best.len();
            while at > 0 && best[at - 1].1.bytes < entry.1.bytes
                invariant
                    at <= best@.len(),
                    old_best == entry_views(best@),
                    forall|i: int|
                        at <= i < best@.len() ==> (#[trigger] old_best[i]).1.bytes
                            < entry.1@.bytes,
                decreases at,
            {
                assert(old_best[at - 1].1.bytes == best@[at - 1].1.bytes);
                at -= 1;
            }
            proof {
                assert(seen[next as int] == (*entry.0, entry.1@));
                assert forall|k: int| 0 <= k < seen.take(next as int).len() implies (
                #[trigger] seen.take(next as int)[k]).0 != seen[next as int].0 by {
                    assert(seen[k].0 != seen[next as int].0);
                }
                lemma_top_sorted(seen.take(next as int), old_best, n as nat);
                if at > 0 {
                    assert(old_best[at - 1].1.bytes == best@[at - 1].1.bytes);
                }
                lemma_top_insert(
                    seen.take(next as int),
                    old_best,
                    n as nat,
                    seen[next as int],
                    at as int,
                );
                assert(seen.take(next as int).push(seen[next as int]) =~= seen.take(next + 1));
            }
            best.insert(at, entry);
            assert(entry_views(best@) =~= old_best.insert(at as int, seen[next as int]));
            if best.len() > n {
                best.pop();
                assert(entry_views(best@) =~= old_best.insert(
                    at as int,
                    seen[next as int],
                ).drop_last());
            }
            next += 1;
        }
        proof {
            assert(seen.take(next as int) =~= seen);
            lemma_top_of_all(self@, seen, entry_views(best@), n as nat);
        }
        best
    }

    /// Counts one frame in the conversation of `key`, new or not.
    pub fn record(&mut self, key: K, bytes: u64, proto: Proto, now: Instant)
        requires
            room_in(old(self)@, key, bytes),
        ensures
            final(self)@ == recorded(old(self)@, key, bytes as nat, proto@, now),
    {
        proof {
            use_type_invariant(&*self);
        }
        let mut convs: CodedMap<K, ConvStats> = CodedMap::new();
        std::mem::swap(&mut convs, &mut self.convs);
        let mut conv = match convs.take(&key) {
            Some(conv) => conv,
            None => ConvStats::new(now),
        };
        conv.add(bytes, proto, now);
        convs.put(key, conv);
        self.convs = convs;
        assert(self@ =~= recorded(old(self)@, key, bytes as nat, proto@, now));
    }
}

/// `best` is the first `n` of the conversations in `seen`, by bytes.
#[verifier::opaque]
spec fn is_top_of<K>(seen: Seq<(K, ConvView)>, best: Seq<(K, ConvView)>, n: nat) -> bool {
    &&& best.len() == if n <= seen.len() {
        n
    } else {
        seen.len()
    }
    &&& forall|i: int| 0 <= i < best.len() ==> seen.contains(#[trigger] best[i])
    &&& forall|i: int, j: int| 0 <= i < j < best.len() ==> best[i].0 != best[j].0
    &&& forall|i: int, j: int| 0 <= i < j < best.len() ==> best[i].1.bytes >= best[j].1.bytes
    &&& forall|k: int, i: int|
        #![trigger seen[k], best[i]]
        0 <= k < seen.len() && 0 <= i < best.len() ==> seen[k].1.bytes <= best[i].1.bytes
            || best.contains(seen[k])
}

proof fn lemma_top_insert<K>(
    seen: Seq<(K, ConvView)>,
    best: Seq<(K, ConvView)>,
    n: nat,
    next: (K, ConvView),
    at: int,
)
    requires
        is_top_of(seen, best, n),
        forall|k: int| 0 <= k < seen.len() ==> (#[trigger] seen[k]).0 != next.0,
        0 <= at <= best.len(),
        forall|i: int| 0 <= i < at ==> (#[trigger] best[i]).1.bytes >= next.1.bytes,
        forall|i: int| at <= i < best.len() ==> (#[trigger] best[i]).1.bytes < next.1.bytes,
    ensures
        is_top_of(
            seen.push(next),
            if best.insert(at, next).len() <= n {
                best.insert(at, next)
            } else {
                best.insert(at, next).drop_last()
            },
            n,
        ),
{
    reveal(is_top_of);
    let all = seen.push(next);
    let longer = best.insert(at, next);
    let cut = longer.len() > n;
    let r = if cut {
        longer.drop_last()
    } else {
        longer
    };
    assert forall|i: int| 0 <= i < r.len() implies all.contains(#[trigger] r[i]) by {
        if i < at {
            assert(r[i] == best[i]);
            let k = choose|k: int| 0 <= k < seen.len() && seen[k] == best[i];
            assert(all[k] == r[i]);
        } else if i == at {
            assert(all[seen.len() as int] == r[i]);
        } else {
            assert(r[i] == best[i - 1]);
            let k = choose|k: int| 0 <= k < seen.len() && seen[k] == best[i - 1];
            assert(all[k] == r[i]);
        }
    }
    assert forall|i: int| 0 <= i < best.len() implies (#[trigger] best[i]).0 != next.0 by {
        let k = choose|k: int| 0 <= k < seen.len() && seen[k] == best[i];
    }
    assert forall|i: int, j: int| 0 <= i < j < r.len() implies r[i].0 != r[j].0 && r[i].1.bytes
        >= r[j].1.bytes by {
        let a = if i < at {
            i
        } else {
            i - 1
        };
        let b = if j < at {
            j
        } else {
            j - 1
        };
        if i != at {
            assert(r[i] == best[a]);
        }
        if j != at {
            assert(r[j] == best[b]);
        }
    }
    assert forall|k: int, i: int|
        #![trigger all[k], r[i]]
        0 <= k < all.len() && 0 <= i < r.len() implies all[k].1.bytes <= r[i].1.bytes || r.contains(
        all[k],
    ) by {
        let lowest = longer[longer.len() - 1];
        if k < seen.len() {
            assert(all[k] == seen[k]);
            if best.contains(seen[k]) {
                let b = choose|b: int| 0 <= b < best.len() && best[b] == seen[k];
                let at_b = if b < at {
                    b
                } else {
                    b + 1
                };
                assert(longer[at_b] == seen[k]);
                if at_b < r.len() {
                    assert(r[at_b] == seen[k]);
                } else {
                    assert(seen[k] == lowest);
                    assert(r[i] == longer[i]);
                    lemma_longer_sorted(best, at, next);
                    assert(longer[i].1.bytes >= lowest.1.bytes);
                }
            } else {
                if i < at {
                    assert(r[i] == best[i]);
                } else if i > at {
                    assert(r[i] == best[i - 1]);
                } else {
                    if at < best.len() {
                        assert(seen[k].1.bytes <= best[at].1.bytes);
                    } else if best.len() > 0 {
                        if best.len() == seen.len() {
                            lemma_all_kept(seen, best);
                            assert(best.contains(seen[k]));
                        } else {
                            assert(best.len() == n);
                            assert(cut && i < r.len() == n);
                        }
                    } else {
                        assert(best.len() == n);
                    }
                }
            }
        } else {
            assert(all[k] == next);
            if at < r.len() {
                assert(r[at] == next);
            } else {
                assert(r[i] == best[i]);
            }
        }
    }
}

proof fn lemma_top_sorted<K>(seen: Seq<(K, ConvView)>, best: Seq<(K, ConvView)>, n: nat)
    requires
        is_top_of(seen, best, n),
    ensures
        forall|i: int, j: int| 0 <= i < j < best.len() ==> best[i].1.bytes >= best[j].1.bytes,
{
    reveal(is_top_of);
}

proof fn lemma_longer_sorted<K>(best: Seq<(K, ConvView)>, at: int, next: (K, ConvView))
    requires
        0 <= at <= best.len(),
        forall|i: int, j: int| 0 <= i < j < best.len() ==> best[i].1.bytes >= best[j].1.bytes,
        forall|i: int| 0 <= i < at ==> (#[trigger] best[i]).1.bytes >= next.1.bytes,
        forall|i: int| at <= i < best.len() ==> (#[trigger] best[i]).1.bytes < next.1.bytes,
    ensures
        forall|i: int, j: int|
            0 <= i <= j < best.len() + 1 ==> best.insert(at, next)[i].1.bytes >= best.insert(
                at,
                next,
            )[j].1.bytes,
{
    let longer = best.insert(at, next);
    assert forall|i: int, j: int| 0 <= i <= j < best.len() + 1 implies longer[i].1.bytes
        >= longer[j].1.bytes by {
        if i != at {
            assert(longer[i] == best[if i < at {
                i
            } else {
                i - 1
            }]);
        }
        if j != at {
            assert(longer[j] == best[if j < at {
                j
            } else {
                j - 1
            }]);
        }
    }
}

/// As many distinct elements as there are leave none out.
proof fn lemma_all_kept<K>(seen: Seq<(K, ConvView)>, best: Seq<(K, ConvView)>)
    requires
        best.len() == seen.len(),
        forall|i: int| 0 <= i < best.len() ==> seen.contains(#[trigger] best[i]),
        forall|i: int, j: int| 0 <= i < j < best.len() ==> best[i].0 != best[j].0,
    ensures
        forall|k: int| 0 <= k < seen.len() ==> best.contains(#[trigger] seen[k]),
{
    assert(best.no_duplicates());
    best.unique_seq_to_set();
    seen.lemma_cardinality_of_set();
    assert(best.to_set().subset_of(seen.to_set()));
    vstd::set_lib::lemma_len_subset(best.to_set(), seen.to_set());
    vstd::set_lib::lemma_subset_equality(best.to_set(), seen.to_set());
    assert forall|k: int| 0 <= k < seen.len() implies best.contains(#[trigger] seen[k]) by {
        assert(seen.to_set().contains(seen[k]));
        assert(best.to_set().contains(seen[k]));
    }
}

proof fn lemma_top_of_all<K>(
    m: Map<K, ConvView>,
    seen: Seq<(K, ConvView)>,
    best: Seq<(K, ConvView)>,
    n: nat,
)
    requires
        crate::model::coded_map::lists(m, seen),
        is_top_of(seen, best, n),
    ensures
        is_top(m, best, n),
{
    reveal(is_top_of);
    assert forall|i: int| 0 <= i < best.len() implies m.contains_key((#[trigger] best[i]).0)
        && m[best[i].0] == best[i].1 by {
        let k = choose|k: int| 0 <= k < seen.len() && seen[k] == best[i];
        assert(m.contains_key(seen[k].0));
    }
    assert forall|k: K, i: int|
        #![trigger m.contains_key(k), best[i]]
        m.contains_key(k) && 0 <= i < best.len() implies m[k].bytes <= best[i].1.bytes
        || exists|j: int| 0 <= j < best.len() && (#[trigger] best[j]).0 == k by {
        let a = choose|a: int| 0 <= a < seen.len() && (#[trigger] seen[a]).0 == k;
        assert(m[seen[a].0] == seen[a].1);
        if best.contains(seen[a]) {
            let j = choose|j: int| 0 <= j < best.len() && best[j] == seen[a];
            assert(best[j].0 == k);
        }
    }
}

/// One more frame fits in the counters of its conversation.
pub open spec fn room_in<K>(m: Map<K, ConvView>, key: K, bytes: u64) -> bool {
    m.contains_key(key) ==> m[key].bytes + bytes <= u64::MAX && m[key].packets < u64::MAX
}

/// A table after one more frame in the conversation of `key`.
pub open spec fn recorded<K>(
    m: Map<K, ConvView>,
    key: K,
    bytes: nat,
    proto: ProtoView,
    now: Instant,
) -> Map<K, ConvView> {
    m.insert(
        key,
        crate::model::tables::conv_add(
            if m.contains_key(key) {
                m[key]
            } else {
                crate::model::tables::conv_new(now)
            },
            bytes,
            proto,
            now,
        ),
    )
}

/// One frame as one table counts it.
pub struct Counted<K> {
    pub key: K,
    pub bytes: nat,
    pub proto: ProtoView,
    pub at: Instant,
}

/// The table that counts `frames`, in order, from nothing.
pub open spec fn recorded_all<K>(frames: Seq<Counted<K>>) -> Map<K, ConvView>
    decreases frames.len(),
{
    if frames.len() == 0 {
        Map::empty()
    } else {
        let last = frames.last();
        recorded(recorded_all(frames.drop_last()), last.key, last.bytes, last.proto, last.at)
    }
}

/// The frames of one conversation, in order.
pub open spec fn frames_of<K>(frames: Seq<Counted<K>>, key: K) -> Seq<Counted<K>> {
    frames.filter(|f: Counted<K>| f.key == key)
}

/// The frames of one protocol, in order.
pub open spec fn frames_with<K>(frames: Seq<Counted<K>>, proto: ProtoView) -> Seq<Counted<K>> {
    frames.filter(|f: Counted<K>| f.proto == proto)
}

/// The bytes of some frames together.
pub open spec fn bytes_in<K>(frames: Seq<Counted<K>>) -> nat
    decreases frames.len(),
{
    if frames.len() == 0 {
        0
    } else {
        bytes_in(frames.drop_last()) + frames.last().bytes
    }
}

/// The bytes of all conversations of a table together.
pub open spec fn table_bytes<K>(m: Map<K, ConvView>) -> nat {
    crate::model::tables::total(m.map_values(|c: ConvView| c.bytes))
}

/// The packets of all conversations of a table together.
pub open spec fn table_packets<K>(m: Map<K, ConvView>) -> nat {
    crate::model::tables::total(m.map_values(|c: ConvView| c.packets))
}

/// Counting one frame adds its bytes and one packet to the table as a whole.
pub proof fn law_record_conserves<K>(
    m: Map<K, ConvView>,
    key: K,
    bytes: nat,
    proto: ProtoView,
    now: Instant,
)
    requires
        m.dom().finite(),
    ensures
        recorded(m, key, bytes, proto, now).dom().finite(),
        table_bytes(recorded(m, key, bytes, proto, now)) == table_bytes(m) + bytes,
        table_packets(recorded(m, key, bytes, proto, now)) == table_packets(m) + 1,
{
    let after = recorded(m, key, bytes, proto, now);
    let bytes_before = m.map_values(|c: ConvView| c.bytes);
    let packets_before = m.map_values(|c: ConvView| c.packets);
    assert(bytes_before.dom() =~= m.dom());
    assert(packets_before.dom() =~= m.dom());
    assert(after.map_values(|c: ConvView| c.bytes) =~= bytes_before.insert(
        key,
        after[key].bytes,
    ));
    assert(after.map_values(|c: ConvView| c.packets) =~= packets_before.insert(
        key,
        after[key].packets,
    ));
    crate::model::tables::lemma_total_insert(bytes_before, key, after[key].bytes);
    crate::model::tables::lemma_total_insert(packets_before, key, after[key].packets);
}

/// Counting one frame leaves every other conversation as it was.
pub proof fn law_record_touches_one<K>(
    m: Map<K, ConvView>,
    key: K,
    bytes: nat,
    proto: ProtoView,
    now: Instant,
    other: K,
)
    requires
        other != key,
    ensures
        recorded(m, key, bytes, proto, now).contains_key(other) == m.contains_key(other),
        m.contains_key(other) ==> recorded(m, key, bytes, proto, now)[other] == m[other],
{
}

/// A table holds all the bytes and packets of the frames that it counted.
pub proof fn law_table_conserves<K>(frames: Seq<Counted<K>>)
    ensures
        recorded_all(frames).dom().finite(),
        table_bytes(recorded_all(frames)) == bytes_in(frames),
        table_packets(recorded_all(frames)) == frames.len(),
    decreases frames.len(),
{
    if frames.len() == 0 {
        let none = Map::<K, ConvView>::empty();
        assert(none.map_values(|c: ConvView| c.bytes).dom() =~= Set::empty());
        assert(none.map_values(|c: ConvView| c.packets).dom() =~= Set::empty());
    } else {
        let last = frames.last();
        law_table_conserves(frames.drop_last());
        law_record_conserves(
            recorded_all(frames.drop_last()),
            last.key,
            last.bytes,
            last.proto,
            last.at,
        );
    }
}

/// A conversation stands in the table where a frame of it was counted. It
/// then holds the bytes and the number of its frames, the time of the last
/// one, and for each protocol of them the bytes of those frames.
pub proof fn law_conversation_counts<K>(frames: Seq<Counted<K>>, key: K)
    ensures
        recorded_all(frames).contains_key(key) == (frames_of(frames, key).len() > 0),
        recorded_all(frames).contains_key(key) ==> {
            let conv = recorded_all(frames)[key];
            let own = frames_of(frames, key);
            &&& conv.bytes == bytes_in(own)
            &&& conv.packets == own.len()
            &&& conv.last_seen == own.last().at
            &&& forall|p: ProtoView| #[trigger]
                conv.proto_bytes.contains_key(p) == (frames_with(own, p).len() > 0)
            &&& forall|p: ProtoView| #[trigger]
                conv.proto_bytes.contains_key(p) ==> conv.proto_bytes[p] == bytes_in(
                    frames_with(own, p),
                )
        },
    decreases frames.len(),
{
    reveal_with_fuel(Seq::filter, 2);
    if frames.len() > 0 {
        let last = frames.last();
        let head = frames.drop_last();
        law_conversation_counts(head, key);
        let own = frames_of(frames, key);
        let before = frames_of(head, key);
        if last.key == key {
            assert(own == before.push(last));
            assert(own.drop_last() =~= before);
            lemma_frames_with_push(before, last);
            let x = recorded_all(head);
            let y = recorded_all(frames)[key];
            let start = if x.contains_key(key) {
                x[key].proto_bytes
            } else {
                Map::empty()
            };
            assert(y.proto_bytes == start.insert(
                last.proto,
                last.bytes + if start.contains_key(last.proto) {
                    start[last.proto]
                } else {
                    0
                },
            ));
            if before.len() == 0 {
                assert forall|p: ProtoView| #[trigger] frames_with(before, p).len() == 0 by {}
            }
            assert forall|p: ProtoView| #[trigger] y.proto_bytes.contains_key(p) == (frames_with(
                own,
                p,
            ).len() > 0) by {
                assert(start.contains_key(p) == (frames_with(before, p).len() > 0));
            }
            assert forall|p: ProtoView| #[trigger] y.proto_bytes.contains_key(
                p,
            ) implies y.proto_bytes[p] == bytes_in(frames_with(own, p)) by {
                assert(start.contains_key(p) == (frames_with(before, p).len() > 0));
            }
        } else {
            assert(own == before);
        }
    }
}

proof fn lemma_frames_with_push<K>(frames: Seq<Counted<K>>, last: Counted<K>)
    ensures
        forall|p: ProtoView| #[trigger]
            frames_with(frames.push(last), p) == (if last.proto == p {
                frames_with(frames, p).push(last)
            } else {
                frames_with(frames, p)
            }),
        forall|p: ProtoView|
            bytes_in(#[trigger] frames_with(frames.push(last), p)) == bytes_in(
                frames_with(frames, p),
            ) + (if last.proto == p {
                last.bytes
            } else {
                0
            }),
{
    reveal(Seq::filter);
    assert(frames.push(last).drop_last() =~= frames);
    assert forall|p: ProtoView|
        bytes_in(#[trigger] frames_with(frames.push(last), p)) == bytes_in(frames_with(frames, p))
            + (if last.proto == p {
            last.bytes
        } else {
            0
        }) by {
        if last.proto == p {
            assert(frames_with(frames.push(last), p).drop_last() =~= frames_with(frames, p));
        }
    }
}

/// A conversation holds at most what all frames hold.
pub proof fn lemma_part_within_whole<K>(frames: Seq<Counted<K>>, key: K)
    ensures
        bytes_in(frames_of(frames, key)) <= bytes_in(frames),
        frames_of(frames, key).len() <= frames.len(),
    decreases frames.len(),
{
    reveal_with_fuel(Seq::filter, 2);
    if frames.len() > 0 {
        let head = frames.drop_last();
        lemma_part_within_whole(head, key);
        if frames.last().key == key {
            assert(frames_of(frames, key).drop_last() =~= frames_of(head, key));
        }
    }
}

proof fn lemma_filter_take_out<K>(
    s: Seq<Counted<K>>,
    i: int,
    p: spec_fn(Counted<K>) -> bool,
)
    requires
        0 <= i < s.len(),
    ensures
        bytes_in(s.filter(p)) == bytes_in(s.remove(i).filter(p)) + (if p(s[i]) {
            s[i].bytes
        } else {
            0
        }),
        s.filter(p).len() == s.remove(i).filter(p).len() + (if p(s[i]) {
            1nat
        } else {
            0
        }),
    decreases s.len(),
{
    reveal(Seq::filter);
    let last = s.last();
    let head = s.drop_last();
    if p(last) {
        assert(head.filter(p).push(last).drop_last() =~= head.filter(p));
    }
    if i < s.len() - 1 {
        lemma_filter_take_out(head, i, p);
        assert(s.remove(i).drop_last() =~= head.remove(i));
        assert(s.remove(i).last() == last);
        if p(last) {
            assert(head.remove(i).filter(p).push(last).drop_last() =~= head.remove(i).filter(p));
        }
    } else {
        assert(s.remove(i) =~= head);
    }
}

/// The bytes and the number of the frames with some property do not depend on
/// their order.
pub proof fn lemma_filter_order<K>(
    a: Seq<Counted<K>>,
    b: Seq<Counted<K>>,
    p: spec_fn(Counted<K>) -> bool,
)
    requires
        a.to_multiset() == b.to_multiset(),
    ensures
        bytes_in(a.filter(p)) == bytes_in(b.filter(p)),
        a.filter(p).len() == b.filter(p).len(),
    decreases a.len(),
{
    broadcast use vstd::seq_lib::group_to_multiset_ensures;

    vstd::seq_lib::to_multiset_len(a);
    vstd::seq_lib::to_multiset_len(b);
    if a.len() > 0 {
        let x = a.last();
        assert(a.contains(x)) by {
            assert(a[a.len() - 1] == x);
        }
        assert(a.to_multiset().count(x) > 0);
        assert(b.contains(x));
        let i = choose|i: int| 0 <= i < b.len() && b[i] == x;
        assert(a.remove(a.len() - 1) =~= a.drop_last());
        assert(a.drop_last().to_multiset() == a.to_multiset().remove(x));
        assert(b.remove(i).to_multiset() == b.to_multiset().remove(x));
        lemma_filter_order(a.drop_last(), b.remove(i), p);
        lemma_filter_take_out(a, a.len() - 1, p);
        lemma_filter_take_out(b, i, p);
    } else {
        assert(a =~= b);
    }
}

proof fn lemma_filter_twice<K>(
    s: Seq<Counted<K>>,
    p: spec_fn(Counted<K>) -> bool,
    q: spec_fn(Counted<K>) -> bool,
)
    ensures
        s.filter(p).filter(q) == s.filter(|f: Counted<K>| p(f) && q(f)),
    decreases s.len(),
{
    reveal(Seq::filter);
    if s.len() > 0 {
        let head = s.drop_last();
        lemma_filter_twice(head, p, q);
        if p(s.last()) {
            assert(head.filter(p).push(s.last()).drop_last() =~= head.filter(p));
        }
    }
}

/// The order in which frames are counted shows in the time of the last frame
/// alone: the same frames in another order give the same conversations with
/// the same counters.
pub proof fn law_order_shows_in_time_alone<K>(a: Seq<Counted<K>>, b: Seq<Counted<K>>, key: K)
    requires
        a.to_multiset() == b.to_multiset(),
    ensures
        recorded_all(a).contains_key(key) == recorded_all(b).contains_key(key),
        recorded_all(a).contains_key(key) ==> recorded_all(a)[key] == (ConvView {
            last_seen: recorded_all(a)[key].last_seen,
            ..recorded_all(b)[key]
        }),
{
    let own = |f: Counted<K>| f.key == key;
    law_conversation_counts(a, key);
    law_conversation_counts(b, key);
    lemma_filter_order(a, b, own);
    if recorded_all(a).contains_key(key) {
        let x = recorded_all(a)[key].proto_bytes;
        let y = recorded_all(b)[key].proto_bytes;
        assert forall|p: ProtoView| frames_with(frames_of(a, key), p).len() == frames_with(
            frames_of(b, key),
            p,
        ).len() && bytes_in(#[trigger] frames_with(frames_of(a, key), p)) == bytes_in(
            frames_with(frames_of(b, key), p),
        ) by {
            let with = |f: Counted<K>| f.proto == p;
            lemma_filter_twice(a, own, with);
            lemma_filter_twice(b, own, with);
            lemma_filter_order(a, b, |f: Counted<K>| own(f) && with(f));
        }
        assert forall|p: ProtoView| #[trigger] x.contains_key(p) == y.contains_key(p) by {
            assert(bytes_in(frames_with(frames_of(a, key), p)) == bytes_in(
                frames_with(frames_of(b, key), p),
            ));
        }
        assert forall|p: ProtoView| #[trigger] x.contains_key(p) implies x[p] == y[p] by {
            assert(bytes_in(frames_with(frames_of(a, key), p)) == bytes_in(
                frames_with(frames_of(b, key), p),
            ));
        }
        assert(x =~= y);
    }
}

/// Entries are seen as keys with what was counted, in order.
pub proof fn law_entries_in_order<K>(s: Seq<(&K, &ConvStats)>, i: int)
    ensures
        entry_views(s).len() == s.len(),
        0 <= i < s.len() ==> entry_views(s)[i].0 == *s[i].0 && entry_views(s)[i].1 == s[i].1@,
{
}

/// The first conversations by bytes are as many as were asked for, or all.
/// They stand largest first, each once, as the table holds them; and none that
/// is left out has more bytes than one that is there.
pub proof fn law_top_is_largest_first<K>(
    m: Map<K, ConvView>,
    top: Seq<(K, ConvView)>,
    n: nat,
    i: int,
    j: int,
    left_out: K,
)
    requires
        is_top(m, top, n),
        0 <= i < top.len(),
        0 <= j < top.len(),
    ensures
        n <= m.dom().len() ==> top.len() == n,
        n > m.dom().len() ==> top.len() == m.dom().len(),
        i < j ==> top[i].1.bytes >= top[j].1.bytes,
        i != j ==> top[i].0 != top[j].0,
        m.contains_key(top[i].0) && m[top[i].0] == top[i].1,
        m.contains_key(left_out) && (forall|k: int|
            0 <= k < top.len() ==> (#[trigger] top[k]).0 != left_out) ==> m[left_out].bytes
            <= top[i].1.bytes,
{
}

/// One more frame adds its bytes to the conversation and to its protocol, and
/// one packet; the time is that of the frame. Nothing else changes.
pub proof fn law_record_adds_one_frame<K>(
    m: Map<K, ConvView>,
    key: K,
    bytes: nat,
    proto: ProtoView,
    now: Instant,
    other: ProtoView,
)
    requires
        other != proto,
    ensures
        ({
            let after = recorded(m, key, bytes, proto, now);
            let conv = after[key];
            &&& after.dom() == m.dom().insert(key)
            &&& conv.last_seen == now
            &&& conv.proto_bytes.contains_key(proto)
            &&& m.contains_key(key) ==> {
                &&& conv.bytes == m[key].bytes + bytes
                &&& conv.packets == m[key].packets + 1
                &&& conv.proto_bytes.contains_key(other) == m[key].proto_bytes.contains_key(other)
                &&& m[key].proto_bytes.contains_key(other) ==> conv.proto_bytes[other]
                    == m[key].proto_bytes[other]
                &&& m[key].proto_bytes.contains_key(proto) ==> conv.proto_bytes[proto]
                    == m[key].proto_bytes[proto] + bytes
                &&& !m[key].proto_bytes.contains_key(proto) ==> conv.proto_bytes[proto] == bytes
            }
            &&& !m.contains_key(key) ==> {
                &&& conv.bytes == bytes
                &&& conv.packets == 1
                &&& conv.proto_bytes[proto] == bytes
                &&& !conv.proto_bytes.contains_key(other)
            }
        }),
{
    assert(recorded(m, key, bytes, proto, now).dom() =~= m.dom().insert(key));
}

/// There is room for a frame exactly where the new sums fit in 64 bits; a new
/// conversation always has room.
pub proof fn law_room<K>(m: Map<K, ConvView>, key: K, bytes: u64)
    ensures
        !m.contains_key(key) ==> room_in(m, key, bytes),
        m.contains_key(key) ==> (room_in(m, key, bytes) <==> m[key].bytes + bytes
            < 0x1_0000_0000_0000_0000 && m[key].packets + 1 < 0x1_0000_0000_0000_0000),
{
}

} // verus!
