//! What each connected browser is sent: first everything that is known, then
//! every change.

use vstd::prelude::*;

use crate::wsproto::{config_json, Delta};

pub mod client;
pub mod graph;
pub mod snapshot;

verus! {

/// A message ready to be sent to every client.
pub fn encode_delta(delta: &Delta) -> (r: Option<String>)
    ensures
        r is Some,
        r->0@ == crate::wsproto::json_of(delta@),
{
    Some(delta.to_json())
}

/// Messages ready to be sent, in order.
pub fn encode_all(deltas: &Vec<Delta>) -> (r: Vec<String>)
    ensures
        crate::text::text_views(r@) == deltas@.map_values(
            |d: Delta| crate::wsproto::json_of(d@),
        ),
{
    let ghost all = deltas@.map_values(|d: Delta| crate::wsproto::json_of(d@));
    let mut r: Vec<String> = Vec::new();
    let mut i: usize = 0;
    while i < deltas.len()
        invariant
            i <= deltas@.len(),
            all == deltas@.map_values(|d: Delta| crate::wsproto::json_of(d@)),
            crate::text::text_views(r@) == all.take(i as int),
        decreases deltas@.len() - i,
    {
        let ghost before = r@;
        if let Some(text) = encode_delta(&deltas[i]) {
            r.push(text);
        }
        proof {
            assert(crate::text::text_views(r@) =~= crate::text::text_views(
                before,
            ).push(all[i as int]));
            assert(crate::text::text_views(r@) =~= all.take(i + 1));
        }
        i += 1;
    }
    assert(all.take(i as int) =~= all);
    r
}

/// What a client is sent at its start: the fade time, then everything that is
/// known.
pub open spec fn opening_texts(
    fade_secs: nat,
    known: Seq<crate::wsproto::DeltaView>,
) -> Seq<Seq<char>> {
    seq![crate::wsproto::config_text(fade_secs)] + known.map_values(
        |d: crate::wsproto::DeltaView| crate::wsproto::json_of(d),
    )
}

/// The messages that a client is sent at its start.
pub fn opening_messages(fade_secs: u64, known: &Vec<Delta>) -> (r: Vec<String>)
    ensures
        crate::text::text_views(r@) == opening_texts(
            fade_secs as nat,
            known@.map_values(|d: Delta| d@),
        ),
{
    let mut r: Vec<String> = Vec::new();
    r.push(config_json(fade_secs));
    let mut encoded = encode_all(known);
    let ghost first = r@;
    let ghost rest = encoded@;
    r.append(&mut encoded);
    proof {
        let views = known@.map_values(|d: Delta| d@);
        assert(crate::text::text_views(r@) =~= crate::text::text_views(first)
            + crate::text::text_views(rest));
        assert(crate::text::text_views(first) =~= seq![
            crate::wsproto::config_text(fade_secs as nat),
        ]);
        assert(crate::text::text_views(rest) =~= views.map_values(
            |d: crate::wsproto::DeltaView| crate::wsproto::json_of(d),
        ));
    }
    r
}

/// A client is sent one message more than there are changes to tell: the fade
/// time comes first, and each change behind it, in order.
pub proof fn law_opening_messages(
    fade_secs: nat,
    known: Seq<crate::wsproto::DeltaView>,
    i: int,
)
    ensures
        opening_texts(fade_secs, known).len() == known.len() + 1,
        opening_texts(fade_secs, known)[0] == crate::wsproto::config_text(fade_secs),
        0 <= i < known.len() ==> opening_texts(fade_secs, known)[i + 1]
            == crate::wsproto::json_of(known[i]),
{
}

} // verus!
