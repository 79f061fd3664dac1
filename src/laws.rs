use vstd::prelude::*;
use vstd::utf8::{decode_utf8, valid_utf8};

use crate::store::{fold_all, fold_step, Aggregate};

verus! {

/// Index of the last message that sets `k` (its topic is `k` and its payload
/// is text), or -1 when there is none.
pub open spec fn last_write_index(msgs: Seq<(Seq<char>, Seq<u8>)>, k: Seq<char>) -> int
    decreases msgs.len(),
{
    if msgs.len() == 0 {
        -1
    } else if msgs.last().0 == k && valid_utf8(msgs.last().1) {
        msgs.len() - 1
    } else {
        last_write_index(msgs.drop_last(), k)
    }
}

/// Folding only text messages into a counter that starts at `n` leaves it at
/// `n` plus the number of messages.
pub proof fn lemma_counter_counts_messages(n: nat, msgs: Seq<(Seq<char>, Seq<u8>)>)
    requires
        forall|i: int| 0 <= i < msgs.len() ==> valid_utf8(#[trigger] msgs[i].1),
    ensures
        fold_all(Aggregate::Count(n), msgs) == Aggregate::Count(n + msgs.len()),
    decreases msgs.len(),
{
    if msgs.len() > 0 {
        let init = msgs.drop_last();
        assert forall|i: int| 0 <= i < init.len() implies valid_utf8(#[trigger] init[i].1) by {
            assert(init[i] == msgs[i]);
        }
        lemma_counter_counts_messages(n, init);
        assert(valid_utf8(msgs[msgs.len() - 1].1));
    }
}

/// Folding messages into an empty map, each key ends up bound to the decoded
/// payload of the last text message with that key, and keys that no text
/// message carried stay unbound.
pub proof fn lemma_last_write_wins(msgs: Seq<(Seq<char>, Seq<u8>)>, k: Seq<char>)
    ensures
        fold_all(Aggregate::Entries(Map::empty()), msgs) is Entries,
        ({
            let m = fold_all(Aggregate::Entries(Map::empty()), msgs)->Entries_0;
            let j = last_write_index(msgs, k);
            &&& -1 <= j < msgs.len()
            &&& m.dom().contains(k) <==> j >= 0
            &&& j >= 0 ==> m[k] == decode_utf8(msgs[j].1)
        }),
    decreases msgs.len(),
{
    if msgs.len() > 0 {
        let init = msgs.drop_last();
        lemma_last_write_wins(init, k);
        let j = last_write_index(init, k);
        if j >= 0 {
            assert(init[j] == msgs[j]);
        }
    }
}

/// Delivering the same message twice in a row to a key-value aggregate gives
/// the same state as delivering it once.
pub proof fn lemma_redelivery_idempotent(
    m: Map<Seq<char>, Seq<char>>,
    msg: (Seq<char>, Seq<u8>),
)
    ensures
        fold_all(Aggregate::Entries(m), seq![msg, msg]) == fold_all(
            Aggregate::Entries(m),
            seq![msg],
        ),
{
    let two = seq![msg, msg];
    let one = seq![msg];
    assert(two.drop_last() =~= one);
    assert(one.drop_last() =~= Seq::<(Seq<char>, Seq<u8>)>::empty());
    let empty = Seq::<(Seq<char>, Seq<u8>)>::empty();
    assert(fold_all(Aggregate::Entries(m), empty) == Aggregate::Entries(m));
    assert(one.last() == msg);
    assert(two.last() == msg);
    let once = fold_step(Aggregate::Entries(m), msg);
    if valid_utf8(msg.1) {
        let m1 = m.insert(msg.0, decode_utf8(msg.1));
        assert(m1.insert(msg.0, decode_utf8(msg.1)) =~= m1);
    }
    assert(fold_all(Aggregate::Entries(m), one) == once);
}

} // verus!
