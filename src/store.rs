use vstd::prelude::*;
use vstd::utf8::{decode_utf8, valid_utf8};

use crate::text::decode_text;

verus! {

/// The shape of the aggregate, fixed when a store is built.
#[derive(Clone, Copy, Debug, PartialEq, Eq, Structural)]
pub enum Variant {
    /// Counts the messages folded in. A message that the broker delivers
    /// again is counted again, so redelivery can over-count.
    Counter,
    /// Keeps, for each topic, the payload of the latest message; a message
    /// delivered again sets the same value again.
    KeyValue,
}

/// Why a message was not folded into the aggregate.
#[derive(Clone, Copy, Debug, PartialEq, Eq, Structural)]
pub enum ApplyError {
    /// The payload is not well-formed UTF-8 text.
    Decode,
    /// The counter already holds the largest value it can represent.
    CounterSaturated,
}

/// A message as the broker delivers it: a topic and an opaque payload.
#[derive(Debug)]
pub struct Message {
    pub topic: String,
    pub payload: Vec<u8>,
}

impl View for Message {
    type V = (Seq<char>, Seq<u8>);

    open spec fn view(&self) -> (Seq<char>, Seq<u8>) {
        (self.topic@, self.payload@)
    }
}

/// The topic and payload of each message, in order.
pub open spec fn messages_view(msgs: Seq<Message>) -> Seq<(Seq<char>, Seq<u8>)> {
    msgs.map_values(|m: Message| m@)
}

/// The mathematical value of an aggregate.
pub enum Aggregate {
    Count(nat),
    Entries(Map<Seq<char>, Seq<char>>),
}

/// The aggregate after one message: a payload that is not text changes
/// nothing; otherwise the counter goes up by one, or the key is set to the
/// decoded payload.
pub open spec fn fold_step(a: Aggregate, msg: (Seq<char>, Seq<u8>)) -> Aggregate {
    if !valid_utf8(msg.1) {
        a
    } else {
        match a {
            Aggregate::Count(n) => Aggregate::Count(n + 1),
            Aggregate::Entries(m) => Aggregate::Entries(m.insert(msg.0, decode_utf8(msg.1))),
        }
    }
}

/// The aggregate after a sequence of messages, folded in delivery order.
pub open spec fn fold_all(a: Aggregate, msgs: Seq<(Seq<char>, Seq<u8>)>) -> Aggregate
    decreases msgs.len(),
{
    if msgs.len() == 0 {
        a
    } else {
        fold_step(fold_all(a, msgs.drop_last()), msgs.last())
    }
}

/// Some entry has key `k`.
pub open spec fn has_key(s: Seq<(String, String)>, k: Seq<char>) -> bool {
    exists|i: int| 0 <= i < s.len() && s[i].0@ == k
}

/// No two entries share a key.
pub open spec fn keys_unique(s: Seq<(String, String)>) -> bool {
    forall|i: int, j: int|
        0 <= i < s.len() && 0 <= j < s.len() && s[i].0@ == s[j].0@ ==> i == j
}

/// The map that a list of entries with distinct keys stands for.
pub open spec fn entries_map(s: Seq<(String, String)>) -> Map<Seq<char>, Seq<char>> {
    Map::new(
        |k: Seq<char>| has_key(s, k),
        |k: Seq<char>| s[choose|i: int| 0 <= i < s.len() && s[i].0@ == k].1@,
    )
}

/// A point-in-time copy of an aggregate.
#[derive(Debug)]
pub enum StateView {
    Counter(u64),
    KeyValue(Vec<(String, String)>),
}

impl StateView {
    /// A key-value view holds each key once.
    pub open spec fn wf(&self) -> bool {
        match self {
            StateView::Counter(_) => true,
            StateView::KeyValue(v) => keys_unique(v@),
        }
    }

    pub open spec fn variant(&self) -> Variant {
        match self {
            StateView::Counter(_) => Variant::Counter,
            StateView::KeyValue(_) => Variant::KeyValue,
        }
    }
}

impl View for StateView {
    type V = Aggregate;

    open spec fn view(&self) -> Aggregate {
        match self {
            StateView::Counter(n) => Aggregate::Count(*n as nat),
            StateView::KeyValue(v) => Aggregate::Entries(entries_map(v@)),
        }
    }
}

/// The aggregate state that messages are folded into.
pub struct StateStore {
    state: StateView,
}

fn copy_entries(v: &Vec<(String, String)>) -> (r: Vec<(String, String)>)
    ensures
        r@ == v@,
{
    let mut r: Vec<(String, String)> = Vec::new();
    let mut i: usize = 0;
    while i < v.len()
        invariant
            i <= v.len(),
            r@ == v@.subrange(0, i as int),
        decreases v.len() - i,
    {
        let k = v[i].0.clone();
        let x = v[i].1.clone();
        r.push((k, x));
        assert(r@ =~= v@.subrange(0, i + 1));
        i = i + 1;
    }
    assert(r@ =~= v@);
    r
}

/// Where `key` stands among the entries, if it does.
fn find_key(v: &Vec<(String, String)>, key: &String) -> (r: Option<usize>)
    ensures
        r is Some ==> r->0 < v@.len() && v@[r->0 as int].0@ == key@,
        r is None ==> !has_key(v@, key@),
{
    let mut i: usize = 0;
    while i < v.len()
        invariant
            i <= v.len(),
            forall|j: int| 0 <= j < i ==> v@[j].0@ != key@,
        decreases v.len() - i,
    {
        if v[i].0 == *key {
            return Some(i);
        }
        i = i + 1;
    }
    None
}

proof fn lemma_entries_replace(s: Seq<(String, String)>, i: int, k: String, x: String)
    requires
        keys_unique(s),
        0 <= i < s.len(),
        s[i].0@ == k@,
    ensures
        keys_unique(s.update(i, (k, x))),
        entries_map(s.update(i, (k, x))) == entries_map(s).insert(k@, x@),
{
    let t = s.update(i, (k, x));
    assert forall|a: int, b: int|
        0 <= a < t.len() && 0 <= b < t.len() && t[a].0@ == t[b].0@ implies a == b by {
        assert(t[a].0@ == s[a].0@);
        assert(t[b].0@ == s[b].0@);
    }
    assert forall|q: Seq<char>| #[trigger] has_key(t, q) == entries_map(s).insert(k@, x@).dom().contains(q) by {
        if q == k@ {
            assert(t[i].0@ == q);
        } else if has_key(t, q) {
            let j = choose|j: int| 0 <= j < t.len() && t[j].0@ == q;
            assert(s[j].0@ == q);
        } else if has_key(s, q) {
            let j = choose|j: int| 0 <= j < s.len() && s[j].0@ == q;
            assert(t[j].0@ == q);
        }
    }
    assert forall|q: Seq<char>| has_key(t, q) implies #[trigger] entries_map(t)[q]
        == entries_map(s).insert(k@, x@)[q] by {
        let j = choose|j: int| 0 <= j < t.len() && t[j].0@ == q;
        if q == k@ {
            assert(t[i].0@ == q);
            assert(j == i);
        } else {
            assert(s[j].0@ == q);
            let j2 = choose|j2: int| 0 <= j2 < s.len() && s[j2].0@ == q;
            assert(j2 == j);
        }
    }
    assert(entries_map(t) =~= entries_map(s).insert(k@, x@));
}

proof fn lemma_entries_push(s: Seq<(String, String)>, k: String, x: String)
    requires
        keys_unique(s),
        !has_key(s, k@),
    ensures
        keys_unique(s.push((k, x))),
        entries_map(s.push((k, x))) == entries_map(s).insert(k@, x@),
{
    let t = s.push((k, x));
    let n = s.len() as int;
    assert forall|a: int, b: int|
        0 <= a < t.len() && 0 <= b < t.len() && t[a].0@ == t[b].0@ implies a == b by {
        if a < n && b == n {
            assert(s[a].0@ == k@);
        } else if b < n && a == n {
            assert(s[b].0@ == k@);
        }
    }
    assert forall|q: Seq<char>| #[trigger] has_key(t, q) == entries_map(s).insert(k@, x@).dom().contains(q) by {
        if q == k@ {
            assert(t[n].0@ == q);
        } else if has_key(t, q) {
            let j = choose|j: int| 0 <= j < t.len() && t[j].0@ == q;
            assert(s[j].0@ == q);
        } else if has_key(s, q) {
            let j = choose|j: int| 0 <= j < s.len() && s[j].0@ == q;
            assert(t[j].0@ == q);
        }
    }
    assert forall|q: Seq<char>| has_key(t, q) implies #[trigger] entries_map(t)[q]
        == entries_map(s).insert(k@, x@)[q] by {
        let j = choose|j: int| 0 <= j < t.len() && t[j].0@ == q;
        if q == k@ {
            assert(t[n].0@ == q);
            assert(j == n);
        } else {
            assert(s[j].0@ == q);
            let j2 = choose|j2: int| 0 <= j2 < s.len() && s[j2].0@ == q;
            assert(j2 == j);
        }
    }
    assert(entries_map(t) =~= entries_map(s).insert(k@, x@));
}

impl View for StateStore {
    type V = Aggregate;

    closed spec fn view(&self) -> Aggregate {
        self.state@
    }
}

impl StateStore {
    /// The entries of a key-value store hold each key once.
    pub closed spec fn wf(&self) -> bool {
        self.state.wf()
    }

    pub closed spec fn variant(&self) -> Variant {
        self.state.variant()
    }

    /// The shape of a store is the shape of its aggregate.
    pub proof fn lemma_variant_shape(&self)
        ensures
            self.variant() == Variant::Counter <==> self@ is Count,
            self.variant() == Variant::KeyValue <==> self@ is Entries,
    {
    }

    /// An empty store of the given shape: a counter at zero, or an empty map.
    pub fn new(variant: Variant) -> (r: StateStore)
        ensures
            r.wf(),
            r.variant() == variant,
            variant == Variant::Counter ==> r@ == Aggregate::Count(0),
            variant == Variant::KeyValue ==> r@ == Aggregate::Entries(Map::empty()),
    {
        match variant {
            Variant::Counter => StateStore { state: StateView::Counter(0) },
            Variant::KeyValue => {
                let r = StateStore { state: StateView::KeyValue(Vec::new()) };
                assert(entries_map(Seq::<(String, String)>::empty()) =~= Map::empty());
                r
            },
        }
    }

    /// The shape this store was built with.
    pub fn kind(&self) -> (r: Variant)
        ensures
            r == self.variant(),
    {
        match &self.state {
            StateView::Counter(_) => Variant::Counter,
            StateView::KeyValue(_) => Variant::KeyValue,
        }
    }

    /// Folds one already-decoded message into the aggregate.
    pub fn apply_text(&mut self, topic: String, text: String) -> (r: Result<(), ApplyError>)
        requires
            old(self).wf(),
        ensures
            final(self).wf(),
            final(self).variant() == old(self).variant(),
            r is Err <==> old(self)@ == Aggregate::Count(u64::MAX as nat),
            r is Err ==> r == Err::<(), ApplyError>(ApplyError::CounterSaturated),
            r is Err ==> final(self)@ == old(self)@,
            r is Ok ==> final(self)@ == (match old(self)@ {
                Aggregate::Count(n) => Aggregate::Count(n + 1),
                Aggregate::Entries(m) => Aggregate::Entries(m.insert(topic@, text@)),
            }),
    {
        match &mut self.state {
            StateView::Counter(n) => {
                if *n == u64::MAX {
                    Err(ApplyError::CounterSaturated)
                } else {
                    *n = *n + 1;
                    Ok(())
                }
            },
            StateView::KeyValue(v) => {
                let ghost s0 = v@;
                match find_key(v, &topic) {
                    Some(i) => {
                        proof {
                            lemma_entries_replace(s0, i as int, topic, text);
                        }
                        v.set(i, (topic, text));
                    },
                    None => {
                        proof {
                            lemma_entries_push(s0, topic, text);
                        }
                        v.push((topic, text));
                    },
                }
                Ok(())
            },
        }
    }

    /// Decodes the payload and folds the message into the aggregate. A payload
    /// that is not UTF-8 text, or a counter that cannot go higher, leaves the
    /// aggregate as it was.
    pub fn apply(&mut self, topic: &str, payload: &[u8]) -> (r: Result<(), ApplyError>)
        requires
            old(self).wf(),
        ensures
            final(self).wf(),
            final(self).variant() == old(self).variant(),
            r is Ok <==> valid_utf8(payload@) && old(self)@ != Aggregate::Count(u64::MAX as nat),
            r == Err::<(), ApplyError>(ApplyError::Decode) <==> !valid_utf8(payload@),
            r == Err::<(), ApplyError>(ApplyError::CounterSaturated) <==> valid_utf8(payload@)
                && old(self)@ == Aggregate::Count(u64::MAX as nat),
            r is Ok ==> final(self)@ == fold_step(old(self)@, (topic@, payload@)),
            r is Err ==> final(self)@ == old(self)@,
    {
        match decode_text(payload) {
            None => Err(ApplyError::Decode),
            Some(text) => self.apply_text(topic.to_owned(), text),
        }
    }

    /// A copy of the current aggregate.
    pub fn snapshot(&self) -> (r: StateView)
        requires
            self.wf(),
        ensures
            r.wf(),
            r.variant() == self.variant(),
            r@ == self@,
    {
        match &self.state {
            StateView::Counter(n) => StateView::Counter(*n),
            StateView::KeyValue(v) => StateView::KeyValue(copy_entries(v)),
        }
    }

    /// Folds a batch of messages in delivery order, and reports for each
    /// whether it was folded.
    pub fn apply_all(&mut self, msgs: &Vec<Message>) -> (r: Vec<Result<(), ApplyError>>)
        requires
            old(self).wf(),
        ensures
            final(self).wf(),
            final(self).variant() == old(self).variant(),
            r@.len() == msgs@.len(),
            forall|i: int|
                0 <= i < msgs@.len() ==> (#[trigger] r@[i] == Err::<(), ApplyError>(
                    ApplyError::Decode) <==> !valid_utf8(msgs@[i].payload@)),
            (match old(self)@ {
                Aggregate::Count(n) => n + msgs@.len() <= u64::MAX,
                Aggregate::Entries(_) => true,
            }) ==> final(self)@ == fold_all(old(self)@, messages_view(msgs@))
                && forall|i: int| 0 <= i < msgs@.len() ==> (#[trigger] r@[i] is Ok <==> valid_utf8(
                    msgs@[i].payload@)),
    {
        let ghost start = self@;
        let ghost fits = match start {
            Aggregate::Count(n) => n + msgs@.len() <= u64::MAX,
            Aggregate::Entries(_) => true,
        };
        let mut r: Vec<Result<(), ApplyError>> = Vec::new();
        let mut i: usize = 0;
        while i < msgs.len()
            invariant
                i <= msgs@.len(),
                self.wf(),
                self.variant() == old(self).variant(),
                start == old(self)@,
                fits == (match start {
                    Aggregate::Count(n) => n + msgs@.len() <= u64::MAX,
                    Aggregate::Entries(_) => true,
                }),
                r@.len() == i,
                forall|j: int|
                    0 <= j < i ==> (#[trigger] r@[j] == Err::<(), ApplyError>(ApplyError::Decode)
                        <==> !valid_utf8(msgs@[j].payload@)),
                fits ==> self@ == fold_all(start, messages_view(msgs@).subrange(0, i as int)),
                fits ==> forall|j: int| 0 <= j < i ==> (#[trigger] r@[j] is Ok <==> valid_utf8(
                    msgs@[j].payload@)),
                fits ==> match (start, self@) {
                    (Aggregate::Count(n), Aggregate::Count(c)) => c <= n + i,
                    (Aggregate::Entries(_), Aggregate::Entries(_)) => true,
                    _ => false,
                },
            decreases msgs@.len() - i,
        {
            let ghost before = self@;
            let res = self.apply(&msgs[i].topic, &msgs[i].payload);
            proof {
                let all = messages_view(msgs@);
                assert(all.subrange(0, i + 1).drop_last() =~= all.subrange(0, i as int));
                assert(all[i as int] == msgs@[i as int]@);
                assert(all.subrange(0, i + 1).last() == msgs@[i as int]@);
                if fits {
                    if let Aggregate::Count(c) = before {
                        assert(c < u64::MAX);
                    }
                    if let Err(e) = res {
                        assert(e == ApplyError::Decode || e == ApplyError::CounterSaturated);
                    }
                    assert(res is Ok <==> valid_utf8(msgs@[i as int].payload@));
                }
            }
            r.push(res);
            i = i + 1;
        }
        proof {
            assert(messages_view(msgs@).subrange(0, msgs@.len() as int) =~= messages_view(msgs@));
        }
        r
    }
}

} // verus!
