//! The key-value store.  A `ThreadSafeMap` is the state that the store's
//! single logical owner mutates: connections never touch it directly but send
//! [`Message`] requests, which the owner applies in arrival order.  The
//! surrounding program supplies the channel and the owning thread; this
//! module supplies the state, the operations, and their meaning as a
//! mathematical map from key bytes to value bytes.

use vstd::prelude::*;

use crate::text::{bytes_eq, clone_bytes};

verus! {

/// The store's meaning: entries read left to right, a later entry for the
/// same key overriding an earlier one (the invariant keeps keys unique, so
/// no override ever happens in a well-formed store).
pub open spec fn map_of(s: Seq<(Vec<u8>, Vec<u8>)>) -> Map<Seq<u8>, Seq<u8>>
    decreases s.len(),
{
    if s.len() == 0 {
        Map::empty()
    } else {
        map_of(s.drop_last()).insert(s.last().0@, s.last().1@)
    }
}

/// No two entries share a key.
pub open spec fn distinct_keys(s: Seq<(Vec<u8>, Vec<u8>)>) -> bool {
    forall|i: int, j: int|
        #![trigger s[i], s[j]]
        0 <= i < j < s.len() ==> s[i].0@ != s[j].0@
}

/// A key absent from every entry is absent from the map.
proof fn lemma_map_of_absent(s: Seq<(Vec<u8>, Vec<u8>)>, k: Seq<u8>)
    requires
        forall|i: int| 0 <= i < s.len() ==> (#[trigger] s[i]).0@ != k,
    ensures
        !map_of(s).contains_key(k),
    decreases s.len(),
{
    if s.len() > 0 {
        lemma_map_of_absent(s.drop_last(), k);
    }
}

/// An entry's key maps to that entry's value when keys are unique.
proof fn lemma_map_of_present(s: Seq<(Vec<u8>, Vec<u8>)>, i: int)
    requires
        distinct_keys(s),
        0 <= i < s.len(),
    ensures
        map_of(s).contains_key(s[i].0@),
        map_of(s)[s[i].0@] == s[i].1@,
    decreases s.len(),
{
    if i < s.len() - 1 {
        assert(s.last().0@ != s[i].0@);
        lemma_map_of_present(s.drop_last(), i);
    }
}

/// Removing the entry at `i` removes exactly its key from the map.
proof fn lemma_map_of_remove_at(s: Seq<(Vec<u8>, Vec<u8>)>, i: int)
    requires
        distinct_keys(s),
        0 <= i < s.len(),
    ensures
        map_of(s.remove(i)) == map_of(s).remove(s[i].0@),
    decreases s.len(),
{
    let k = s[i].0@;
    if i == s.len() - 1 {
        assert(s.remove(i) =~= s.drop_last());
        assert forall|j: int| 0 <= j < s.drop_last().len() implies (#[trigger] s.drop_last()[j]).0@
            != k by {
            assert(s.drop_last()[j] == s[j]);
        }
        lemma_map_of_absent(s.drop_last(), k);
        assert(map_of(s).remove(k) =~= map_of(s.drop_last()));
    } else {
        let dl = s.drop_last();
        assert(s.remove(i).drop_last() =~= dl.remove(i));
        assert(s.remove(i).last() == s.last());
        assert(s.remove(i).len() > 0);
        lemma_map_of_remove_at(dl, i);
        assert(dl[i] == s[i]);
        assert(s.last().0@ != k);
        assert(map_of(dl).remove(k).insert(s.last().0@, s.last().1@) =~= map_of(dl).insert(
            s.last().0@,
            s.last().1@,
        ).remove(k));
    }
}

/// The key-value store.  It holds the full mapping at a point in time; it is
/// created empty at startup and mutated only through its operations.  The
/// program around the library gives it a single owning thread and a request
/// channel, which is what makes it safe to share between connections.
pub struct ThreadSafeMap {
    entries: Vec<(Vec<u8>, Vec<u8>)>,
}

impl View for ThreadSafeMap {
    type V = Map<Seq<u8>, Seq<u8>>;

    closed spec fn view(&self) -> Map<Seq<u8>, Seq<u8>> {
        map_of(self.entries@)
    }
}

/// Drops every entry whose key is `key`; afterwards no entry holds it.
fn remove_key(entries: &mut Vec<(Vec<u8>, Vec<u8>)>, key: &Vec<u8>)
    requires
        distinct_keys(old(entries)@),
    ensures
        distinct_keys(final(entries)@),
        map_of(final(entries)@) == map_of(old(entries)@).remove(key@),
        forall|j: int|
            0 <= j < final(entries)@.len() ==> (#[trigger] final(entries)@[j]).0@ != key@,
{
    let mut i: usize = 0;
    while i < entries.len()
        invariant
            0 <= i <= entries@.len(),
            entries@ == old(entries)@,
            distinct_keys(entries@),
            forall|j: int| 0 <= j < i ==> (#[trigger] entries@[j]).0@ != key@,
        decreases entries@.len() - i,
    {
        if bytes_eq(&entries[i].0, key) {
            proof {
                lemma_map_of_remove_at(entries@, i as int);
            }
            let ghost pre = entries@;
            entries.remove(i);
            proof {
                assert forall|a: int, b: int|
                    #![trigger entries@[a], entries@[b]]
                    0 <= a < b < entries@.len() implies entries@[a].0@ != entries@[b].0@ by {
                    assert(entries@[a] == if a < i { pre[a] } else { pre[a + 1] });
                    assert(entries@[b] == if b < i { pre[b] } else { pre[b + 1] });
                }
                assert forall|j: int| 0 <= j < entries@.len() implies (#[trigger] entries@[j]).0@
                    != key@ by {
                    assert(entries@[j] == if j < i { pre[j] } else { pre[j + 1] });
                    if j >= i {
                        assert(pre[j + 1].0@ != pre[i as int].0@);
                    }
                }
            }
            return ;
        }
        i = i + 1;
    }
    proof {
        lemma_map_of_absent(entries@, key@);
        assert(map_of(entries@).remove(key@) =~= map_of(entries@));
    }
}

impl ThreadSafeMap {
    #[verifier::type_invariant]
    closed spec fn wf(&self) -> bool {
        distinct_keys(self.entries@)
    }

    /// Creates the store, empty.
    pub fn new() -> (r: Self)
        ensures
            r@ == Map::<Seq<u8>, Seq<u8>>::empty(),
    {
        ThreadSafeMap { entries: Vec::new() }
    }

    /// Upserts `key -> value`: the new mapping is the old one with `key`
    /// bound to `value`, any prior binding overwritten.  Always succeeds.
    pub fn set(&mut self, key: Vec<u8>, value: Vec<u8>)
        ensures
            final(self)@ == old(self)@.insert(key@, value@),
    {
        proof {
            use_type_invariant(&*self);
        }
        let mut entries: Vec<(Vec<u8>, Vec<u8>)> = Vec::new();
        core::mem::swap(&mut entries, &mut self.entries);
        remove_key(&mut entries, &key);
        let ghost removed = entries@;
        let ghost k = key@;
        entries.push((key, value));
        proof {
            assert(entries@.drop_last() =~= removed);
            assert(map_of(entries@) == map_of(removed).insert(k, value@));
            assert(old(self)@.remove(k).insert(k, value@) =~= old(self)@.insert(k, value@));
            assert forall|a: int, b: int|
                #![trigger entries@[a], entries@[b]]
                0 <= a < b < entries@.len() implies entries@[a].0@ != entries@[b].0@ by {
                if b == entries@.len() - 1 {
                    assert(removed[a].0@ != k);
                } else {
                    assert(entries@[a] == removed[a]);
                    assert(entries@[b] == removed[b]);
                }
            }
        }
        self.entries = entries;
    }

    /// Looks `key` up: returns the bound value when the key is present, the
    /// absent sentinel `None` when it is not.
    pub fn get(&self, key: Vec<u8>) -> (r: Option<Vec<u8>>)
        ensures
            match r {
                Some(v) => self@.contains_key(key@) && v@ == self@[key@],
                None => !self@.contains_key(key@),
            },
    {
        proof {
            use_type_invariant(self);
        }
        let mut i: usize = 0;
        while i < self.entries.len()
            invariant
                0 <= i <= self.entries@.len(),
                distinct_keys(self.entries@),
                forall|j: int| 0 <= j < i ==> (#[trigger] self.entries@[j]).0@ != key@,
            decreases self.entries@.len() - i,
        {
            if bytes_eq(&self.entries[i].0, &key) {
                proof {
                    lemma_map_of_present(self.entries@, i as int);
                }
                return Some(clone_bytes(&self.entries[i].1));
            }
            i = i + 1;
        }
        proof {
            lemma_map_of_absent(self.entries@, key@);
        }
        None
    }

    /// Unbinds `key`: the new mapping is the old one without it.  Always
    /// succeeds; a no-op when the key is absent.
    pub fn remove(&mut self, key: Vec<u8>)
        ensures
            final(self)@ == old(self)@.remove(key@),
    {
        proof {
            use_type_invariant(&*self);
        }
        let mut entries: Vec<(Vec<u8>, Vec<u8>)> = Vec::new();
        core::mem::swap(&mut entries, &mut self.entries);
        remove_key(&mut entries, &key);
        self.entries = entries;
    }
}

/// One request to the store's owner.  A `Get` is answered with the bound
/// value or the absent sentinel; `Put` (the wire command `SET`) and `Remove`
/// always succeed silently.
pub enum Message {
    Get(Vec<u8>),
    Put(Vec<u8>, Vec<u8>),
    Remove(Vec<u8>),
}

/// The mapping after the owner applies one message.
pub open spec fn apply_message(m: Map<Seq<u8>, Seq<u8>>, msg: Message) -> Map<Seq<u8>, Seq<u8>> {
    match msg {
        Message::Get(_) => m,
        Message::Put(k, v) => m.insert(k@, v@),
        Message::Remove(k) => m.remove(k@),
    }
}

/// The mapping after the owner applies a whole request sequence, in arrival
/// order.
pub open spec fn apply_messages(m: Map<Seq<u8>, Seq<u8>>, msgs: Seq<Message>) -> Map<
    Seq<u8>,
    Seq<u8>,
>
    decreases msgs.len(),
{
    if msgs.len() == 0 {
        m
    } else {
        apply_message(apply_messages(m, msgs.drop_last()), msgs.last())
    }
}

/// The answer each `Get` in a request sequence receives: the value bound to
/// its key in the mapping as of that point in the sequence.
pub open spec fn message_replies(m: Map<Seq<u8>, Seq<u8>>, msgs: Seq<Message>) -> Seq<
    Option<Seq<u8>>,
>
    decreases msgs.len(),
{
    if msgs.len() == 0 {
        Seq::empty()
    } else {
        let before = apply_messages(m, msgs.drop_last());
        match msgs.last() {
            Message::Get(k) => message_replies(m, msgs.drop_last()).push(
                if before.contains_key(k@) {
                    Some(before[k@])
                } else {
                    None
                },
            ),
            _ => message_replies(m, msgs.drop_last()),
        }
    }
}

/// The bytes a reply option denotes.
pub open spec fn reply_view(r: Option<Vec<u8>>) -> Option<Seq<u8>> {
    match r {
        Some(v) => Some(v@),
        None => None,
    }
}

/// The bytes a whole reply list denotes.
pub open spec fn replies_view(rs: Seq<Option<Vec<u8>>>) -> Seq<Option<Seq<u8>>> {
    rs.map_values(|r: Option<Vec<u8>>| reply_view(r))
}

impl ThreadSafeMap {
    /// Applies a request sequence in arrival order, answering each `Get`
    /// with the value the store holds at that point.  This is the store
    /// owner's whole behaviour: whatever order requests are enqueued, they
    /// are applied in that order.
    pub fn handle_messages(&mut self, messages: Vec<Message>) -> (replies: Vec<Option<Vec<u8>>>)
        ensures
            final(self)@ == apply_messages(old(self)@, messages@),
            replies_view(replies@) == message_replies(old(self)@, messages@),
    {
        let ghost m0 = self@;
        let mut replies: Vec<Option<Vec<u8>>> = Vec::new();
        let mut i: usize = 0;
        while i < messages.len()
            invariant
                0 <= i <= messages@.len(),
                self@ == apply_messages(m0, messages@.take(i as int)),
                replies_view(replies@) == message_replies(m0, messages@.take(i as int)),
            decreases messages@.len() - i,
        {
            proof {
                assert(messages@.take(i + 1).drop_last() =~= messages@.take(i as int));
                assert(messages@.take(i + 1).last() == messages@[i as int]);
            }
            match &messages[i] {
                Message::Get(k) => {
                    let r = self.get(clone_bytes(k));
                    replies.push(r);
                    proof {
                        assert(replies_view(replies@) =~= message_replies(
                            m0,
                            messages@.take(i + 1),
                        ));
                    }
                },
                Message::Put(k, v) => {
                    self.set(clone_bytes(k), clone_bytes(v));
                },
                Message::Remove(k) => {
                    self.remove(clone_bytes(k));
                },
            }
            i = i + 1;
        }
        proof {
            assert(messages@.take(messages@.len() as int) =~= messages@);
        }
        replies
    }
}

/// `msg` is a `Set` of key `k`.
pub open spec fn sets_key(msg: Message, k: Seq<u8>) -> bool {
    match msg {
        Message::Put(k2, _) => k2@ == k,
        _ => false,
    }
}

/// Law: setting a key binds it to the value just written, so a `get` of that
/// key right after — from the same or any other connection, since all of
/// them read the one shared store — returns exactly that value.
pub proof fn lemma_set_then_get(m: Map<Seq<u8>, Seq<u8>>, k: Seq<u8>, v: Seq<u8>)
    ensures
        m.insert(k, v).contains_key(k),
        m.insert(k, v)[k] == v,
{
}

/// Law: a key that no request ever sets stays absent, so a `get` of a key
/// never set (or removed and not set again) returns the absent sentinel,
/// never an empty value.
pub proof fn lemma_never_set_stays_absent(m: Map<Seq<u8>, Seq<u8>>, msgs: Seq<Message>, k: Seq<u8>)
    requires
        !m.contains_key(k),
        forall|i: int| 0 <= i < msgs.len() ==> !sets_key(#[trigger] msgs[i], k),
    ensures
        !apply_messages(m, msgs).contains_key(k),
    decreases msgs.len(),
{
    if msgs.len() > 0 {
        assert forall|i: int| 0 <= i < msgs.drop_last().len() implies !sets_key(
            #[trigger] msgs.drop_last()[i],
            k,
        ) by {
            assert(msgs.drop_last()[i] == msgs[i]);
        }
        lemma_never_set_stays_absent(m, msgs.drop_last(), k);
        assert(!sets_key(msgs.last(), k));
    }
}

/// Law: two writes to the same key leave the later one in force, whichever
/// connections issued them — the store applies requests in arrival order and
/// the last write wins.
pub proof fn lemma_last_write_wins(m: Map<Seq<u8>, Seq<u8>>, k: Vec<u8>, v1: Vec<u8>, v2: Vec<u8>)
    ensures
        ({
            let m2 = apply_messages(m, seq![Message::Put(k, v1), Message::Put(k, v2)]);
            m2.contains_key(k@) && m2[k@] == v2@
        }),
{
    let msgs = seq![Message::Put(k, v1), Message::Put(k, v2)];
    assert(msgs.drop_last() =~= seq![Message::Put(k, v1)]);
    assert(seq![Message::Put(k, v1)].drop_last() =~= Seq::<Message>::empty());
}

/// Law: writes to two distinct keys never clobber each other: after both are
/// applied, in whatever order they arrived, each key holds the value written
/// to it.  Instantiating the two orders of arrival covers concurrent writes
/// from different connections.
pub proof fn lemma_distinct_sets_no_clobber(
    m: Map<Seq<u8>, Seq<u8>>,
    k1: Vec<u8>,
    v1: Vec<u8>,
    k2: Vec<u8>,
    v2: Vec<u8>,
)
    requires
        k1@ != k2@,
    ensures
        ({
            let m2 = apply_messages(m, seq![Message::Put(k1, v1), Message::Put(k2, v2)]);
            m2.contains_key(k1@) && m2[k1@] == v1@ && m2.contains_key(k2@) && m2[k2@] == v2@
        }),
{
    let msgs = seq![Message::Put(k1, v1), Message::Put(k2, v2)];
    assert(msgs.drop_last() =~= seq![Message::Put(k1, v1)]);
    assert(seq![Message::Put(k1, v1)].drop_last() =~= Seq::<Message>::empty());
    let m1 = m.insert(k1@, v1@);
    assert(apply_messages(m, Seq::<Message>::empty()) == m);
    assert(seq![Message::Put(k1, v1)].last() == Message::Put(k1, v1));
    assert(apply_messages(m, seq![Message::Put(k1, v1)]) == m1);
    assert(apply_messages(m, msgs.drop_last()) == m1);
    assert(msgs.last() == Message::Put(k2, v2));
    assert(apply_messages(m, msgs) == m1.insert(k2@, v2@));
    assert(m1.insert(k2@, v2@)[k1@] == m1[k1@]);
}

} // verus!
