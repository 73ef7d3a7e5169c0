//! The queue of senders that are blocked on one receiver.

use std::collections::VecDeque;
use super::endpoint::Endpoint;
use super::message::Message;
use vstd::prelude::*;

verus! {

struct QueueEntry {
    sender: Endpoint,
    message: Message,
}

/// The entries that are still held, in the order in which they came.
spec fn live(s: Seq<Option<QueueEntry>>) -> Seq<(Endpoint, Message)>
    decreases s.len(),
{
    if s.len() == 0 {
        Seq::empty()
    } else {
        let rest = live(s.drop_last());
        match s.last() {
            Some(e) => rest.push((e.sender, e.message)),
            None => rest,
        }
    }
}

proof fn lemma_live_len(s: Seq<Option<QueueEntry>>)
    ensures
        live(s).len() <= s.len(),
    decreases s.len(),
{
    if s.len() > 0 {
        lemma_live_len(s.drop_last());
    }
}

proof fn lemma_live_concat(a: Seq<Option<QueueEntry>>, b: Seq<Option<QueueEntry>>)
    ensures
        live(a + b) == live(a) + live(b),
    decreases b.len(),
{
    if b.len() == 0 {
        assert(a + b =~= a);
        assert(live(a) + live(b) =~= live(a));
    } else {
        lemma_live_concat(a, b.drop_last());
        assert((a + b).drop_last() =~= a + b.drop_last());
        assert((a + b).last() == b.last());
        match b.last() {
            Some(e) => {
                assert(live(a + b) =~= live(a) + live(b));
            },
            None => {},
        }
    }
}

proof fn lemma_live_one(x: Option<QueueEntry>)
    ensures
        live(seq![x]) == (match x {
            Some(e) => seq![(e.sender, e.message)],
            None => Seq::<(Endpoint, Message)>::empty(),
        }),
{
    assert(seq![x].drop_last() =~= Seq::<Option<QueueEntry>>::empty());
    assert(live(seq![x].drop_last()) =~= Seq::<(Endpoint, Message)>::empty());
    match x {
        Some(e) => {
            assert(live(seq![x]) =~= seq![(e.sender, e.message)]);
        },
        None => {},
    }
}

/// What is held around a position: the entries before it, the entry at it,
/// and the entries behind it.
proof fn lemma_live_split(s: Seq<Option<QueueEntry>>, i: int)
    requires
        0 <= i < s.len(),
    ensures
        live(s) == live(s.take(i)) + live(seq![s[i]]) + live(s.skip(i + 1)),
        live(s.take(i + 1)) == live(s.take(i)) + live(seq![s[i]]),
        live(s.update(i, None)) == live(s.take(i)) + live(s.skip(i + 1)),
{
    let none: Option<QueueEntry> = None;
    assert(s =~= s.take(i) + seq![s[i]] + s.skip(i + 1));
    lemma_live_concat(s.take(i), seq![s[i]]);
    lemma_live_concat(s.take(i) + seq![s[i]], s.skip(i + 1));
    assert(s.take(i + 1) =~= s.take(i) + seq![s[i]]);
    assert(s.update(i, None) =~= s.take(i) + seq![none] + s.skip(i + 1));
    lemma_live_concat(s.take(i), seq![none]);
    lemma_live_concat(s.take(i) + seq![none], s.skip(i + 1));
    lemma_live_one(none);
    assert(live(s.take(i)) + live(seq![none]) =~= live(s.take(i)));
}

/// `i` is the place of the first entry of `q` whose sender `predicate`
/// accepts: it accepts that sender and turns down every sender before it.
pub open spec fn is_first_match<F: Fn(Endpoint) -> bool>(
    q: Seq<(Endpoint, Message)>,
    predicate: F,
    i: int,
) -> bool {
    &&& 0 <= i < q.len()
    &&& call_ensures(predicate, (q[i].0,), true)
    &&& forall|j: int| 0 <= j < i ==> call_ensures(predicate, (#[trigger] q[j].0,), false)
}

/// `predicate` turns down the sender of every entry of `q`.
pub open spec fn no_match<F: Fn(Endpoint) -> bool>(
    q: Seq<(Endpoint, Message)>,
    predicate: F,
) -> bool {
    forall|j: int| 0 <= j < q.len() ==> call_ensures(predicate, (#[trigger] q[j].0,), false)
}

/// The senders blocked on one receiver, each with the message it wants to
/// send, first come first served.
///
/// An entry that is taken from the middle leaves a gap behind. Gaps at either
/// end are dropped at once, those in the middle once they outnumber the
/// entries that are held.
pub struct MessageQueue {
    data: VecDeque<Option<QueueEntry>>,
    some_count: usize,
}

impl View for MessageQueue {
    type V = Seq<(Endpoint, Message)>;

    closed spec fn view(&self) -> Seq<(Endpoint, Message)> {
        live(self.data@)
    }
}

impl MessageQueue {
    #[verifier::type_invariant]
    spec fn counted(self) -> bool {
        self.some_count == live(self.data@).len()
    }

    /// No gap lies at either end of the queue.
    pub closed spec fn trimmed(&self) -> bool {
        self.data@.len() > 0 ==> self.data@[0] is Some && self.data@.last() is Some
    }

    /// The number of gaps that entries taken from the middle have left.
    pub closed spec fn gaps(&self) -> nat {
        (self.data@.len() - live(self.data@).len()) as nat
    }

    /// An empty queue.
    pub fn new() -> (q: Self)
        ensures
            q@ == Seq::<(Endpoint, Message)>::empty(),
            q.gaps() == 0,
            q.trimmed(),
    {
        Self { data: VecDeque::new(), some_count: 0 }
    }

    /// Appends the message of `sender`.
    pub fn insert(&mut self, sender: Endpoint, message: Message)
        ensures
            final(self)@ == old(self)@.push((sender, message)),
            final(self).gaps() == old(self).gaps(),
            old(self).trimmed() ==> final(self).trimmed(),
    {
        proof {
            use_type_invariant(&*self);
        }
        let mut taken = MessageQueue::new();
        core::mem::swap(self, &mut taken);
        let MessageQueue { data, some_count } = taken;
        let mut data = data;
        let ghost before = data@;
        data.push_back(Some(QueueEntry { sender, message }));
        let len: usize = data.len();
        proof {
            assert(data@.drop_last() =~= before);
            lemma_live_len(before);
        }
        *self = MessageQueue { data, some_count: some_count + 1 };
    }

    /// The place of the first entry whose sender `predicate` accepts.
    fn position<F: Fn(Endpoint) -> bool>(&self, predicate: &F) -> (r: Option<usize>)
        requires
            forall|e: Endpoint| call_requires(*predicate, (e,)),
        ensures
            match r {
                Some(i) => {
                    &&& i < self.data@.len()
                    &&& self.data@[i as int] is Some
                    &&& is_first_match(
                        self@,
                        *predicate,
                        live(self.data@.take(i as int)).len() as int,
                    )
                },
                None => no_match(self@, *predicate),
            },
    {
        let mut i: usize = 0;
        while i < self.data.len()
            invariant
                i <= self.data@.len(),
                forall|e: Endpoint| call_requires(*predicate, (e,)),
                no_match(live(self.data@.take(i as int)), *predicate),
            decreases self.data@.len() - i,
        {
            proof {
                lemma_live_split(self.data@, i as int);
                lemma_live_one(self.data@[i as int]);
            }
            match &self.data[i] {
                Some(entry) => {
                    if predicate(entry.sender) {
                        return Some(i);
                    }
                },
                None => {},
            }
            i = i + 1;
        }
        proof {
            assert(self.data@.take(i as int) =~= self.data@);
        }
        None
    }

    /// The first entry whose sender `predicate` accepts, left in the queue.
    pub fn peek<F: Fn(Endpoint) -> bool>(&self, predicate: F) -> (r: Option<(Endpoint, Message)>)
        requires
            forall|e: Endpoint| call_requires(predicate, (e,)),
        ensures
            match r {
                Some(entry) => exists|i: int|
                    is_first_match(self@, predicate, i) && self@[i] == entry,
                None => no_match(self@, predicate),
            },
    {
        match self.position(&predicate) {
            Some(i) => {
                proof {
                    lemma_live_split(self.data@, i as int);
                    lemma_live_one(self.data@[i as int]);
                }
                match &self.data[i] {
                    Some(entry) => Some((entry.sender, entry.message)),
                    None => None,
                }
            },
            None => None,
        }
    }

    /// Takes out the first entry whose sender `predicate` accepts.
    pub fn get<F: Fn(Endpoint) -> bool>(&mut self, predicate: F) -> (r: Option<(Endpoint, Message)>)
        requires
            forall|e: Endpoint| call_requires(predicate, (e,)),
        ensures
            match r {
                Some(entry) => exists|i: int|
                    {
                        &&& is_first_match(old(self)@, predicate, i)
                        &&& old(self)@[i] == entry
                        &&& final(self)@ == old(self)@.remove(i)
                    },
                None => no_match(old(self)@, predicate) && final(self)@ == old(self)@,
            },
            final(self).gaps() <= final(self)@.len(),
            final(self).gaps() <= old(self).gaps() + 1,
            final(self).trimmed(),
    {
        proof {
            use_type_invariant(&*self);
        }
        let found = self.position(&predicate);
        let mut taken = MessageQueue::new();
        core::mem::swap(self, &mut taken);
        let MessageQueue { data, some_count } = taken;
        let mut data = data;
        let mut some_count = some_count;
        let ghost before = data@;
        let result = match found {
            Some(i) => {
                proof {
                    lemma_live_split(before, i as int);
                    lemma_live_one(before[i as int]);
                }
                let entry = data.remove(i);
                data.insert(i, None);
                proof {
                    assert(data@ =~= before.update(i as int, None));
                    let k = live(before.take(i as int)).len() as int;
                    assert(live(data@) =~= live(before).remove(k));
                }
                some_count = some_count - 1;
                match entry {
                    Some(Some(e)) => Some((e.sender, e.message)),
                    _ => None,
                }
            },
            None => None,
        };
        let ghost kept = live(data@);
        let ghost bound = data@.len();
        // gaps at the front
        while data.len() > 0
            invariant
                live(data@) == kept,
                data@.len() <= bound,
            ensures
                data@.len() > 0 ==> data@[0] is Some,
            decreases data@.len(),
        {
            let ghost cur = data@;
            let first = data.pop_front();
            proof {
                lemma_live_split(cur, 0);
                lemma_live_one(cur[0]);
                assert(cur.take(0) =~= Seq::<Option<QueueEntry>>::empty());
                assert(cur.skip(1) =~= data@);
            }
            match first {
                Some(Some(e)) => {
                    data.push_front(Some(e));
                    proof {
                        assert(data@ =~= cur);
                    }
                    break ;
                },
                _ => {},
            }
        }
        // gaps at the back
        while data.len() > 0
            invariant
                live(data@) == kept,
                data@.len() <= bound,
                data@.len() > 0 ==> data@[0] is Some,
            ensures
                data@.len() > 0 ==> data@.last() is Some,
            decreases data@.len(),
        {
            let ghost cur = data@;
            let last = data.pop_back();
            proof {
                assert(data@ =~= cur.drop_last());
            }
            match last {
                Some(Some(e)) => {
                    data.push_back(Some(e));
                    proof {
                        assert(data@ =~= cur);
                    }
                    break ;
                },
                _ => {},
            }
        }
        proof {
            lemma_live_len(data@);
        }
        // gaps in the middle, once they outnumber the entries
        if data.len() - some_count > some_count {
            let mut packed: VecDeque<Option<QueueEntry>> = VecDeque::new();
            let ghost all = data@;
            while data.len() > 0
                invariant
                    live(packed@) + live(data@) == kept,
                    live(packed@).len() == packed@.len(),
                    forall|i: int| 0 <= i < packed@.len() ==> packed@[i] is Some,
                decreases data@.len(),
            {
                let ghost cur = data@;
                let ghost was = packed@;
                let first = data.pop_front();
                proof {
                    lemma_live_split(cur, 0);
                    lemma_live_one(cur[0]);
                    assert(cur.take(0) =~= Seq::<Option<QueueEntry>>::empty());
                    assert(cur.skip(1) =~= data@);
                }
                match first {
                    Some(Some(e)) => {
                        packed.push_back(Some(e));
                        proof {
                            assert(packed@.drop_last() =~= was);
                            assert(live(packed@) + live(data@) =~= live(was) + live(cur));
                        }
                    },
                    _ => {},
                }
            }
            proof {
                assert(live(packed@) + live(data@) =~= live(packed@));
            }
            data = packed;
        }
        *self = MessageQueue { data, some_count };
        result
    }
}

} // verus!
