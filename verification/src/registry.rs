//! The Contact Registry: the shared set of recipient identifiers observed on
//! the inbound stream. It only ever grows; duplicates and arrival order do
//! not change its contents.

use vstd::prelude::*;
use vstd::seq_lib::group_seq_properties;

use crate::telegram::{Message, MessageModel};

verus! {

/// The recipient identifiers a sequence of observed messages carries, in order.
pub open spec fn recipients_of(msgs: Seq<MessageModel>) -> Seq<u64> {
    msgs.map(|i: int, m: MessageModel| m.chat.id)
}

/// The set of known recipients. Its mathematical view is the set of
/// identifiers inserted so far; inside, each identifier is kept once, in the
/// order of first arrival.
pub struct ContactSet {
    contacts: Vec<u64>,
}

impl View for ContactSet {
    type V = Set<u64>;

    closed spec fn view(&self) -> Set<u64> {
        self.contacts@.to_set()
    }
}

impl ContactSet {
    /// The internal invariant: every identifier is kept exactly once, so the
    /// member count is the cardinality of the view.
    pub closed spec fn inv(&self) -> bool {
        self.contacts@.no_duplicates()
    }

    /// The view is always a finite set.
    pub proof fn lemma_view_finite(&self)
        ensures
            self@.finite(),
    {
        broadcast use vstd::seq_lib::seq_to_set_is_finite;

    }

    /// An empty registry.
    pub fn new() -> (s: ContactSet)
        ensures
            s@ == Set::<u64>::empty(),
            s.inv(),
    {
        let s = ContactSet { contacts: Vec::new() };
        proof {
            assert(s.contacts@.to_set() =~= Set::<u64>::empty());
        }
        s
    }

    /// Whether an identifier is already known.
    pub fn contains(&self, id: u64) -> (r: bool)
        ensures
            r == self@.contains(id),
    {
        let mut k: usize = 0;
        while k < self.contacts.len()
            invariant
                k <= self.contacts@.len(),
                forall|i: int| 0 <= i < k ==> self.contacts@[i] != id,
            decreases self.contacts@.len() - k,
        {
            if self.contacts[k] == id {
                assert(self.contacts@.contains(id));
                return true;
            }
            k = k + 1;
        }
        assert(!self.contacts@.contains(id));
        false
    }

    /// Inserts one identifier: afterwards the registry holds everything it
    /// held before, plus the identifier. Nothing is ever removed.
    pub fn insert(&mut self, id: u64)
        requires
            old(self).inv(),
        ensures
            final(self).inv(),
            final(self)@ == old(self)@.insert(id),
            final(self)@.len() == old(self)@.len() + (if old(self)@.contains(id) {
                0int
            } else {
                1int
            }),
    {
        proof {
            self.lemma_view_finite();
        }
        if !self.contains(id) {
            let ghost prev = self.contacts@;
            self.contacts.push(id);
            proof {
                broadcast use Seq::<_>::lemma_push_to_set_commute;

                assert(self.contacts@ == prev.push(id));
                assert(self.contacts@.no_duplicates());
                assert(self.contacts@.to_set() == prev.to_set().insert(id));
            }
        } else {
            proof {
                assert(self@ =~= old(self)@.insert(id));
            }
        }
    }

    /// How many distinct recipients are known.
    pub fn len(&self) -> (n: usize)
        requires
            self.inv(),
        ensures
            n == self@.len(),
    {
        proof {
            self.contacts@.unique_seq_to_set();
        }
        self.contacts.len()
    }

    /// A snapshot of the registry for iteration outside the lock: every known
    /// identifier exactly once, in order of first arrival.
    pub fn snapshot(&self) -> (v: Vec<u64>)
        requires
            self.inv(),
        ensures
            v@.to_set() == self@,
            v@.no_duplicates(),
            v@.len() == self@.len(),
    {
        proof {
            self.contacts@.unique_seq_to_set();
        }
        let mut v: Vec<u64> = Vec::new();
        let mut k: usize = 0;
        while k < self.contacts.len()
            invariant
                k <= self.contacts@.len(),
                v@ == self.contacts@.take(k as int),
            decreases self.contacts@.len() - k,
        {
            v.push(self.contacts[k]);
            proof {
                assert(v@ =~= self.contacts@.take(k + 1));
            }
            k = k + 1;
        }
        proof {
            assert(v@ =~= self.contacts@);
        }
        v
    }

    /// Registers the recipient of one observed message.
    pub fn register(&mut self, msg: &Message)
        requires
            old(self).inv(),
        ensures
            final(self).inv(),
            final(self)@ == old(self)@.insert(msg.chat.id),
    {
        self.insert(msg.chat.id);
    }

    /// Registers a whole sequence of observed messages: afterwards the
    /// registry holds what it held before together with every recipient seen,
    /// one member per distinct recipient, whatever duplicates or order the
    /// sequence had.
    pub fn register_all(&mut self, msgs: &Vec<Message>)
        requires
            old(self).inv(),
        ensures
            final(self).inv(),
            final(self)@ == old(self)@ + recipients_of(msgs.deep_view()).to_set(),
    {
        let mut k: usize = 0;
        while k < msgs.len()
            invariant
                k <= msgs@.len(),
                self.inv(),
                self@ == old(self)@ + recipients_of(msgs.deep_view().take(k as int)).to_set(),
            decreases msgs@.len() - k,
        {
            let ghost prev = self@;
            self.register(&msgs[k]);
            proof {
                broadcast use Seq::<_>::lemma_push_to_set_commute;

                let mds = msgs.deep_view();
                assert(recipients_of(mds.take(k + 1)) =~= recipients_of(mds.take(k as int)).push(
                    mds[k as int].chat.id,
                ));
                assert(self@ =~= old(self)@ + recipients_of(mds.take(k + 1)).to_set());
            }
            k = k + 1;
        }
        proof {
            assert(msgs.deep_view().take(msgs@.len() as int) =~= msgs.deep_view());
        }
    }
}

/// The Contact Set law: what the registry ends up holding depends only on
/// *which* recipients occur in the observed messages, not on their order or
/// multiplicity — any two message sequences that rearrange or repeat the same
/// recipients leave the same contact set behind.
pub proof fn lemma_registry_order_independent(a: Seq<MessageModel>, b: Seq<MessageModel>)
    requires
        recipients_of(a).to_multiset() == recipients_of(b).to_multiset(),
    ensures
        recipients_of(a).to_set() == recipients_of(b).to_set(),
{
    broadcast use vstd::seq_lib::to_multiset_contains;

    assert forall|x: u64| recipients_of(a).to_set().contains(x)
        <==> recipients_of(b).to_set().contains(x) by {
        assert(recipients_of(a).contains(x) <==> recipients_of(a).to_multiset().count(x) > 0);
        assert(recipients_of(b).contains(x) <==> recipients_of(b).to_multiset().count(x) > 0);
    }
    assert(recipients_of(a).to_set() =~= recipients_of(b).to_set());
}

/// The Contact Set law, counted: after any run of messages into an empty
/// registry, the registry holds exactly one member per distinct recipient,
/// and never more members than messages.
pub proof fn lemma_registry_counts_distinct(msgs: Seq<MessageModel>)
    ensures
        (Set::<u64>::empty() + recipients_of(msgs).to_set()) == recipients_of(msgs).to_set(),
        recipients_of(msgs).to_set().len() <= msgs.len(),
{
    broadcast use group_seq_properties;

    assert(Set::<u64>::empty() + recipients_of(msgs).to_set() =~= recipients_of(msgs).to_set());
    recipients_of(msgs).lemma_cardinality_of_set();
}

} // verus!
