//! The rule snapshot that a service worker keeps, and how update messages change it.
use vstd::prelude::*;

use crate::matcher::{contains_pattern, find_subsequence};
use crate::rule::{ParsedRule, RuleAction};

verus! {

/// The effect of one update message on a snapshot `m` (ids to patterns): an add
/// with a non-empty pattern installs it, a removal deletes its id, and anything
/// else leaves `m` as it is.
pub open spec fn applied(m: Map<usize, Seq<u8>>, msg: ParsedRule) -> Map<usize, Seq<u8>> {
    match msg.action {
        RuleAction::AddRule => match msg.rule {
            Some(p) => if p@.len() > 0 {
                m.insert(msg.id, p@)
            } else {
                m
            },
            None => m,
        },
        RuleAction::RemoveRule => m.remove(msg.id),
    }
}

/// The effect of a sequence of update messages, taken in order.
pub open spec fn applied_all(m: Map<usize, Seq<u8>>, msgs: Seq<ParsedRule>) -> Map<usize, Seq<u8>>
    decreases msgs.len(),
{
    if msgs.len() == 0 {
        m
    } else {
        applied(applied_all(m, msgs.drop_last()), msgs.last())
    }
}

/// A removal deletes exactly its own id: every other id keeps its pattern, and
/// no id is added.
pub proof fn lemma_remove_deletes_only_its_id(m: Map<usize, Seq<u8>>, msg: ParsedRule)
    requires
        msg.action == RuleAction::RemoveRule,
    ensures
        !applied(m, msg).contains_key(msg.id),
        forall|id: usize| id != msg.id ==> (applied(m, msg).contains_key(id) <==> m.contains_key(id)),
        forall|id: usize| id != msg.id && m.contains_key(id) ==> applied(m, msg)[id] == m[id],
{
}

/// An add with a non-empty pattern that no later message in the queue touches
/// (ids are never reused, so a later message with its id is its removal) is in
/// the snapshot once the queue is drained, with its pattern.
pub proof fn lemma_queued_add_is_applied(m: Map<usize, Seq<u8>>, msgs: Seq<ParsedRule>, k: int)
    requires
        0 <= k < msgs.len(),
        msgs[k].action == RuleAction::AddRule,
        msgs[k].rule matches Some(p) && p@.len() > 0,
        forall|j: int| k < j < msgs.len() ==> msgs[j].id != msgs[k].id,
    ensures
        applied_all(m, msgs).contains_key(msgs[k].id),
        applied_all(m, msgs)[msgs[k].id] == msgs[k].rule->0@,
    decreases msgs.len(),
{
    let prefix = msgs.drop_last();
    if k < msgs.len() - 1 {
        assert forall|j: int| k < j < prefix.len() implies prefix[j].id != prefix[k].id by {
            assert(prefix[j] == msgs[j]);
        }
        lemma_queued_add_is_applied(m, prefix, k);
        assert(prefix[k] == msgs[k]);
        assert(msgs.last().id != msgs[k].id);
    }
}

/// Draining one batch at an accept and the next batch at a later accept gives
/// the snapshot that draining both at once would give.
pub proof fn lemma_batches_compose(m: Map<usize, Seq<u8>>, first: Seq<ParsedRule>, second: Seq<ParsedRule>)
    ensures
        applied_all(applied_all(m, first), second) == applied_all(m, first + second),
    decreases second.len(),
{
    if second.len() == 0 {
        assert(first + second =~= first);
    } else {
        lemma_batches_compose(m, first, second.drop_last());
        assert((first + second).drop_last() =~= first + second.drop_last());
        assert((first + second).last() == second.last());
    }
}

/// An add that was queued, with a non-empty pattern, before some accept is in
/// the snapshot of every later connection, however many accepts drained the
/// queue in between, as long as no later message names its id.
pub proof fn lemma_acknowledged_add_stays_applied(
    m: Map<usize, Seq<u8>>,
    earlier: Seq<ParsedRule>,
    later: Seq<ParsedRule>,
    k: int,
)
    requires
        0 <= k < earlier.len(),
        earlier[k].action == RuleAction::AddRule,
        earlier[k].rule matches Some(p) && p@.len() > 0,
        forall|j: int| k < j < earlier.len() ==> earlier[j].id != earlier[k].id,
        forall|j: int| 0 <= j < later.len() ==> later[j].id != earlier[k].id,
    ensures
        applied_all(applied_all(m, earlier), later).contains_key(earlier[k].id),
        applied_all(applied_all(m, earlier), later)[earlier[k].id] == earlier[k].rule->0@,
{
    lemma_batches_compose(m, earlier, later);
    let all = earlier + later;
    assert(all[k] == earlier[k]);
    assert forall|j: int| k < j < all.len() implies all[j].id != all[k].id by {
        if j < earlier.len() {
            assert(all[j] == earlier[j]);
        } else {
            assert(all[j] == later[j - earlier.len()]);
        }
    }
    lemma_queued_add_is_applied(m, all, k);
}

/// A worker whose queue never names an id does not gain that id: a rule added
/// for another service (ids are unique across services, and each message goes
/// to its own service's queue) never enters this worker's snapshot.
pub proof fn lemma_foreign_rule_absent(m: Map<usize, Seq<u8>>, msgs: Seq<ParsedRule>, id: usize)
    requires
        !m.contains_key(id),
        forall|j: int| 0 <= j < msgs.len() ==> (#[trigger] msgs[j]).id != id,
    ensures
        !applied_all(m, msgs).contains_key(id),
    decreases msgs.len(),
{
    if msgs.len() > 0 {
        let prefix = msgs.drop_last();
        assert forall|j: int| 0 <= j < prefix.len() implies (#[trigger] prefix[j]).id != id by {
            assert(prefix[j] == msgs[j]);
        }
        lemma_foreign_rule_absent(m, prefix, id);
        assert(msgs.last() == msgs[msgs.len() - 1]);
    }
}

/// Some pattern of `rules` occurs in `chunk`.
pub open spec fn blocked(rules: Map<usize, Seq<u8>>, chunk: Seq<u8>) -> bool {
    exists|id: usize| rules.contains_key(id) && contains_pattern(chunk, #[trigger] rules[id])
}

/// The rules that one service applies to its traffic, by id.
pub struct Snapshot {
    entries: Vec<(usize, Vec<u8>)>,
    model: Ghost<Map<usize, Seq<u8>>>,
}

impl View for Snapshot {
    type V = Map<usize, Seq<u8>>;

    closed spec fn view(&self) -> Map<usize, Seq<u8>> {
        self.model@
    }
}

impl Snapshot {
    /// The entries hold exactly the model: one entry per id, no empty pattern.
    pub closed spec fn wf(&self) -> bool {
        &&& forall|i: int| 0 <= i < self.entries@.len() ==> {
            &&& self.model@.contains_key(#[trigger] self.entries@[i].0)
            &&& self.model@[self.entries@[i].0] == self.entries@[i].1@
        }
        &&& forall|i: int, j: int|
            0 <= i < j < self.entries@.len() ==> self.entries@[i].0 != self.entries@[j].0
        &&& forall|id: usize| #[trigger] self.model@.contains_key(id) ==> exists|i: int|
            0 <= i < self.entries@.len() && self.entries@[i].0 == id
        &&& forall|id: usize| #[trigger] self.model@.contains_key(id) ==> self.model@[id].len() > 0
    }

    /// A snapshot with no rules.
    pub fn new() -> (r: Snapshot)
        ensures
            r.wf(),
            r@ == Map::<usize, Seq<u8>>::empty(),
    {
        Snapshot { entries: Vec::new(), model: Ghost(Map::empty()) }
    }

    /// An independent copy, handed to one connection.
    pub fn copy(&self) -> (r: Snapshot)
        requires
            self.wf(),
        ensures
            r.wf(),
            r@ == self@,
    {
        let mut entries: Vec<(usize, Vec<u8>)> = Vec::new();
        let mut i: usize = 0;
        while i < self.entries.len()
            invariant
                i <= self.entries@.len(),
                entries@.len() == i,
                forall|k: int| 0 <= k < i ==> (#[trigger] entries@[k]).0 == self.entries@[k].0
                    && entries@[k].1@ == self.entries@[k].1@,
            decreases self.entries@.len() - i,
        {
            let pattern = vstd::slice::slice_to_vec(self.entries[i].1.as_slice());
            entries.push((self.entries[i].0, pattern));
            i = i + 1;
        }
        let r = Snapshot { entries, model: Ghost(self.model@) };
        assert forall|id: usize| #[trigger] r.model@.contains_key(id) implies exists|i: int|
            0 <= i < r.entries@.len() && r.entries@[i].0 == id by {
            let i = choose|i: int| 0 <= i < self.entries@.len() && self.entries@[i].0 == id;
            assert(r.entries@[i].0 == id);
        }
        r
    }

    fn position(&self, id: usize) -> (r: Option<usize>)
        requires
            self.wf(),
        ensures
            match r {
                Some(i) => i < self.entries@.len() && self.entries@[i as int].0 == id,
                None => !self@.contains_key(id),
            },
    {
        let mut i: usize = 0;
        while i < self.entries.len()
            invariant
                i <= self.entries@.len(),
                forall|k: int| 0 <= k < i ==> self.entries@[k].0 != id,
            decreases self.entries@.len() - i,
        {
            if self.entries[i].0 == id {
                return Some(i);
            }
            i = i + 1;
        }
        None
    }

    /// Applies one update message.
    pub fn apply(&mut self, msg: &ParsedRule)
        requires
            old(self).wf(),
        ensures
            final(self).wf(),
            final(self)@ == applied(old(self)@, *msg),
    {
        match msg.action {
            RuleAction::AddRule => {
                if let Some(p) = &msg.rule {
                    if p.len() > 0 {
                        self.insert(msg.id, vstd::slice::slice_to_vec(p.as_slice()));
                    }
                }
            },
            RuleAction::RemoveRule => {
                self.remove(msg.id);
            },
        }
    }

    fn insert(&mut self, id: usize, pattern: Vec<u8>)
        requires
            old(self).wf(),
            pattern@.len() > 0,
        ensures
            final(self).wf(),
            final(self)@ == old(self)@.insert(id, pattern@),
    {
        let ghost p = pattern@;
        let ghost before = self.entries@;
        match self.position(id) {
            Some(k) => {
                self.entries.set(k, (id, pattern));
                self.model = Ghost(self.model@.insert(id, p));
                assert forall|i: int| 0 <= i < self.entries@.len() implies {
                    &&& self.model@.contains_key(#[trigger] self.entries@[i].0)
                    &&& self.model@[self.entries@[i].0] == self.entries@[i].1@
                } by {
                    if i != k {
                        assert(before[i].0 != id);
                    }
                }
                assert forall|x: usize| #[trigger] self.model@.contains_key(x) implies exists|i: int|
                    0 <= i < self.entries@.len() && self.entries@[i].0 == x by {
                    if x == id {
                        assert(self.entries@[k as int].0 == x);
                    } else {
                        let i = choose|i: int| 0 <= i < before.len() && before[i].0 == x;
                        assert(self.entries@[i].0 == x);
                    }
                }
            },
            None => {
                self.entries.push((id, pattern));
                self.model = Ghost(self.model@.insert(id, p));
                assert forall|i: int| 0 <= i < self.entries@.len() implies {
                    &&& self.model@.contains_key(#[trigger] self.entries@[i].0)
                    &&& self.model@[self.entries@[i].0] == self.entries@[i].1@
                } by {
                    if i < before.len() {
                        assert(self.entries@[i] == before[i]);
                        assert(before[i].0 != id);
                    }
                }
                assert forall|x: usize| #[trigger] self.model@.contains_key(x) implies exists|i: int|
                    0 <= i < self.entries@.len() && self.entries@[i].0 == x by {
                    if x == id {
                        assert(self.entries@[before.len() as int].0 == x);
                    } else {
                        let i = choose|i: int| 0 <= i < before.len() && before[i].0 == x;
                        assert(self.entries@[i] == before[i]);
                    }
                }
            },
        }
    }

    fn remove(&mut self, id: usize)
        requires
            old(self).wf(),
        ensures
            final(self).wf(),
            final(self)@ == old(self)@.remove(id),
    {
        let ghost before = self.entries@;
        match self.position(id) {
            Some(k) => {
                self.entries.remove(k);
                self.model = Ghost(self.model@.remove(id));
                assert(self.entries@ == before.remove(k as int));
                assert forall|i: int| 0 <= i < self.entries@.len() implies {
                    &&& self.model@.contains_key(#[trigger] self.entries@[i].0)
                    &&& self.model@[self.entries@[i].0] == self.entries@[i].1@
                } by {
                    let bi = if i < k { i } else { i + 1 };
                    assert(self.entries@[i] == before[bi]);
                    assert(before[bi].0 != id);
                }
                assert forall|i: int, j: int| 0 <= i < j < self.entries@.len() implies
                    self.entries@[i].0 != self.entries@[j].0 by {
                    let bi = if i < k { i } else { i + 1 };
                    let bj = if j < k { j } else { j + 1 };
                    assert(self.entries@[i] == before[bi]);
                    assert(self.entries@[j] == before[bj]);
                }
                assert forall|x: usize| #[trigger] self.model@.contains_key(x) implies exists|i: int|
                    0 <= i < self.entries@.len() && self.entries@[i].0 == x by {
                    let b = choose|b: int| 0 <= b < before.len() && before[b].0 == x;
                    assert(b != k);
                    let i = if b < k { b } else { b - 1 };
                    assert(self.entries@[i] == before[b]);
                }
            },
            None => {
                assert(self.model@.remove(id) =~= self.model@);
            },
        }
    }

    /// Applies update messages in the order given.
    pub fn apply_all(&mut self, msgs: &Vec<ParsedRule>)
        requires
            old(self).wf(),
        ensures
            final(self).wf(),
            final(self)@ == applied_all(old(self)@, msgs@),
    {
        let mut i: usize = 0;
        while i < msgs.len()
            invariant
                self.wf(),
                i <= msgs@.len(),
                self@ == applied_all(old(self)@, msgs@.take(i as int)),
            decreases msgs@.len() - i,
        {
            self.apply(&msgs[i]);
            assert(msgs@.take(i + 1).drop_last() == msgs@.take(i as int));
            i = i + 1;
        }
        assert(msgs@.take(i as int) == msgs@);
    }

    /// Whether some pattern of the snapshot occurs in `chunk`.
    pub fn blocks(&self, chunk: &[u8]) -> (r: bool)
        requires
            self.wf(),
        ensures
            r == blocked(self@, chunk@),
    {
        let mut i: usize = 0;
        while i < self.entries.len()
            invariant
                self.wf(),
                i <= self.entries@.len(),
                forall|k: int| 0 <= k < i ==> !contains_pattern(chunk@, #[trigger] self.entries@[k].1@),
            decreases self.entries@.len() - i,
        {
            assert(self@.contains_key(self.entries@[i as int].0));
            if find_subsequence(chunk, self.entries[i].1.as_slice()).is_some() {
                let ghost id = self.entries@[i as int].0;
                assert(self@.contains_key(id) && contains_pattern(chunk@, self@[id]));
                return true;
            }
            i = i + 1;
        }
        assert forall|id: usize| self@.contains_key(id) implies !contains_pattern(chunk@, #[trigger] self@[id]) by {
            let k = choose|k: int| 0 <= k < self.entries@.len() && self.entries@[k].0 == id;
            assert(self.entries@[k].1@ == self@[id]);
        }
        false
    }
}

} // verus!
