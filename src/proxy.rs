//! Decisions of the data plane: what a service worker does when it accepts a
//! connection, and what one relay half does with each read.
use vstd::prelude::*;

use crate::matcher::{contains_pattern, occurs_at};
use crate::rule::ParsedRule;
use crate::snapshot::{applied_all, blocked, Snapshot};

verus! {

/// Size of the buffer that one read fills. Screening sees one such chunk at a
/// time, so a pattern split across two reads is not seen.
pub const CHUNK_SIZE: usize = 1024;

/// A read error, as far as the relay tells them apart.
#[derive(Clone, Copy, Debug, PartialEq, Eq, Structural)]
pub enum ReadErrorKind {
    ConnectionReset,
    ConnectionAborted,
    Other,
}

/// How an awaited read ended: bytes (none at end of stream), an error, or the
/// shared cancellation firing first.
#[derive(Clone, Copy, Debug, PartialEq, Eq, Structural)]
pub enum ReadOutcome {
    Data,
    Failed(ReadErrorKind),
    Cancelled,
}

/// What the relay half does next.
#[derive(Clone, Copy, Debug, PartialEq, Eq, Structural)]
pub enum RelayAction {
    /// Write the whole chunk to the other side and read again.
    Forward,
    /// Stop cleanly, having copied this many bytes; the peer half is cancelled.
    Finish(u64),
    /// A rule matched: discard the chunk and stop with this many bytes copied;
    /// the peer half is cancelled.
    Drop(u64),
    /// Stop with the read error.
    Fail,
}

/// The next action of a half that has copied `copied` bytes, screens with
/// `screen` (if it is the client-to-upstream half), and read `chunk`.
pub open spec fn next_action(
    copied: u64,
    screen: Option<Map<usize, Seq<u8>>>,
    outcome: ReadOutcome,
    chunk: Seq<u8>,
) -> RelayAction {
    match outcome {
        ReadOutcome::Cancelled => RelayAction::Finish(copied),
        ReadOutcome::Failed(ReadErrorKind::Other) => RelayAction::Fail,
        ReadOutcome::Failed(_) => RelayAction::Finish(copied),
        ReadOutcome::Data => if chunk.len() == 0 {
            RelayAction::Finish(copied)
        } else if screen matches Some(rules) && blocked(rules, chunk) {
            RelayAction::Drop(copied)
        } else {
            RelayAction::Forward
        },
    }
}

/// The bytes of `chunks`, one chunk after another.
pub open spec fn concat_chunks(chunks: Seq<Seq<u8>>) -> Seq<u8>
    decreases chunks.len(),
{
    if chunks.len() == 0 {
        Seq::empty()
    } else {
        chunks[0] + concat_chunks(chunks.drop_first())
    }
}

/// A relay half that has copied `copied` bytes, when its reads return `chunks`
/// and then the end of the stream and the cancellation does not fire: the bytes
/// it writes, and the action it stops with. Each read is decided by
/// `next_action`, as `RelayHalf::step` does; a forward that would overflow the
/// counter stops the run.
pub open spec fn relay_run(copied: u64, screen: Option<Map<usize, Seq<u8>>>, chunks: Seq<Seq<u8>>) -> (
    Seq<u8>,
    RelayAction,
)
    decreases chunks.len(),
{
    if chunks.len() == 0 {
        (Seq::empty(), next_action(copied, screen, ReadOutcome::Data, Seq::empty()))
    } else {
        let a = next_action(copied, screen, ReadOutcome::Data, chunks[0]);
        if a == RelayAction::Forward && copied + chunks[0].len() <= u64::MAX {
            let rest = relay_run((copied + chunks[0].len()) as u64, screen, chunks.drop_first());
            (chunks[0] + rest.0, rest.1)
        } else {
            (Seq::empty(), a)
        }
    }
}

/// When no chunk by itself holds a pattern, every chunk is written in order and
/// the half finishes with all their bytes counted.
pub proof fn lemma_unblocked_chunks_forwarded(
    copied: u64,
    screen: Option<Map<usize, Seq<u8>>>,
    chunks: Seq<Seq<u8>>,
)
    requires
        forall|i: int| 0 <= i < chunks.len() ==> (#[trigger] chunks[i]).len() > 0,
        forall|i: int| 0 <= i < chunks.len() ==> !(screen matches Some(m) && blocked(m, #[trigger] chunks[i])),
        copied + concat_chunks(chunks).len() <= u64::MAX,
    ensures
        relay_run(copied, screen, chunks) == (
            concat_chunks(chunks),
            RelayAction::Finish((copied + concat_chunks(chunks).len()) as u64),
        ),
    decreases chunks.len(),
{
    if chunks.len() > 0 {
        let rest = chunks.drop_first();
        assert forall|i: int| 0 <= i < rest.len() implies (#[trigger] rest[i]).len() > 0 by {
            assert(rest[i] == chunks[i + 1]);
        }
        assert forall|i: int| 0 <= i < rest.len() implies !(screen matches Some(m) && blocked(m, #[trigger] rest[i])) by {
            assert(rest[i] == chunks[i + 1]);
        }
        assert(chunks[0].len() > 0);
        lemma_unblocked_chunks_forwarded((copied + chunks[0].len()) as u64, screen, rest);
    }
}

/// Without rules, everything read is written, in order, up to the end of the
/// stream, in either direction.
pub proof fn lemma_no_rules_forwards(copied: u64, chunks: Seq<Seq<u8>>)
    requires
        forall|i: int| 0 <= i < chunks.len() ==> (#[trigger] chunks[i]).len() > 0,
        copied + concat_chunks(chunks).len() <= u64::MAX,
    ensures
        relay_run(copied, None, chunks) == (
            concat_chunks(chunks),
            RelayAction::Finish((copied + concat_chunks(chunks).len()) as u64),
        ),
        relay_run(copied, Some(Map::<usize, Seq<u8>>::empty()), chunks) == (
            concat_chunks(chunks),
            RelayAction::Finish((copied + concat_chunks(chunks).len()) as u64),
        ),
{
    lemma_unblocked_chunks_forwarded(copied, None, chunks);
    lemma_unblocked_chunks_forwarded(copied, Some(Map::<usize, Seq<u8>>::empty()), chunks);
}

/// A pattern split over two reads, neither of which holds it whole, is not
/// seen: both chunks are written.
pub proof fn lemma_split_pattern_not_seen(copied: u64, rules: Map<usize, Seq<u8>>, first: Seq<u8>, second: Seq<u8>)
    requires
        first.len() > 0,
        second.len() > 0,
        !blocked(rules, first),
        !blocked(rules, second),
        copied + first.len() + second.len() <= u64::MAX,
    ensures
        relay_run(copied, Some(rules), seq![first, second]) == (
            first + second,
            RelayAction::Finish((copied + first.len() + second.len()) as u64),
        ),
{
    let chunks = seq![first, second];
    assert(chunks.drop_first() =~= seq![second]);
    assert(seq![second].drop_first() =~= Seq::<Seq<u8>>::empty());
    assert(concat_chunks(Seq::<Seq<u8>>::empty()) == Seq::<u8>::empty());
    assert(concat_chunks(seq![second]) =~= second);
    assert(concat_chunks(chunks) =~= first + second);
    lemma_unblocked_chunks_forwarded(copied, Some(rules), chunks);
}

/// The first chunk that holds a pattern of the screening half is not written,
/// nor anything after it: the half stops there with the bytes before it counted.
pub proof fn lemma_first_blocked_chunk_dropped(
    copied: u64,
    rules: Map<usize, Seq<u8>>,
    chunks: Seq<Seq<u8>>,
    k: int,
)
    requires
        0 <= k < chunks.len(),
        forall|i: int| 0 <= i < chunks.len() ==> (#[trigger] chunks[i]).len() > 0,
        forall|i: int| 0 <= i < k ==> !blocked(rules, #[trigger] chunks[i]),
        blocked(rules, chunks[k]),
        copied + concat_chunks(chunks.take(k)).len() <= u64::MAX,
    ensures
        relay_run(copied, Some(rules), chunks) == (
            concat_chunks(chunks.take(k)),
            RelayAction::Drop((copied + concat_chunks(chunks.take(k)).len()) as u64),
        ),
    decreases k,
{
    assert(chunks[0].len() > 0);
    if k == 0 {
        assert(chunks.take(0) =~= Seq::<Seq<u8>>::empty());
    } else {
        let rest = chunks.drop_first();
        assert(chunks.take(k).drop_first() =~= rest.take(k - 1));
        assert(chunks.take(k)[0] == chunks[0]);
        assert forall|i: int| 0 <= i < rest.len() implies (#[trigger] rest[i]).len() > 0 by {
            assert(rest[i] == chunks[i + 1]);
        }
        assert forall|i: int| 0 <= i < k - 1 implies !blocked(rules, #[trigger] rest[i]) by {
            assert(rest[i] == chunks[i + 1]);
        }
        assert(rest[k - 1] == chunks[k]);
        assert(!blocked(rules, chunks[0]));
        lemma_first_blocked_chunk_dropped((copied + chunks[0].len()) as u64, rules, rest, k - 1);
    }
}

/// A chunk that holds the pattern of an active rule (patterns are never empty)
/// is not forwarded: the screening half stops.
pub proof fn lemma_matching_chunk_dropped(
    copied: u64,
    rules: Map<usize, Seq<u8>>,
    id: usize,
    chunk: Seq<u8>,
)
    requires
        rules.contains_key(id),
        rules[id].len() > 0,
        contains_pattern(chunk, rules[id]),
    ensures
        next_action(copied, Some(rules), ReadOutcome::Data, chunk) == RelayAction::Drop(copied),
{
    let i = choose|i: int| occurs_at(chunk, rules[id], i);
    assert(chunk.len() >= i + rules[id].len());
    assert(blocked(rules, chunk));
}

/// One direction of a proxied connection.
pub struct RelayHalf {
    pub copied: u64,
    pub screen: Option<Snapshot>,
}

impl RelayHalf {
    /// The rules this half screens with, if any.
    pub open spec fn screen_view(&self) -> Option<Map<usize, Seq<u8>>> {
        match self.screen {
            Some(s) => Some(s@),
            None => None,
        }
    }

    pub open spec fn wf(&self) -> bool {
        self.screen matches Some(s) ==> s.wf()
    }

    /// The upstream-to-client half, which forwards without screening.
    pub fn upstream() -> (r: RelayHalf)
        ensures
            r.wf(),
            r.copied == 0,
            r.screen_view() is None,
    {
        RelayHalf { copied: 0, screen: None }
    }

    /// The client-to-upstream half, screening with `rules`.
    pub fn client(rules: Snapshot) -> (r: RelayHalf)
        requires
            rules.wf(),
        ensures
            r.wf(),
            r.copied == 0,
            r.screen_view() == Some(rules@),
    {
        RelayHalf { copied: 0, screen: Some(rules) }
    }

    /// Decides what to do with one read. A forwarded chunk is counted as copied.
    pub fn step(&mut self, outcome: ReadOutcome, chunk: &[u8]) -> (r: RelayAction)
        requires
            old(self).wf(),
            old(self).copied + chunk@.len() <= u64::MAX,
        ensures
            final(self).wf(),
            final(self).screen == old(self).screen,
            r == next_action(old(self).copied, old(self).screen_view(), outcome, chunk@),
            final(self).copied == if r == RelayAction::Forward {
                old(self).copied + chunk@.len()
            } else {
                old(self).copied as int
            },
    {
        match outcome {
            ReadOutcome::Cancelled => RelayAction::Finish(self.copied),
            ReadOutcome::Failed(ReadErrorKind::Other) => RelayAction::Fail,
            ReadOutcome::Failed(_) => RelayAction::Finish(self.copied),
            ReadOutcome::Data => {
                if chunk.len() == 0 {
                    return RelayAction::Finish(self.copied);
                }
                if let Some(rules) = &self.screen {
                    if rules.blocks(chunk) {
                        return RelayAction::Drop(self.copied);
                    }
                }
                self.copied = self.copied + chunk.len() as u64;
                RelayAction::Forward
            },
        }
    }
}

/// The state that a service worker keeps between accepted connections.
pub struct ServiceWorker {
    pub snapshot: Snapshot,
}

impl ServiceWorker {
    pub open spec fn wf(&self) -> bool {
        self.snapshot.wf()
    }

    /// A worker with no rules applied yet.
    pub fn new() -> (r: ServiceWorker)
        ensures
            r.wf(),
            r.snapshot@ == Map::<usize, Seq<u8>>::empty(),
    {
        ServiceWorker { snapshot: Snapshot::new() }
    }

    /// Called once a connection is accepted, with the update messages that were
    /// queued at that moment: applies them in order, then returns the copy of the
    /// snapshot that the new connection screens with.
    pub fn accept_connection(&mut self, queued: &Vec<ParsedRule>) -> (r: Snapshot)
        requires
            old(self).wf(),
        ensures
            final(self).wf(),
            final(self).snapshot@ == applied_all(old(self).snapshot@, queued@),
            r.wf(),
            r@ == final(self).snapshot@,
    {
        self.snapshot.apply_all(queued);
        self.snapshot.copy()
    }
}

} // verus!
