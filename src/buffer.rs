//! The output log of an instance: bytes that only grow, and a flag that goes down once
//! when the log is complete; and the step that a subscriber takes on a snapshot of it.
use vstd::prelude::*;

verus! {

/// An instance's output log.
pub struct InstanceVector {
    data: Vec<u8>,
    alive: bool,
}

impl InstanceVector {
    pub closed spec fn bytes(&self) -> Seq<u8> {
        self.data@
    }

    pub closed spec fn is_alive(&self) -> bool {
        self.alive
    }

    /// An empty, live log.
    pub fn new() -> (r: InstanceVector)
        ensures
            r.bytes() == Seq::<u8>::empty(),
            r.is_alive(),
    {
        InstanceVector { data: Vec::new(), alive: true }
    }

    /// Adds a chunk of output at the end.
    pub fn write(&mut self, chunk: &[u8])
        ensures
            final(self).bytes() == old(self).bytes() + chunk@,
            final(self).is_alive() == old(self).is_alive(),
    {
        let mut i: usize = 0;
        let ghost start = self.data@;
        let ghost was_alive = self.alive;
        while i < chunk.len()
            invariant
                i <= chunk@.len(),
                self.alive == was_alive,
                self.data@ == start + chunk@.subrange(0, i as int),
            decreases chunk@.len() - i,
        {
            self.data.push(chunk[i]);
            assert(chunk@.subrange(0, i + 1) =~= chunk@.subrange(0, i as int).push(chunk@[i as int]));
            i = i + 1;
        }
        assert(chunk@.subrange(0, chunk@.len() as int) =~= chunk@);
    }

    /// Marks the log complete; the bytes stay.
    pub fn finish(&mut self)
        ensures
            final(self).bytes() == old(self).bytes(),
            !final(self).is_alive(),
    {
        self.alive = false;
    }

    pub fn len(&self) -> (r: usize)
        ensures
            r == self.bytes().len(),
    {
        self.data.len()
    }

    pub fn alive(&self) -> (r: bool)
        ensures
            r == self.is_alive(),
    {
        self.alive
    }

    /// The bytes from `offset` on.
    pub fn tail(&self, offset: usize) -> (r: Vec<u8>)
        requires
            offset <= self.bytes().len(),
        ensures
            r@ == self.bytes().subrange(offset as int, self.bytes().len() as int),
    {
        let mut r: Vec<u8> = Vec::new();
        let mut i = offset;
        while i < self.data.len()
            invariant
                offset <= i <= self.data@.len(),
                r@ == self.data@.subrange(offset as int, i as int),
            decreases self.data@.len() - i,
        {
            r.push(self.data[i]);
            assert(self.data@.subrange(offset as int, i + 1) =~= self.data@.subrange(offset as int, i as int).push(
                self.data@[i as int],
            ));
            i = i + 1;
        }
        r
    }
}

/// What a subscriber does next.
#[derive(Debug, PartialEq, Eq)]
pub enum ConsoleStep {
    /// send these bytes; the offset moves to the given position
    Send(Vec<u8>, usize),
    /// nothing new: wait for a change
    Wait,
    /// the log is complete and all of it was sent, or the daemon is shutting down
    Close,
}

/// The subscriber's step as a value: the bytes to send and the new offset, or none.
pub enum StepKind {
    Send(Seq<u8>, nat),
    Wait,
    Close,
}

/// The step a subscriber at `offset` takes on a snapshot of a log.
pub open spec fn step_of(data: Seq<u8>, alive: bool, offset: nat, shutdown: bool) -> StepKind {
    if shutdown {
        StepKind::Close
    } else if offset >= data.len() {
        if alive {
            StepKind::Wait
        } else {
            StepKind::Close
        }
    } else {
        StepKind::Send(data.subrange(offset as int, data.len() as int), data.len())
    }
}

/// The step of a subscriber at `offset`: send what it has not seen, wait while the log
/// is live and fully sent, close when it is complete and fully sent or on shutdown.
pub fn console_step(buffer: &InstanceVector, offset: usize, shutdown: bool) -> (r: ConsoleStep)
    ensures
        match (r, step_of(buffer.bytes(), buffer.is_alive(), offset as nat, shutdown)) {
            (ConsoleStep::Send(b, n), StepKind::Send(sb, sn)) => b@ == sb && n == sn,
            (ConsoleStep::Wait, StepKind::Wait) => true,
            (ConsoleStep::Close, StepKind::Close) => true,
            _ => false,
        },
{
    if shutdown {
        ConsoleStep::Close
    } else if offset >= buffer.len() {
        if buffer.alive() {
            ConsoleStep::Wait
        } else {
            ConsoleStep::Close
        }
    } else {
        ConsoleStep::Send(buffer.tail(offset), buffer.len())
    }
}

/// The bytes a subscriber receives from `offset` on, taking one step on each snapshot
/// in turn and stopping when it closes.
pub open spec fn received(snaps: Seq<(Seq<u8>, bool)>, offset: nat) -> Seq<u8>
    decreases snaps.len(),
{
    if snaps.len() == 0 {
        Seq::empty()
    } else {
        match step_of(snaps[0].0, snaps[0].1, offset, false) {
            StepKind::Send(b, n) => b + received(snaps.drop_first(), n),
            StepKind::Wait => received(snaps.drop_first(), offset),
            StepKind::Close => Seq::empty(),
        }
    }
}

/// Successive snapshots of one log: each one's bytes extend the previous one's, and
/// nothing is added once the log is complete.
pub open spec fn log_history(snaps: Seq<(Seq<u8>, bool)>) -> bool {
    &&& forall|i: int, j: int|
        0 <= i <= j < snaps.len() ==> (#[trigger] snaps[j].0).len() >= (#[trigger] snaps[i].0).len()
            && snaps[j].0.subrange(0, snaps[i].0.len() as int) == snaps[i].0
    &&& forall|i: int, j: int| 0 <= i <= j < snaps.len() && !snaps[i].1 ==> #[trigger] snaps[j].0 == #[trigger] snaps[i].0
}

proof fn lemma_received_tail(snaps: Seq<(Seq<u8>, bool)>, offset: nat)
    requires
        snaps.len() > 0,
        log_history(snaps),
        offset <= snaps[0].0.len(),
    ensures
        received(snaps, offset) == snaps.last().0.subrange(offset as int, snaps.last().0.len() as int),
    decreases snaps.len(),
{
    let d = snaps[0].0;
    let last = snaps.last().0;
    assert(last.len() >= d.len() && last.subrange(0, d.len() as int) == d);
    let rest = snaps.drop_first();
    if rest.len() > 0 {
        assert(log_history(rest)) by {
            assert forall|i: int, j: int| 0 <= i <= j < rest.len() implies (#[trigger] rest[j].0).len()
                >= (#[trigger] rest[i].0).len() && rest[j].0.subrange(0, rest[i].0.len() as int)
                == rest[i].0 by {
                assert(rest[j] == snaps[j + 1] && rest[i] == snaps[i + 1]);
            }
            assert forall|i: int, j: int| 0 <= i <= j < rest.len() && !rest[i].1 implies #[trigger] rest[j].0
                == #[trigger] rest[i].0 by {
                assert(rest[j] == snaps[j + 1] && rest[i] == snaps[i + 1]);
            }
        }
        assert(rest[0] == snaps[1]);
        assert(rest.last() == snaps.last());
    }
    if offset < d.len() {
        assert(received(snaps, offset) == d.subrange(offset as int, d.len() as int) + received(rest, d.len()));
        if rest.len() > 0 {
            lemma_received_tail(rest, d.len());
            assert(d.subrange(offset as int, d.len() as int) + last.subrange(d.len() as int, last.len() as int)
                =~= last.subrange(offset as int, last.len() as int));
        } else {
            assert(snaps.len() == 1);
            assert(d.subrange(offset as int, d.len() as int) + Seq::<u8>::empty() =~= last.subrange(
                offset as int,
                last.len() as int,
            ));
        }
    } else if snaps[0].1 {
        assert(received(snaps, offset) == received(rest, offset));
        if rest.len() > 0 {
            lemma_received_tail(rest, offset);
        } else {
            assert(last.subrange(offset as int, last.len() as int) =~= Seq::<u8>::empty());
        }
    } else {
        assert(received(snaps, offset) == Seq::<u8>::empty());
        assert(last == d);
        assert(last.subrange(offset as int, last.len() as int) =~= Seq::<u8>::empty());
    }
}

/// A subscriber that starts at offset 0 and steps through successive snapshots of a log
/// receives all of the log's bytes, in order; on the complete log it then closes.
pub proof fn lemma_subscriber_receives_all(snaps: Seq<(Seq<u8>, bool)>)
    requires
        snaps.len() > 0,
        log_history(snaps),
        !snaps.last().1,
    ensures
        received(snaps, 0) == snaps.last().0,
        step_of(snaps.last().0, snaps.last().1, snaps.last().0.len(), false) is Close,
{
    lemma_received_tail(snaps, 0);
    assert(snaps.last().0.subrange(0, snaps.last().0.len() as int) =~= snaps.last().0);
}

} // verus!
