//! The bridge to a pseudo terminal.

use vstd::prelude::*;

verus! {

/// Data on its way to the terminal, of which the first part may have been
/// written already.
pub struct PendingWrite {
    data: Vec<u8>,
    written: usize,
}

/// How far a write has come.
pub struct Written {
    pub data: Seq<u8>,
    pub count: int,
}

impl View for PendingWrite {
    type V = Written;

    closed spec fn view(&self) -> Written {
        Written { data: self.data@, count: self.written as int }
    }
}

impl PendingWrite {
    #[verifier::type_invariant]
    spec fn within_data(self) -> bool {
        self.written <= self.data@.len()
    }

    /// Nothing of the data has been written.
    pub fn new(data: Vec<u8>) -> (pending: Self)
        ensures
            pending@ == (Written { data: data@, count: 0 }),
    {
        PendingWrite { data, written: 0 }
    }

    /// What is still to be written: the data behind what has been. Nothing is
    /// left once all of it has been written.
    pub fn remaining(&self) -> (rest: &[u8])
        ensures
            0 <= self@.count <= self@.data.len(),
            rest@ == self@.data.skip(self@.count),
    {
        proof {
            use_type_invariant(self);
        }
        let rest = vstd::slice::slice_subrange(
            self.data.as_slice(),
            self.written,
            self.data.len(),
        );
        assert(rest@ == self.data@.skip(self.written as int));
        rest
    }

    /// So many more bytes have been written; never more than there were.
    pub fn advance(&mut self, count: usize)
        ensures
            final(self)@ == (Written {
                count: if old(self)@.count + count <= old(self)@.data.len() {
                    old(self)@.count + count
                } else {
                    old(self)@.data.len() as int
                },
                ..old(self)@
            }),
    {
        proof {
            use_type_invariant(&*self);
        }
        let left: usize = self.data.len() - self.written;
        self.written = if count <= left {
            self.written + count
        } else {
            self.data.len()
        };
    }

    /// Whether all of the data has been written.
    pub fn is_done(&self) -> (done: bool)
        ensures
            done == (self@.count == self@.data.len()),
    {
        proof {
            use_type_invariant(self);
        }
        self.written == self.data.len()
    }
}

/// What has been written after some partial writes, each of the first bytes
/// of what was left.
pub open spec fn written_after(data: Seq<u8>, counts: Seq<nat>) -> Seq<u8>
    decreases counts.len(),
{
    if counts.len() == 0 {
        seq![]
    } else {
        let before = written_after(data, counts.drop_last());
        before + data.skip(before.len() as int).take(counts.last() as int)
    }
}

/// Partial writes put the data out in order, with nothing lost or repeated,
/// whatever the size of each: what has been written is the start of the
/// data.
pub proof fn partial_writes_keep_the_order(data: Seq<u8>, counts: Seq<nat>)
    requires
        forall|k: int|
            0 <= k < counts.len() ==> (#[trigger] written_after(data, counts.take(k))).len()
                + counts[k] <= data.len(),
    ensures
        written_after(data, counts).is_prefix_of(data),
    decreases counts.len(),
{
    if counts.len() > 0 {
        let earlier = counts.drop_last();
        let last = counts.len() - 1;
        assert(counts.take(last) == earlier);
        assert(written_after(data, counts.take(last)).len() + counts[last] <= data.len());
        assert forall|k: int| 0 <= k < earlier.len() implies (#[trigger] written_after(
            data,
            earlier.take(k),
        )).len() + earlier[k] <= data.len() by {
            assert(earlier.take(k) == counts.take(k));
            assert(written_after(data, counts.take(k)).len() + counts[k] <= data.len());
        }
        partial_writes_keep_the_order(data, earlier);
        let before = written_after(data, earlier);
        let part = data.skip(before.len() as int).take(counts.last() as int);
        assert(before + part == data.take((before.len() + counts.last()) as int));
    }
}

/// What came of reading from the terminal.
pub enum PtyRead {
    /// Nothing yet.
    WouldBlock,
    /// These bytes.
    Data(Vec<u8>),
    /// The terminal was closed.
    Closed,
    /// Reading failed.
    Failed,
}

/// What the bridge does about what it read.
#[derive(Debug, Clone, PartialEq)]
pub enum PtyAction {
    /// Go on.
    Wait,
    /// Send these bytes to the serial port and go on.
    ToSerial(Vec<u8>),
    /// End the bridge.
    Stop,
}

/// Decides what to do about what was read.
pub fn pty_step(read: PtyRead) -> (action: PtyAction)
    ensures
        match read {
            PtyRead::WouldBlock => action is Wait,
            PtyRead::Data(bytes) => action == PtyAction::ToSerial(bytes),
            PtyRead::Closed | PtyRead::Failed => action is Stop,
        },
{
    match read {
        PtyRead::WouldBlock => PtyAction::Wait,
        PtyRead::Data(bytes) => PtyAction::ToSerial(bytes),
        PtyRead::Closed => PtyAction::Stop,
        PtyRead::Failed => PtyAction::Stop,
    }
}

/// What is still to be written is what has not been: with what has been it is all
/// of the data.
pub proof fn nothing_is_left_out(pending: &PendingWrite, rest: &[u8], done: bool)
    requires
        call_ensures(PendingWrite::remaining, (pending,), rest),
        call_ensures(PendingWrite::is_done, (pending,), done),
    ensures
        pending@.data.take(pending@.count) + rest@ == pending@.data,
        done <==> rest@.len() == 0,
{
    assert(pending@.data.take(pending@.count) + rest@ == pending@.data);
}

/// A write moves on by as much as was written, and no further than the end.
pub proof fn writes_move_on(count: usize)
    ensures
        forall|pending: &mut PendingWrite| #[trigger]
            call_ensures(PendingWrite::advance, (pending, count), ()) ==> {
                &&& final(pending)@.data == pending@.data
                &&& pending@.count + count <= pending@.data.len() ==> final(pending)@.count
                    == pending@.count + count
                &&& pending@.count + count > pending@.data.len() ==> final(pending)@.count
                    == pending@.data.len()
            },
{
}

/// What was typed at the terminal is sent to the port as it is, and only the end of
/// the terminal ends the bridge.
pub proof fn typed_data_reaches_the_port(bytes: Vec<u8>, action: PtyAction)
    ensures
        call_ensures(pty_step, (PtyRead::Data(bytes),), action) ==> action == PtyAction::ToSerial(
            bytes,
        ),
        call_ensures(pty_step, (PtyRead::WouldBlock,), action) ==> action is Wait,
        call_ensures(pty_step, (PtyRead::Closed,), action) ==> action is Stop,
        call_ensures(pty_step, (PtyRead::Failed,), action) ==> action is Stop,
{
}

} // verus!
