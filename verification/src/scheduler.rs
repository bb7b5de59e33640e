//! Bounded upload scheduler: hands the parts of a session out to at most a
//! fixed number of concurrent uploads and collects their receipts.
//!
//! The scheduler decides; the caller performs the uploads. It asks for the
//! next part with `dispatch`, sends it, and reports how the upload ended
//! with `record_success` or `record_failure`.

use crate::assembler::distinct_numbers;
use crate::error::TransferError;
use crate::progress::Progress;
use crate::reader::lemma_prefix_bytes;
use crate::session::{covers, payload_bytes, CompletedPart, PartTask, UploadSession};
use vstd::prelude::*;

verus! {

/// A part that was handed out: its number and the length of its payload.
#[derive(Clone, Copy, Debug, PartialEq, Eq, Structural)]
pub struct PartSlot {
    pub part_number: u64,
    pub len: u64,
}

/// The state of the uploads of one session.
pub struct UploadScheduler {
    worker_limit: usize,
    total_parts: u64,
    queue: Vec<PartTask>,
    in_flight: Vec<PartSlot>,
    completed: Vec<CompletedPart>,
    failed: Vec<PartSlot>,
    failure: Option<String>,
    progress: Progress,
}

/// The bytes of the parts in `slots`.
pub open spec fn slot_bytes(slots: Seq<PartSlot>) -> int
    decreases slots.len(),
{
    if slots.len() == 0 {
        0
    } else {
        slot_bytes(slots.drop_last()) + slots.last().len
    }
}

/// Whether a part of number `part_number` is among `slots`.
pub open spec fn holds(slots: Seq<PartSlot>, part_number: u64) -> bool {
    exists|i: int| 0 <= i < slots.len() && (#[trigger] slots[i]).part_number == part_number
}

/// The index in `slots` of the part of number `part_number`.
pub open spec fn index_of(slots: Seq<PartSlot>, part_number: u64) -> int {
    choose|i: int| 0 <= i < slots.len() && (#[trigger] slots[i]).part_number == part_number
}

/// No part number occurs twice in `slots`.
pub open spec fn distinct_slots(slots: Seq<PartSlot>) -> bool {
    forall|i: int, j: int|
        0 <= i < j < slots.len() ==> (#[trigger] slots[i]).part_number != (
        #[trigger] slots[j]).part_number
}

/// No part number occurs in both `a` and `b`.
pub open spec fn apart(a: Seq<PartSlot>, b: Seq<PartSlot>) -> bool {
    forall|i: int, j: int|
        0 <= i < a.len() && 0 <= j < b.len() ==> (#[trigger] a[i]).part_number != (
        #[trigger] b[j]).part_number
}

/// No part has both a slot in `a` and a receipt in `done`.
pub open spec fn apart_from_receipts(a: Seq<PartSlot>, done: Seq<CompletedPart>) -> bool {
    forall|i: int, j: int|
        0 <= i < a.len() && 0 <= j < done.len() ==> (#[trigger] a[i]).part_number != (
        #[trigger] done[j]).part_number
}

/// The tag that a receipt gets: the one the remote service sent, or the
/// empty tag where it sent none.
pub open spec fn tag_of(e_tag: Option<String>) -> Seq<char> {
    match e_tag {
        Some(tag) => tag@,
        None => Seq::<char>::empty(),
    }
}

impl UploadScheduler {
    /// The largest number of uploads in flight at once.
    pub closed spec fn worker_limit(&self) -> int {
        self.worker_limit as int
    }

    /// The number of parts of the session.
    pub closed spec fn total_parts(&self) -> int {
        self.total_parts as int
    }

    /// The parts that wait to be handed out, next first.
    pub closed spec fn queue(&self) -> Seq<PartTask> {
        self.queue@
    }

    /// The parts that were handed out and are not reported back.
    pub closed spec fn in_flight(&self) -> Seq<PartSlot> {
        self.in_flight@
    }

    /// The receipts of the parts that were uploaded, in the order reported.
    pub closed spec fn completed(&self) -> Seq<CompletedPart> {
        self.completed@
    }

    /// The parts whose upload failed, in the order reported.
    pub closed spec fn failed(&self) -> Seq<PartSlot> {
        self.failed@
    }

    /// What the first failure said, if an upload failed.
    pub closed spec fn failure(&self) -> Option<Seq<char>> {
        match self.failure {
            Some(message) => Some(message@),
            None => None,
        }
    }

    /// The counter of acknowledged bytes.
    pub closed spec fn progress(&self) -> Progress {
        self.progress
    }

    /// The number of parts handed out so far.
    pub open spec fn dispatched(&self) -> int {
        self.total_parts() - self.queue().len()
    }

    /// Every part is in one place: waiting, in flight, completed or failed.
    /// No more uploads are in flight than the limit allows, and the counter
    /// holds the bytes of the completed parts.
    pub open spec fn wf(&self) -> bool {
        &&& self.progress().wf()
        &&& 0 <= self.worker_limit()
        &&& self.in_flight().len() <= self.worker_limit()
        &&& self.queue().len() <= self.total_parts() <= u64::MAX
        &&& forall|i: int|
            0 <= i < self.queue().len() ==> (#[trigger] self.queue()[i]).part_number
                == self.dispatched() + i + 1
        &&& self.in_flight().len() + self.completed().len() + self.failed().len()
            == self.dispatched()
        &&& forall|i: int|
            0 <= i < self.in_flight().len() ==> 1 <= (#[trigger] self.in_flight()[i]).part_number
                <= self.dispatched()
        &&& forall|i: int|
            0 <= i < self.completed().len() ==> 1 <= (#[trigger] self.completed()[i]).part_number
                <= self.dispatched()
        &&& forall|i: int|
            0 <= i < self.failed().len() ==> 1 <= (#[trigger] self.failed()[i]).part_number
                <= self.dispatched()
        &&& distinct_slots(self.in_flight())
        &&& distinct_slots(self.failed())
        &&& distinct_numbers(self.completed())
        &&& apart(self.in_flight(), self.failed())
        &&& apart_from_receipts(self.in_flight(), self.completed())
        &&& apart_from_receipts(self.failed(), self.completed())
        &&& self.progress().position_of() + slot_bytes(self.in_flight()) + slot_bytes(
            self.failed(),
        ) + payload_bytes(self.queue()) == self.progress().total_of()
        &&& self.failure() is Some <==> self.failed().len() > 0
    }

    /// Nothing waits and nothing is in flight.
    pub open spec fn settled(&self) -> bool {
        self.queue().len() == 0 && self.in_flight().len() == 0
    }

    /// A scheduler for the parts of `session`, none of them handed out yet,
    /// that allows `worker_limit` uploads in flight at once.
    pub fn new(session: &UploadSession, parts: Vec<PartTask>, worker_limit: usize) -> (s:
        UploadScheduler)
        requires
            session.wf(),
            covers(parts@, session.file_size as int, session.part_size as int),
        ensures
            s.wf(),
            s.worker_limit() == worker_limit,
            s.total_parts() == session.total_parts,
            s.queue() == parts@,
            s.in_flight().len() == 0,
            s.completed().len() == 0,
            s.failed().len() == 0,
            s.failure() is None,
            s.progress().position_of() == 0,
            s.progress().total_of() == session.file_size,
            !s.progress().finished_of(),
    {
        proof {
            lemma_prefix_bytes(parts@, session.file_size as int, session.part_size as int);
        }
        let s = UploadScheduler {
            worker_limit,
            total_parts: session.total_parts,
            queue: parts,
            in_flight: Vec::new(),
            completed: Vec::new(),
            failed: Vec::new(),
            failure: None,
            progress: Progress::new(session.file_size),
        };
        assert(slot_bytes(s.in_flight()) == 0);
        assert(slot_bytes(s.failed()) == 0);
        s
    }

    /// Hands out the next waiting part, if an upload may start: a part
    /// waits, and fewer uploads than the limit are in flight. The part is
    /// then in flight until it is reported back.
    pub fn dispatch(&mut self) -> (task: Option<PartTask>)
        requires
            old(self).wf(),
        ensures
            final(self).wf(),
            final(self).in_flight().len() <= final(self).worker_limit(),
            final(self).worker_limit() == old(self).worker_limit(),
            final(self).total_parts() == old(self).total_parts(),
            final(self).completed() == old(self).completed(),
            final(self).failed() == old(self).failed(),
            final(self).failure() == old(self).failure(),
            final(self).progress() == old(self).progress(),
            task is Some <==> old(self).in_flight().len() < old(self).worker_limit() && old(
                self,
            ).queue().len() > 0,
            task matches Some(t) ==> t == old(self).queue()[0] && final(self).queue() == old(
                self,
            ).queue().drop_first() && final(self).in_flight() == old(self).in_flight().push(
                PartSlot { part_number: t.part_number, len: t.payload@.len() as u64 },
            ) && t.part_number == old(self).dispatched() + 1,
            task is None ==> final(self).queue() == old(self).queue() && final(self).in_flight()
                == old(self).in_flight(),
    {
        if self.in_flight.len() < self.worker_limit && self.queue.len() > 0 {
            let ghost before = *self;
            let task = self.queue.remove(0);
            let slot = PartSlot { part_number: task.part_number, len: task.payload.len() as u64 };
            self.in_flight.push(slot);
            proof {
                assert(before.queue().remove(0) =~= before.queue().drop_first());
                assert(task == before.queue()[0]);
                lemma_payload_bytes_drop_first(before.queue());
                lemma_slot_bytes_push(before.in_flight(), slot);
                assert forall|i: int| 0 <= i < self.queue().len() implies (
                #[trigger] self.queue()[i]).part_number == self.dispatched() + i + 1 by {
                    assert(self.queue()[i] == before.queue()[i + 1]);
                }
            }
            Some(task)
        } else {
            None
        }
    }

    /// Records that the upload of part `part_number` was acknowledged with
    /// `e_tag`. The part leaves the uploads in flight, its receipt is kept
    /// and its bytes are counted; the answer is the number of those bytes.
    /// A part that is not in flight is not recorded: the answer is `None`
    /// and nothing changes.
    pub fn record_success(&mut self, part_number: u64, e_tag: Option<String>) -> (counted: Option<
        u64,
    >)
        requires
            old(self).wf(),
        ensures
            final(self).wf(),
            final(self).in_flight().len() <= final(self).worker_limit(),
            final(self).worker_limit() == old(self).worker_limit(),
            final(self).total_parts() == old(self).total_parts(),
            final(self).queue() == old(self).queue(),
            final(self).failed() == old(self).failed(),
            final(self).failure() == old(self).failure(),
            final(self).progress().total_of() == old(self).progress().total_of(),
            final(self).progress().finished_of() == old(self).progress().finished_of(),
            counted is Some <==> holds(old(self).in_flight(), part_number),
            counted matches Some(bytes) ==> {
                let at = index_of(old(self).in_flight(), part_number);
                &&& bytes == old(self).in_flight()[at].len
                &&& final(self).in_flight() == old(self).in_flight().remove(at)
                &&& final(self).completed().len() == old(self).completed().len() + 1
                &&& final(self).completed().drop_last() == old(self).completed()
                &&& final(self).completed().last().part_number == part_number
                &&& final(self).completed().last().e_tag@ == tag_of(e_tag)
                &&& final(self).progress().position_of() == old(self).progress().position_of()
                    + bytes
            },
            counted is None ==> final(self).in_flight() == old(self).in_flight()
                && final(self).completed() == old(self).completed()
                && final(self).progress() == old(self).progress(),
    {
        let found = Self::find_slot(&self.in_flight, part_number);
        match found {
            None => None,
            Some(at) => {
                let ghost before = *self;
                proof {
                    before.lemma_slot_index(part_number, at as int);
                }
                let slot = self.in_flight.remove(at);
                let tag = match e_tag {
                    Some(tag) => tag,
                    None => String::new(),
                };
                let receipt = CompletedPart { part_number, e_tag: tag };
                proof {
                    lemma_slot_bytes_remove(before.in_flight(), at as int);
                    assert(slot_bytes(before.in_flight()) >= slot.len) by {
                        lemma_slot_bytes_nonnegative(before.in_flight().remove(at as int));
                    }
                    lemma_slot_bytes_nonnegative(before.failed());
                    lemma_payload_bytes_nonnegative(before.queue());
                }
                self.progress.inc(slot.len);
                self.completed.push(receipt);
                proof {
                    assert(self.completed().drop_last() =~= before.completed());
                    before.lemma_without_slot(at as int, self.in_flight());
                }
                Some(slot.len)
            },
        }
    }

    /// Records that the upload of part `part_number` failed with `message`.
    /// The part leaves the uploads in flight and is kept among the failed
    /// parts; the first failure's message is the one the scheduler reports.
    /// The parts that wait are still handed out. A part that is not in
    /// flight is not recorded: the answer is `false` and nothing changes.
    pub fn record_failure(&mut self, part_number: u64, message: String) -> (recorded: bool)
        requires
            old(self).wf(),
        ensures
            final(self).wf(),
            final(self).in_flight().len() <= final(self).worker_limit(),
            final(self).worker_limit() == old(self).worker_limit(),
            final(self).total_parts() == old(self).total_parts(),
            final(self).queue() == old(self).queue(),
            final(self).completed() == old(self).completed(),
            final(self).progress() == old(self).progress(),
            recorded <==> holds(old(self).in_flight(), part_number),
            recorded ==> {
                let at = index_of(old(self).in_flight(), part_number);
                &&& final(self).in_flight() == old(self).in_flight().remove(at)
                &&& final(self).failed() == old(self).failed().push(old(self).in_flight()[at])
                &&& final(self).failure() == (if old(self).failure() is Some {
                    old(self).failure()
                } else {
                    Some(message@)
                })
            },
            !recorded ==> final(self).in_flight() == old(self).in_flight() && final(self).failed()
                == old(self).failed() && final(self).failure() == old(self).failure(),
    {
        let found = Self::find_slot(&self.in_flight, part_number);
        match found {
            None => false,
            Some(at) => {
                let ghost before = *self;
                proof {
                    before.lemma_slot_index(part_number, at as int);
                }
                let slot = self.in_flight.remove(at);
                self.failed.push(slot);
                if self.failure.is_none() {
                    self.failure = Some(message);
                }
                proof {
                    lemma_slot_bytes_remove(before.in_flight(), at as int);
                    lemma_slot_bytes_push(before.failed(), slot);
                    before.lemma_without_slot(at as int, self.in_flight());
                }
                true
            },
        }
    }

    /// Whether nothing waits and nothing is in flight.
    pub fn is_settled(&self) -> (done: bool)
        ensures
            done == self.settled(),
    {
        self.queue.len() == 0 && self.in_flight.len() == 0
    }

    /// Whether an upload failed.
    pub fn has_failed(&self) -> (failed: bool)
        ensures
            failed == (self.failure() is Some),
    {
        self.failure.is_some()
    }

    /// The number of uploads in flight.
    pub fn in_flight_count(&self) -> (n: usize)
        ensures
            n == self.in_flight().len(),
    {
        self.in_flight.len()
    }

    /// The number of parts that wait to be handed out.
    pub fn queued_count(&self) -> (n: usize)
        ensures
            n == self.queue().len(),
    {
        self.queue.len()
    }

    /// The number of parts whose upload was acknowledged.
    pub fn completed_count(&self) -> (n: usize)
        ensures
            n == self.completed().len(),
    {
        self.completed.len()
    }

    /// The number of parts whose upload failed.
    pub fn failed_count(&self) -> (n: usize)
        ensures
            n == self.failed().len(),
    {
        self.failed.len()
    }

    /// The bytes acknowledged so far.
    pub fn transferred(&self) -> (bytes: u64)
        ensures
            bytes == self.progress().position_of(),
    {
        self.progress.position()
    }

    /// The counter of acknowledged bytes, as it stands.
    pub fn progress_snapshot(&self) -> (p: Progress)
        ensures
            p == self.progress(),
    {
        self.progress
    }

    /// Ends the scheduling: the receipts in the order they were reported
    /// if no upload failed, else the first failure as a failure of the
    /// remote service; the receipts of the other parts are then dropped.
    pub fn into_result(self) -> (r: Result<Vec<CompletedPart>, TransferError>)
        requires
            self.wf(),
        ensures
            r is Ok <==> self.failure() is None,
            r matches Ok(receipts) ==> receipts@ == self.completed() && distinct_numbers(receipts@)
                && (self.settled() ==> receipts@.len() == self.total_parts()),
            r matches Err(e) ==> e matches TransferError::RemoteApi(m) && Some(m@)
                == self.failure(),
    {
        match self.failure {
            Some(message) => Err(TransferError::RemoteApi(message)),
            None => Ok(self.completed),
        }
    }

    /// Finds the slot of part `part_number` among `slots`.
    fn find_slot(slots: &Vec<PartSlot>, part_number: u64) -> (at: Option<usize>)
        ensures
            at is Some <==> holds(slots@, part_number),
            at matches Some(i) ==> i < slots@.len() && slots@[i as int].part_number
                == part_number,
    {
        let mut i: usize = 0;
        while i < slots.len()
            invariant
                i <= slots@.len(),
                forall|j: int| 0 <= j < i ==> (#[trigger] slots@[j]).part_number != part_number,
            decreases slots@.len() - i,
        {
            if slots[i].part_number == part_number {
                return Some(i);
            }
            i += 1;
        }
        None
    }

    /// In a well-formed scheduler the slot of a part in flight is found at
    /// one index only.
    proof fn lemma_slot_index(&self, part_number: u64, at: int)
        requires
            self.wf(),
            0 <= at < self.in_flight().len(),
            self.in_flight()[at].part_number == part_number,
        ensures
            index_of(self.in_flight(), part_number) == at,
    {
        let found = index_of(self.in_flight(), part_number);
        assert(0 <= found < self.in_flight().len() && self.in_flight()[found].part_number
            == part_number);
        if found < at {
            assert(self.in_flight()[found].part_number != self.in_flight()[at].part_number);
        } else if at < found {
            assert(self.in_flight()[at].part_number != self.in_flight()[found].part_number);
        }
    }

    /// Taking one slot out of the uploads in flight leaves the others as
    /// they were: in range, distinct, and apart from the failed parts and
    /// from the receipts.
    proof fn lemma_without_slot(&self, at: int, rest: Seq<PartSlot>)
        requires
            self.wf(),
            0 <= at < self.in_flight().len(),
            rest == self.in_flight().remove(at),
        ensures
            distinct_slots(rest),
            apart(rest, self.failed()),
            apart_from_receipts(rest, self.completed()),
            forall|i: int|
                0 <= i < rest.len() ==> 1 <= (#[trigger] rest[i]).part_number
                    <= self.dispatched(),
            forall|i: int|
                0 <= i < rest.len() ==> (#[trigger] rest[i]).part_number
                    != self.in_flight()[at].part_number,
    {
        let all = self.in_flight();
        assert forall|i: int| 0 <= i < rest.len() implies rest[i] == all[if i < at {
            i
        } else {
            i + 1
        }] by {}
    }
}

/// Removing a slot takes its bytes off the sum.
pub proof fn lemma_slot_bytes_remove(slots: Seq<PartSlot>, i: int)
    requires
        0 <= i < slots.len(),
    ensures
        slot_bytes(slots.remove(i)) == slot_bytes(slots) - slots[i].len,
    decreases slots.len(),
{
    if i == slots.len() - 1 {
        assert(slots.remove(i) =~= slots.drop_last());
    } else {
        lemma_slot_bytes_remove(slots.drop_last(), i);
        assert(slots.remove(i).drop_last() =~= slots.drop_last().remove(i));
        assert(slots.remove(i).last() == slots.last());
    }
}

/// Adding a slot adds its bytes to the sum.
pub proof fn lemma_slot_bytes_push(slots: Seq<PartSlot>, slot: PartSlot)
    ensures
        slot_bytes(slots.push(slot)) == slot_bytes(slots) + slot.len,
{
    assert(slots.push(slot).drop_last() =~= slots);
}

/// Taking the first part off a queue takes its bytes off the sum.
pub proof fn lemma_payload_bytes_drop_first(parts: Seq<PartTask>)
    requires
        parts.len() > 0,
    ensures
        payload_bytes(parts.drop_first()) == payload_bytes(parts) - parts[0].payload@.len(),
    decreases parts.len(),
{
    if parts.len() == 1 {
        assert(parts.drop_last().len() == 0);
        assert(payload_bytes(parts.drop_last()) == 0);
        assert(parts.drop_first().len() == 0);
    } else {
        lemma_payload_bytes_drop_first(parts.drop_last());
        assert(parts.drop_first().drop_last() =~= parts.drop_last().drop_first());
        assert(parts.drop_first().last() == parts.last());
        assert(parts.drop_last()[0] == parts[0]);
    }
}

/// The bytes of slots are never negative.
pub proof fn lemma_slot_bytes_nonnegative(slots: Seq<PartSlot>)
    ensures
        slot_bytes(slots) >= 0,
    decreases slots.len(),
{
    if slots.len() > 0 {
        lemma_slot_bytes_nonnegative(slots.drop_last());
    }
}

/// The bytes of parts are never negative.
pub proof fn lemma_payload_bytes_nonnegative(parts: Seq<PartTask>)
    ensures
        payload_bytes(parts) >= 0,
    decreases parts.len(),
{
    if parts.len() > 0 {
        lemma_payload_bytes_nonnegative(parts.drop_last());
    }
}

/// At no time are more uploads in flight than the limit allows.
pub proof fn lemma_in_flight_bounded(s: UploadScheduler)
    requires
        s.wf(),
    ensures
        s.in_flight().len() <= s.worker_limit(),
{
}

/// No part is in two places at once, and none is handed out twice: the
/// parts in flight, completed and failed are distinct parts out of those
/// handed out, and the next part to hand out is a new one.
pub proof fn lemma_no_part_twice(s: UploadScheduler)
    requires
        s.wf(),
    ensures
        distinct_slots(s.in_flight()),
        distinct_slots(s.failed()),
        distinct_numbers(s.completed()),
        apart(s.in_flight(), s.failed()),
        apart_from_receipts(s.in_flight(), s.completed()),
        apart_from_receipts(s.failed(), s.completed()),
        s.in_flight().len() + s.completed().len() + s.failed().len() + s.queue().len()
            == s.total_parts(),
        s.queue().len() > 0 ==> !holds(s.in_flight(), s.queue()[0].part_number) && !holds(
            s.failed(),
            s.queue()[0].part_number,
        ),
{
    if s.queue().len() > 0 {
        assert(s.queue()[0].part_number == s.dispatched() + 1);
    }
}

/// The counter never passes the size of the file, and holds exactly the
/// size of the file once every part is uploaded.
pub proof fn lemma_progress_within_file(s: UploadScheduler)
    requires
        s.wf(),
    ensures
        0 <= s.progress().position_of() <= s.progress().total_of(),
        s.settled() && s.failure() is None ==> s.progress().position_of()
            == s.progress().total_of() && s.completed().len() == s.total_parts(),
{
    lemma_slot_bytes_nonnegative(s.in_flight());
    lemma_slot_bytes_nonnegative(s.failed());
    lemma_payload_bytes_nonnegative(s.queue());
    if s.settled() && s.failure() is None {
        assert(slot_bytes(s.in_flight()) == 0);
        assert(slot_bytes(s.failed()) == 0);
        assert(payload_bytes(s.queue()) == 0);
    }
}

/// While a limit of at least one upload is set and work is left, something
/// can happen: a part can be handed out, or an upload is in flight whose
/// end will be reported. No waiting part is left behind.
pub proof fn lemma_never_stuck(s: UploadScheduler)
    requires
        s.wf(),
        s.worker_limit() >= 1,
        !s.settled(),
    ensures
        s.in_flight().len() > 0 || (s.in_flight().len() < s.worker_limit() && s.queue().len()
            > 0),
{
}

} // verus!
