//! Part reader: cuts a file, read front to back, into the parts of its plan.
//!
//! The reader says how many bytes the next read must deliver and takes what
//! was read; the caller does the reading.

use crate::error::TransferError;
use crate::plan::{
    lemma_part_len_bounds, lemma_total_parts_is_ceiling, part_len, part_len_of, part_offset_of,
    total_parts, total_parts_of,
};
use crate::session::{covers, is_part_prefix, part_numbers, payload_bytes, PartTask};
use vstd::prelude::*;

verus! {

/// The read that yields the next part: where it starts and how long it is.
#[derive(Clone, Copy, Debug, PartialEq, Eq, Structural)]
pub struct ReadRequest {
    pub part_number: u64,
    pub offset: u64,
    pub len: u64,
}

/// Reads the parts of one file in increasing order.
pub struct PartReader {
    file_size: u64,
    part_size: u64,
    parts: Vec<PartTask>,
}

/// What the error says when a read delivered another number of bytes than
/// the part has.
pub open spec fn short_read() -> Seq<char> {
    "read ended before the part was complete"@
}

/// What the error says when bytes arrive after the last part.
pub open spec fn surplus_read() -> Seq<char> {
    "read past the last part"@
}

/// What the error says when the parts are asked for before all are read.
pub open spec fn unfinished_read() -> Seq<char> {
    "file was not read to its end"@
}

impl PartReader {
    /// Size of the file being read.
    pub closed spec fn file_size(&self) -> int {
        self.file_size as int
    }

    /// Size of every part but the last.
    pub closed spec fn part_size(&self) -> int {
        self.part_size as int
    }

    /// The parts read so far.
    pub closed spec fn parts(&self) -> Seq<PartTask> {
        self.parts@
    }

    /// Number of parts that the file has.
    pub open spec fn total(&self) -> int {
        total_parts_of(self.file_size(), self.part_size())
    }

    /// The parts read so far are the first parts of the file.
    pub open spec fn wf(&self) -> bool {
        &&& self.part_size() > 0
        &&& 0 <= self.file_size() <= u64::MAX
        &&& is_part_prefix(self.parts(), self.file_size(), self.part_size())
    }

    /// A reader at the start of a file of `file_size` bytes.
    pub fn new(file_size: u64, part_size: u64) -> (reader: PartReader)
        requires
            part_size > 0,
        ensures
            reader.wf(),
            reader.file_size() == file_size,
            reader.part_size() == part_size,
            reader.parts() == Seq::<PartTask>::empty(),
    {
        proof {
            lemma_total_parts_is_ceiling(file_size as int, part_size as int);
            crate::plan::lemma_total_parts_split(file_size as int, part_size as int);
        }
        PartReader { file_size, part_size, parts: Vec::new() }
    }

    /// Whether every part has been read.
    pub fn is_complete(&self) -> (done: bool)
        requires
            self.wf(),
        ensures
            done == (self.parts().len() == self.total()),
    {
        self.parts.len() as u64 == total_parts(self.file_size, self.part_size)
    }

    /// The next read: the part after those read so far, which starts where
    /// the bytes read so far end. None once the file is read to its end.
    pub fn next_request(&self) -> (request: Option<ReadRequest>)
        requires
            self.wf(),
        ensures
            request is Some <==> self.parts().len() < self.total(),
            request matches Some(q) ==> q.part_number == self.parts().len() + 1 && q.offset
                == part_offset_of(self.part_size(), q.part_number as int) && q.len == part_len_of(
                self.file_size(),
                self.part_size(),
                q.part_number as int,
            ) && 1 <= q.len <= self.part_size() && q.offset + q.len <= self.file_size()
                && q.offset == payload_bytes(self.parts()),
    {
        let total: u64 = total_parts(self.file_size, self.part_size);
        let read: u64 = self.parts.len() as u64;
        if read < total {
            let part_number: u64 = read + 1;
            proof {
                lemma_part_len_bounds(
                    self.file_size as int,
                    self.part_size as int,
                    part_number as int,
                );
                lemma_prefix_bytes(self.parts@, self.file_size as int, self.part_size as int);
            }
            Some(
                ReadRequest {
                    part_number,
                    offset: crate::plan::part_offset(self.file_size, self.part_size, part_number),
                    len: part_len(self.file_size, self.part_size, part_number),
                },
            )
        } else {
            None
        }
    }

    /// Takes the bytes that the next read delivered and makes them the next
    /// part. Bytes of another length than the part has, or bytes after the
    /// last part, are an I/O failure and leave the reader as it was.
    pub fn accept(&mut self, payload: Vec<u8>) -> (r: Result<(), TransferError>)
        requires
            old(self).wf(),
        ensures
            final(self).wf(),
            final(self).file_size() == old(self).file_size(),
            final(self).part_size() == old(self).part_size(),
            r is Ok <==> old(self).parts().len() < old(self).total() && payload@.len()
                == part_len_of(
                old(self).file_size(),
                old(self).part_size(),
                old(self).parts().len() as int + 1,
            ),
            r is Ok ==> final(self).parts() == old(self).parts().push(
                PartTask { part_number: (old(self).parts().len() + 1) as u64, payload },
            ),
            r is Err ==> final(self).parts() == old(self).parts(),
            r matches Err(e) ==> e matches TransferError::Io(m) && m@ == (if old(self).parts().len()
                < old(self).total() {
                short_read()
            } else {
                surplus_read()
            }),
    {
        let total: u64 = total_parts(self.file_size, self.part_size);
        let read: u64 = self.parts.len() as u64;
        if read >= total {
            return Err(TransferError::Io("read past the last part".to_owned()));
        }
        let part_number: u64 = read + 1;
        let expected: u64 = part_len(self.file_size, self.part_size, part_number);
        if payload.len() as u64 != expected {
            return Err(TransferError::Io("read ended before the part was complete".to_owned()));
        }
        let ghost before = self.parts@;
        let part = PartTask { part_number, payload };
        self.parts.push(part);
        proof {
            let after = self.parts@;
            assert forall|i: int| 0 <= i < after.len() implies (#[trigger] after[i]).part_number
                == i + 1 && after[i].payload@.len() == part_len_of(
                self.file_size as int,
                self.part_size as int,
                i + 1,
            ) by {
                if i < before.len() {
                    assert(after[i] == before[i]);
                }
            }
        }
        Ok(())
    }

    /// Hands out the parts once the file is read to its end; before that,
    /// an I/O failure.
    pub fn finish(self) -> (r: Result<Vec<PartTask>, TransferError>)
        requires
            self.wf(),
        ensures
            r is Ok <==> self.parts().len() == self.total(),
            r matches Ok(parts) ==> parts@ == self.parts() && covers(
                parts@,
                self.file_size(),
                self.part_size(),
            ),
            r matches Err(e) ==> e matches TransferError::Io(m) && m@ == unfinished_read(),
    {
        if self.parts.len() as u64 == total_parts(self.file_size, self.part_size) {
            Ok(self.parts)
        } else {
            Err(TransferError::Io("file was not read to its end".to_owned()))
        }
    }
}

/// The bytes of the first `parts.len()` parts of a file: full parts, but
/// for a last part that ends the file.
pub proof fn lemma_prefix_bytes(parts: Seq<PartTask>, file_size: int, part_size: int)
    requires
        part_size > 0,
        file_size >= 0,
        is_part_prefix(parts, file_size, part_size),
    ensures
        parts.len() < total_parts_of(file_size, part_size) ==> payload_bytes(parts) == parts.len()
            * part_size,
        parts.len() == total_parts_of(file_size, part_size) ==> payload_bytes(parts) == file_size,
        0 <= payload_bytes(parts) <= file_size,
    decreases parts.len(),
{
    let total = total_parts_of(file_size, part_size);
    lemma_total_parts_is_ceiling(file_size, part_size);
    if parts.len() == 0 {
        assert(0 * part_size == 0);
    } else {
        let front = parts.drop_last();
        let n = parts.len() as int;
        assert(is_part_prefix(front, file_size, part_size)) by {
            assert forall|i: int| 0 <= i < front.len() implies (#[trigger] front[i]).part_number
                == i + 1 && front[i].payload@.len() == part_len_of(file_size, part_size, i + 1) by {
                assert(front[i] == parts[i]);
            }
        }
        lemma_prefix_bytes(front, file_size, part_size);
        let last = parts[n - 1];
        assert(last.payload@.len() == part_len_of(file_size, part_size, n));
        lemma_part_len_bounds(file_size, part_size, n);
        assert(payload_bytes(front) == (n - 1) * part_size);
        assert(n * part_size == (n - 1) * part_size + part_size) by (nonlinear_arith);
    }
}

/// Reading a file to its end yields as many buffers as the plan has parts;
/// their lengths add up to the file size; every buffer but the last is a
/// full part, and the last holds between one byte and a full part.
pub proof fn lemma_parts_cover_file(parts: Seq<PartTask>, file_size: int, part_size: int)
    requires
        part_size > 0,
        file_size >= 0,
        covers(parts, file_size, part_size),
    ensures
        parts.len() == total_parts_of(file_size, part_size),
        payload_bytes(parts) == file_size,
        forall|i: int|
            0 <= i < parts.len() - 1 ==> (#[trigger] parts[i]).payload@.len() == part_size,
        parts.len() > 0 ==> 1 <= parts.last().payload@.len() <= part_size,
{
    lemma_prefix_bytes(parts, file_size, part_size);
    assert forall|i: int| 0 <= i < parts.len() - 1 implies (#[trigger] parts[i]).payload@.len()
        == part_size by {
        lemma_part_len_bounds(file_size, part_size, i + 1);
    }
    if parts.len() > 0 {
        lemma_part_len_bounds(file_size, part_size, parts.len() as int);
    }
}

/// The part numbers of a file read to its end are 1, 2, .., the part count:
/// ascending, without gap or repetition.
pub proof fn lemma_part_numbers_contiguous(parts: Seq<PartTask>, file_size: int, part_size: int)
    requires
        part_size > 0,
        file_size >= 0,
        covers(parts, file_size, part_size),
    ensures
        part_numbers(parts) == Seq::new(
            total_parts_of(file_size, part_size) as nat,
            |i: int| i + 1,
        ),
        forall|i: int, j: int|
            0 <= i < j < parts.len() ==> (#[trigger] parts[i]).part_number < (
            #[trigger] parts[j]).part_number,
        forall|n: int|
            1 <= n <= total_parts_of(file_size, part_size) ==> (#[trigger] parts[n
                - 1]).part_number == n,
{
    assert(part_numbers(parts) =~= Seq::new(
        total_parts_of(file_size, part_size) as nat,
        |i: int| i + 1,
    ));
}

} // verus!
