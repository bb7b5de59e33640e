//! The data of one chunked transfer: the session, its parts and their receipts.

use crate::error::TransferError;
use crate::plan::{part_len_of, total_parts, total_parts_of};
use vstd::prelude::*;

verus! {

/// One part of a file, read into memory and waiting to be sent.
#[derive(Clone, Debug, PartialEq, Eq)]
pub struct PartTask {
    /// Position of the part in the file, counted from 1.
    pub part_number: u64,
    /// The bytes of the part.
    pub payload: Vec<u8>,
}

/// The receipt of one part: its number and the tag the remote service gave it.
#[derive(Clone, Debug, PartialEq, Eq)]
pub struct CompletedPart {
    pub part_number: u64,
    pub e_tag: String,
}

/// One chunked transfer, from its creation to its finalization.
#[derive(Clone, Debug, PartialEq, Eq)]
pub struct UploadSession {
    /// The key of the object that the parts will form.
    pub key: String,
    /// The identifier the remote service gave the session.
    pub upload_id: String,
    /// Size of the file in bytes.
    pub file_size: u64,
    /// Size of every part but the last.
    pub part_size: u64,
    /// Number of parts the file is cut into.
    pub total_parts: u64,
}

/// The first `parts.len()` parts of a file of `file_size` bytes: numbered
/// from 1 without gaps, each as long as the plan says.
pub open spec fn is_part_prefix(parts: Seq<PartTask>, file_size: int, part_size: int) -> bool {
    &&& parts.len() <= total_parts_of(file_size, part_size)
    &&& forall|i: int|
        0 <= i < parts.len() ==> (#[trigger] parts[i]).part_number == i + 1
            && parts[i].payload@.len() == part_len_of(file_size, part_size, i + 1)
}

/// All the parts of a file of `file_size` bytes, in order.
pub open spec fn covers(parts: Seq<PartTask>, file_size: int, part_size: int) -> bool {
    &&& is_part_prefix(parts, file_size, part_size)
    &&& parts.len() == total_parts_of(file_size, part_size)
}

/// The number of payload bytes that `parts` hold together.
pub open spec fn payload_bytes(parts: Seq<PartTask>) -> int
    decreases parts.len(),
{
    if parts.len() == 0 {
        0
    } else {
        payload_bytes(parts.drop_last()) + parts.last().payload@.len()
    }
}

/// The part numbers of `parts`, in their order.
pub open spec fn part_numbers(parts: Seq<PartTask>) -> Seq<int> {
    Seq::new(parts.len(), |i: int| parts[i].part_number as int)
}

impl UploadSession {
    /// The part count agrees with the sizes.
    pub open spec fn wf(&self) -> bool {
        &&& self.part_size > 0
        &&& self.total_parts == total_parts_of(self.file_size as int, self.part_size as int)
    }

    /// Opens the session that the remote service answered with `upload_id`,
    /// for a file of `file_size` bytes cut into parts of `part_size` bytes.
    /// An answer without an identifier is a failure of the remote call.
    pub fn open(key: String, upload_id: Option<String>, file_size: u64, part_size: u64) -> (r:
        Result<UploadSession, TransferError>)
        requires
            part_size > 0,
        ensures
            r is Ok <==> upload_id is Some,
            r matches Ok(s) ==> s.wf() && s.key == key && s.upload_id == upload_id->Some_0
                && s.file_size == file_size && s.part_size == part_size,
            r matches Err(e) ==> e matches TransferError::RemoteApi(m) && m@
                == missing_upload_id(),
    {
        match upload_id {
            Some(id) => Ok(
                UploadSession {
                    key,
                    upload_id: id,
                    file_size,
                    part_size,
                    total_parts: total_parts(file_size, part_size),
                },
            ),
            None => Err(TransferError::RemoteApi("no upload id in the response".to_owned())),
        }
    }

    /// Whether `parts` are all the parts of this session's file, in order.
    pub fn accepts(&self, parts: &Vec<PartTask>) -> (ok: bool)
        requires
            self.wf(),
        ensures
            ok == covers(parts@, self.file_size as int, self.part_size as int),
    {
        if parts.len() as u64 != self.total_parts {
            return false;
        }
        let mut i: usize = 0;
        while i < parts.len()
            invariant
                self.wf(),
                i <= parts.len(),
                parts.len() == self.total_parts,
                is_part_prefix(
                    parts@.subrange(0, i as int),
                    self.file_size as int,
                    self.part_size as int,
                ),
            decreases parts.len() - i,
        {
            let number: u64 = (i as u64) + 1;
            let len: u64 = crate::plan::part_len(self.file_size, self.part_size, number);
            if parts[i].part_number != number || parts[i].payload.len() as u64 != len {
                assert(!is_part_prefix(parts@, self.file_size as int, self.part_size as int)) by {
                    let _ = parts@[i as int];
                }
                return false;
            }
            assert(is_part_prefix(
                parts@.subrange(0, i + 1),
                self.file_size as int,
                self.part_size as int,
            )) by {
                let next = parts@.subrange(0, i + 1);
                let prev = parts@.subrange(0, i as int);
                assert forall|j: int| 0 <= j < next.len() implies (#[trigger] next[j]).part_number
                    == j + 1 && next[j].payload@.len() == part_len_of(
                    self.file_size as int,
                    self.part_size as int,
                    j + 1,
                ) by {
                    if j < i {
                        assert(next[j] == prev[j]);
                    }
                }
            }
            i += 1;
        }
        assert(parts@.subrange(0, i as int) =~= parts@);
        true
    }
}

/// What the error says when the remote service opened a session without
/// naming it.
pub open spec fn missing_upload_id() -> Seq<char> {
    "no upload id in the response"@
}

} // verus!
