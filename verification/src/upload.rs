//! The decisions around a chunked upload: the key an upload goes to, and
//! how an upload ends once its parts are settled.

use crate::assembler::{
    ascending, assemble, distinct_numbers, lemma_one_receipt_per_part,
    lemma_ordered_is_sorted_permutation, lemma_ordered_members, lemma_ordered_strictly_ascending,
    ordered, strictly_ascending, FinalizeRequest,
};
use crate::scheduler::UploadScheduler;
use crate::error::TransferError;
use crate::session::{CompletedPart, UploadSession};
use crate::text::{chars_of, trim_trailing, trimmed_len};
use crate::url::{generate_url, object_url_of};
use vstd::prelude::*;
use vstd::string::*;

verus! {

/// What to do with the remote session when an upload fails.
#[derive(Clone, Copy, Debug, PartialEq, Eq, Structural)]
pub struct UploadPolicy {
    /// Abort the remote session on failure, so that its parts are freed.
    /// Off unless asked for: a failed session is then left open.
    pub abort_on_failure: bool,
}

impl Default for UploadPolicy {
    fn default() -> (policy: UploadPolicy)
        ensures
            !policy.abort_on_failure,
    {
        UploadPolicy { abort_on_failure: false }
    }
}

/// A failed upload: why it failed, and whether the remote session is to
/// be aborted.
#[derive(Clone, Debug, PartialEq, Eq)]
pub struct UploadFailure {
    pub error: TransferError,
    pub abort_session: bool,
}

/// How an upload goes on once its parts are settled.
#[derive(Clone, Debug, PartialEq, Eq)]
pub enum Conclusion {
    /// Every part has its receipt: finalize the session with this request.
    Finalize(FinalizeRequest),
    /// The upload failed; the session is not finalized.
    Fail(UploadFailure),
}

/// The key an upload goes to where none is given: the file's name, behind
/// the prefix without its trailing slashes and a `/` where a prefix is
/// given.
pub open spec fn key_of(
    key: Option<String>,
    key_prefix: Option<String>,
    file_name: Seq<char>,
) -> Seq<char> {
    match key {
        Some(k) => k@,
        None => match key_prefix {
            Some(prefix) => trim_trailing(prefix@, '/') + seq!['/'] + file_name,
            None => file_name,
        },
    }
}

/// Chooses the key of an upload: the given key, or one made of the prefix
/// and the file's name.
pub fn resolve_key(key: Option<String>, key_prefix: Option<String>, file_name: &str) -> (resolved:
    String)
    ensures
        resolved@ == key_of(key, key_prefix, file_name@),
{
    match key {
        Some(k) => k,
        None => match key_prefix {
            Some(prefix) => {
                let chars = chars_of(prefix.as_str());
                let end = trimmed_len(&chars, '/');
                let mut resolved = String::new();
                resolved.append(prefix.as_str().substring_char(0, end));
                proof {
                    reveal_strlit("/");
                    assert("/"@ =~= seq!['/']);
                }
                resolved.append("/");
                resolved.append(file_name);
                proof {
                    assert(resolved@ =~= trim_trailing(prefix@, '/') + seq!['/'] + file_name@);
                }
                resolved
            },
            None => file_name.to_owned(),
        },
    }
}

/// Decides how an upload ends, given what the scheduler returned. The
/// session is finalized only if the scheduler succeeded with as many
/// receipts as the session has parts; the request then holds the receipts
/// in ascending order of part number. Else the upload fails, with the
/// scheduler's error or, where the count of receipts is off, as incomplete;
/// the policy says whether the session is aborted.
pub fn conclude(
    session: &UploadSession,
    outcome: Result<Vec<CompletedPart>, TransferError>,
    policy: UploadPolicy,
) -> (c: Conclusion)
    ensures
        c is Finalize <==> (outcome matches Ok(receipts) && receipts@.len()
            == session.total_parts),
        c matches Conclusion::Finalize(request) ==> outcome is Ok && request.upload_id@
            == session.upload_id@ && request.parts@ == ordered(outcome->Ok_0@)
            && request.parts@.len() == session.total_parts && request.parts@.to_multiset()
            == outcome->Ok_0@.to_multiset() && ascending(request.parts@) && (distinct_numbers(
            outcome->Ok_0@,
        ) ==> strictly_ascending(request.parts@)),
        c matches Conclusion::Fail(failure) ==> failure.abort_session == policy.abort_on_failure
            && (outcome matches Err(e) ==> failure.error == e) && (outcome matches Ok(receipts)
            ==> failure.error == (TransferError::IncompleteUpload {
            expected: session.total_parts,
            completed: receipts@.len() as u64,
        })),
{
    match outcome {
        Err(error) => Conclusion::Fail(
            UploadFailure { error, abort_session: policy.abort_on_failure },
        ),
        Ok(receipts) => match assemble(session.upload_id.as_str(), receipts, session.total_parts) {
            Ok(request) => Conclusion::Finalize(request),
            Err(error) => Conclusion::Fail(
                UploadFailure { error, abort_session: policy.abort_on_failure },
            ),
        },
    }
}

/// Ends an upload after the call that finalizes the session: the public
/// URL of the object if the call succeeded, else the remote error as it
/// came, with the policy's word on aborting the session.
pub fn finish_upload(
    endpoint: &str,
    bucket: &str,
    session: &UploadSession,
    finalized: Result<(), String>,
    policy: UploadPolicy,
) -> (r: Result<String, UploadFailure>)
    ensures
        r is Ok <==> finalized is Ok,
        r matches Ok(url) ==> url@ == object_url_of(endpoint@, bucket@, session.key@),
        r matches Err(failure) ==> failure.abort_session == policy.abort_on_failure
            && failure.error is RemoteApi && finalized is Err && failure.error->RemoteApi_0
            == finalized->Err_0,
{
    match finalized {
        Ok(()) => Ok(generate_url(endpoint, bucket, session.key.as_str())),
        Err(message) => Err(
            UploadFailure {
                error: TransferError::RemoteApi(message),
                abort_session: policy.abort_on_failure,
            },
        ),
    }
}

/// Once every part is uploaded, the request that finalizes the session
/// lists each planned part exactly once, in order: its receipts are those
/// of parts 1, 2, .., the part count, whatever order the uploads ended in.
pub proof fn lemma_finalize_lists_every_part(s: UploadScheduler)
    requires
        s.wf(),
        s.settled(),
        s.failure() is None,
    ensures
        ordered(s.completed()).len() == s.total_parts(),
        ordered(s.completed()).to_multiset() == s.completed().to_multiset(),
        forall|i: int|
            0 <= i < s.total_parts() ==> (#[trigger] ordered(s.completed())[i]).part_number == i
                + 1,
{
    let receipts = s.completed();
    let sorted = ordered(receipts);
    lemma_ordered_is_sorted_permutation(receipts);
    lemma_ordered_strictly_ascending(receipts);
    assert forall|i: int| 0 <= i < sorted.len() implies 1 <= (#[trigger] sorted[i]).part_number
        <= sorted.len() by {
        lemma_ordered_members(receipts, i);
        let j = choose|j: int| 0 <= j < receipts.len() && #[trigger] receipts[j] == sorted[i];
        assert(1 <= receipts[j].part_number <= s.dispatched());
    }
    lemma_one_receipt_per_part(sorted);
}

} // verus!
