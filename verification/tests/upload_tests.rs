use oss_uploader::assembler::FinalizeRequest;
use oss_uploader::error::TransferError;
use oss_uploader::plan::{plan, PlanMode, BATCH_SIZE, MAX_WORKERS};
use oss_uploader::reader::PartReader;
use oss_uploader::scheduler::UploadScheduler;
use oss_uploader::session::{CompletedPart, UploadSession};
use oss_uploader::upload::{
    conclude, finish_upload, resolve_key, Conclusion, UploadFailure, UploadPolicy,
};
use oss_uploader::url::generate_url;

const MIB: usize = 1024 * 1024;
const ENDPOINT: &str = "https://test.endpoint.com";
const BUCKET: &str = "test-bucket";

/// A remote service that keeps count of what it is asked.
struct FakeRemote {
    fail_part: Option<u64>,
    sessions_created: usize,
    puts: usize,
    part_uploads: Vec<(u64, usize)>,
    finalized: Vec<FinalizeRequest>,
    aborted: Vec<String>,
    in_flight: usize,
    high_water: usize,
}

impl FakeRemote {
    fn new(fail_part: Option<u64>) -> FakeRemote {
        FakeRemote {
            fail_part,
            sessions_created: 0,
            puts: 0,
            part_uploads: Vec::new(),
            finalized: Vec::new(),
            aborted: Vec::new(),
            in_flight: 0,
            high_water: 0,
        }
    }

    fn start_part(&mut self) {
        self.in_flight += 1;
        self.high_water = self.high_water.max(self.in_flight);
    }

    fn end_part(&mut self, part_number: u64, len: usize) -> Result<Option<String>, String> {
        self.in_flight -= 1;
        self.part_uploads.push((part_number, len));
        if self.fail_part == Some(part_number) {
            Err("simulated network error".to_string())
        } else {
            Ok(Some(format!("etag-{}", part_number)))
        }
    }
}

/// Runs a whole upload of `data` against `remote`, the uploads in flight
/// ending in the order that `seed` picks.
fn run_upload(
    remote: &mut FakeRemote,
    data: &[u8],
    key: &str,
    policy: UploadPolicy,
    seed: u64,
) -> Result<String, TransferError> {
    let file_size = data.len() as u64;
    match plan(file_size, BATCH_SIZE) {
        PlanMode::Single => {
            remote.puts += 1;
            Ok(generate_url(ENDPOINT, BUCKET, key))
        }
        PlanMode::Chunked { total_parts } => {
            remote.sessions_created += 1;
            let session = UploadSession::open(
                key.to_string(),
                Some("upload-42".to_string()),
                file_size,
                BATCH_SIZE,
            )?;
            assert_eq!(session.total_parts, total_parts);
            let mut reader = PartReader::new(file_size, BATCH_SIZE);
            while let Some(request) = reader.next_request() {
                let from = request.offset as usize;
                reader.accept(data[from..from + request.len as usize].to_vec())?;
            }
            let parts = reader.finish()?;
            assert!(session.accepts(&parts));
            let mut scheduler = UploadScheduler::new(&session, parts, MAX_WORKERS);
            let mut pending: Vec<(u64, usize)> = Vec::new();
            let mut state = seed;
            while !scheduler.is_settled() {
                while let Some(task) = scheduler.dispatch() {
                    remote.start_part();
                    pending.push((task.part_number, task.payload.len()));
                }
                state = state.wrapping_mul(6364136223846793005).wrapping_add(1442695040888963407);
                let pick = (state >> 33) as usize % pending.len();
                let (number, len) = pending.swap_remove(pick);
                match remote.end_part(number, len) {
                    Ok(tag) => assert_eq!(scheduler.record_success(number, tag), Some(len as u64)),
                    Err(message) => assert!(scheduler.record_failure(number, message)),
                }
            }
            let transferred = scheduler.transferred();
            let outcome = scheduler.into_result();
            if outcome.is_ok() {
                assert_eq!(transferred, file_size);
            }
            match conclude(&session, outcome, policy) {
                Conclusion::Finalize(request) => {
                    remote.finalized.push(request);
                    finish_upload(ENDPOINT, BUCKET, &session, Ok(()), policy).map_err(|f| f.error)
                }
                Conclusion::Fail(failure) => {
                    if failure.abort_session {
                        remote.aborted.push(session.upload_id.clone());
                    }
                    Err(failure.error)
                }
            }
        }
    }
}

fn receipt(part_number: u64, e_tag: &str) -> CompletedPart {
    CompletedPart { part_number, e_tag: e_tag.to_string() }
}

fn session_of_three() -> UploadSession {
    UploadSession::open("k".to_string(), Some("upload-7".to_string()), 25, 10).unwrap()
}

#[test]
fn upload_of_25_mib_sends_three_parts_and_finalizes_once() {
    let data = vec![0xABu8; 25 * MIB];
    for seed in 0u64..6 {
        let mut remote = FakeRemote::new(None);
        let url = run_upload(&mut remote, &data, "big/file.bin", UploadPolicy::default(), seed);
        assert_eq!(
            url,
            Ok("https://test-bucket.test.endpoint.com/big/file.bin".to_string())
        );
        assert_eq!(remote.sessions_created, 1);
        assert_eq!(remote.puts, 0);
        let mut uploads = remote.part_uploads.clone();
        uploads.sort();
        assert_eq!(uploads, vec![(1, 10 * MIB), (2, 10 * MIB), (3, 5 * MIB)]);
        assert_eq!(remote.finalized.len(), 1);
        assert_eq!(remote.finalized[0].upload_id, "upload-42");
        assert_eq!(
            remote.finalized[0].parts,
            vec![receipt(1, "etag-1"), receipt(2, "etag-2"), receipt(3, "etag-3")]
        );
        assert!(remote.aborted.is_empty());
        assert!(remote.high_water <= MAX_WORKERS);
    }
}

#[test]
fn upload_of_5_mib_goes_in_one_put_without_a_session() {
    let data = vec![1u8; 5 * MIB];
    let mut remote = FakeRemote::new(None);
    let url = run_upload(&mut remote, &data, "small.bin", UploadPolicy::default(), 0);
    assert_eq!(url, Ok("https://test-bucket.test.endpoint.com/small.bin".to_string()));
    assert_eq!(remote.puts, 1);
    assert_eq!(remote.sessions_created, 0);
    assert!(remote.part_uploads.is_empty());
    assert!(remote.finalized.is_empty());
}

#[test]
fn failure_of_part_two_fails_the_upload_without_finalizing() {
    let data = vec![2u8; 25 * MIB];
    for seed in 0u64..6 {
        let mut remote = FakeRemote::new(Some(2));
        let r = run_upload(&mut remote, &data, "big.bin", UploadPolicy::default(), seed);
        assert_eq!(r, Err(TransferError::RemoteApi("simulated network error".to_string())));
        assert!(remote.finalized.is_empty());
        assert!(remote.aborted.is_empty());
        assert_eq!(remote.part_uploads.len(), 3);
    }
}

#[test]
fn failed_session_is_aborted_only_where_the_policy_asks() {
    let data = vec![3u8; 11 * MIB];
    let mut remote = FakeRemote::new(Some(1));
    let r = run_upload(&mut remote, &data, "k", UploadPolicy { abort_on_failure: true }, 3);
    assert_eq!(r, Err(TransferError::RemoteApi("simulated network error".to_string())));
    assert_eq!(remote.aborted, vec!["upload-42".to_string()]);
    assert!(remote.finalized.is_empty());
}

#[test]
fn upload_of_many_parts_keeps_to_the_worker_bound() {
    let data = vec![4u8; 10 * MIB * 12 + 1];
    let mut remote = FakeRemote::new(None);
    let r = run_upload(&mut remote, &data, "k", UploadPolicy::default(), 11);
    assert!(r.is_ok());
    assert_eq!(remote.high_water, MAX_WORKERS);
    assert_eq!(remote.part_uploads.len(), 13);
    let numbers: Vec<u64> = remote.finalized[0].parts.iter().map(|p| p.part_number).collect();
    assert_eq!(numbers, (1u64..=13).collect::<Vec<u64>>());
}

#[test]
fn policy_leaves_a_failed_session_open_unless_told() {
    assert!(!UploadPolicy::default().abort_on_failure);
}

#[test]
fn session_needs_an_identifier() {
    assert_eq!(
        UploadSession::open("k".to_string(), None, 25, 10),
        Err(TransferError::RemoteApi("no upload id in the response".to_string()))
    );
    assert_eq!(
        UploadSession::open("k".to_string(), Some("id".to_string()), 25, 10),
        Ok(UploadSession {
            key: "k".to_string(),
            upload_id: "id".to_string(),
            file_size: 25,
            part_size: 10,
            total_parts: 3,
        })
    );
}

#[test]
fn conclude_finalizes_with_the_receipts_in_order() {
    let outcome = Ok(vec![receipt(2, "b"), receipt(3, "c"), receipt(1, "a")]);
    assert_eq!(
        conclude(&session_of_three(), outcome, UploadPolicy::default()),
        Conclusion::Finalize(FinalizeRequest {
            upload_id: "upload-7".to_string(),
            parts: vec![receipt(1, "a"), receipt(2, "b"), receipt(3, "c")],
        })
    );
}

#[test]
fn conclude_fails_an_upload_with_missing_receipts() {
    let outcome = Ok(vec![receipt(3, "c"), receipt(1, "a")]);
    assert_eq!(
        conclude(&session_of_three(), outcome, UploadPolicy::default()),
        Conclusion::Fail(UploadFailure {
            error: TransferError::IncompleteUpload { expected: 3, completed: 2 },
            abort_session: false,
        })
    );
    assert_eq!(
        conclude(&session_of_three(), Ok(Vec::new()), UploadPolicy { abort_on_failure: true }),
        Conclusion::Fail(UploadFailure {
            error: TransferError::IncompleteUpload { expected: 3, completed: 0 },
            abort_session: true,
        })
    );
}

#[test]
fn conclude_passes_the_error_of_the_uploads_on() {
    let outcome = Err(TransferError::RemoteApi("503".to_string()));
    assert_eq!(
        conclude(&session_of_three(), outcome, UploadPolicy::default()),
        Conclusion::Fail(UploadFailure {
            error: TransferError::RemoteApi("503".to_string()),
            abort_session: false,
        })
    );
    let outcome = Err(TransferError::Io("disk".to_string()));
    assert_eq!(
        conclude(&session_of_three(), outcome, UploadPolicy { abort_on_failure: true }),
        Conclusion::Fail(UploadFailure {
            error: TransferError::Io("disk".to_string()),
            abort_session: true,
        })
    );
}

#[test]
fn finished_upload_gives_the_url_of_the_object() {
    let session =
        UploadSession::open("dir/my file.bin".to_string(), Some("id".to_string()), 25, 10).unwrap();
    assert_eq!(
        finish_upload(ENDPOINT, BUCKET, &session, Ok(()), UploadPolicy::default()),
        Ok("https://test-bucket.test.endpoint.com/dir/my%20file.bin".to_string())
    );
}

#[test]
fn failed_finalize_passes_the_remote_error_on() {
    let session = session_of_three();
    assert_eq!(
        finish_upload(
            ENDPOINT,
            BUCKET,
            &session,
            Err("InvalidPart: tag mismatch".to_string()),
            UploadPolicy::default()
        ),
        Err(UploadFailure {
            error: TransferError::RemoteApi("InvalidPart: tag mismatch".to_string()),
            abort_session: false,
        })
    );
    assert_eq!(
        finish_upload(
            ENDPOINT,
            BUCKET,
            &session,
            Err("x".to_string()),
            UploadPolicy { abort_on_failure: true }
        ),
        Err(UploadFailure {
            error: TransferError::RemoteApi("x".to_string()),
            abort_session: true,
        })
    );
}

#[test]
fn given_key_is_taken_as_it_is() {
    assert_eq!(
        resolve_key(Some("a/b.txt".to_string()), Some("ignored/".to_string()), "file.txt"),
        "a/b.txt"
    );
    assert_eq!(resolve_key(Some(String::new()), None, "file.txt"), "");
}

#[test]
fn key_is_made_of_prefix_and_file_name() {
    assert_eq!(resolve_key(None, Some("uploads".to_string()), "file.txt"), "uploads/file.txt");
    assert_eq!(resolve_key(None, Some("uploads/".to_string()), "file.txt"), "uploads/file.txt");
    assert_eq!(resolve_key(None, Some("a/b///".to_string()), "file.txt"), "a/b/file.txt");
    assert_eq!(resolve_key(None, Some(String::new()), "file.txt"), "/file.txt");
    assert_eq!(resolve_key(None, Some("/".to_string()), "file.txt"), "/file.txt");
    assert_eq!(resolve_key(None, Some("前缀/".to_string()), "文件.txt"), "前缀/文件.txt");
}

#[test]
fn key_without_prefix_is_the_file_name() {
    assert_eq!(resolve_key(None, None, "file.txt"), "file.txt");
    assert_eq!(resolve_key(None, None, ""), "");
}
