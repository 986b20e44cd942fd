use s3_store::error::Error;
use s3_store::multipart::{
    split_into_parts, MultipartUploadSession, SessionError, SessionState, MAX_IN_FLIGHT,
};

fn open_session() -> MultipartUploadSession {
    MultipartUploadSession::open(
        String::from("bucket"),
        String::from("dir/big-object"),
        Some(String::from("upload-1")),
    )
    .unwrap()
}

#[test]
fn create_without_upload_id_is_unknown() {
    let r = MultipartUploadSession::open(String::from("b"), String::from("k"), None);
    assert!(matches!(r, Err(Error::Unknown)));
}

#[test]
fn create_carries_target_and_upload_id() {
    let s = open_session();
    assert_eq!(s.bucket, "bucket");
    assert_eq!(s.location, "dir/big-object");
    assert_eq!(s.upload_id, "upload-1");
    assert_eq!(s.state, SessionState::Created);
}

#[test]
fn parts_listed_ascending_whatever_finish_order() {
    let mut s = open_session();
    assert_eq!(s.start_part(), Ok(1));
    assert_eq!(s.start_part(), Ok(2));
    assert_eq!(s.start_part(), Ok(3));
    assert_eq!(s.finish_part(2, String::from("e2")), Ok(()));
    assert_eq!(s.finish_part(1, String::from("e1")), Ok(()));
    assert_eq!(s.finish_part(3, String::from("e3")), Ok(()));
    let request = s.complete_request().unwrap();
    assert_eq!(request.bucket, "bucket");
    assert_eq!(request.key, "dir/big-object");
    assert_eq!(request.upload_id, "upload-1");
    assert_eq!(
        request.parts,
        vec![
            (1, String::from("e1")),
            (2, String::from("e2")),
            (3, String::from("e3")),
        ]
    );
    assert_eq!(s.state, SessionState::Completed);
}

#[test]
fn complete_with_no_parts_is_rejected() {
    let mut s = open_session();
    assert_eq!(s.complete_request().err(), Some(SessionError::NoParts));
}

#[test]
fn complete_twice_is_rejected() {
    let mut s = open_session();
    assert_eq!(s.start_part(), Ok(1));
    assert_eq!(s.finish_part(1, String::from("e1")), Ok(()));
    assert!(s.complete_request().is_ok());
    assert_eq!(s.complete_request().err(), Some(SessionError::AlreadyTerminated));
}

#[test]
fn complete_after_abort_is_rejected() {
    let mut s = open_session();
    assert_eq!(s.start_part(), Ok(1));
    assert_eq!(s.finish_part(1, String::from("e1")), Ok(()));
    assert!(s.abort_request().is_ok());
    assert_eq!(s.complete_request().err(), Some(SessionError::AlreadyTerminated));
}

#[test]
fn complete_with_part_in_flight_is_rejected() {
    let mut s = open_session();
    assert_eq!(s.start_part(), Ok(1));
    assert_eq!(s.start_part(), Ok(2));
    assert_eq!(s.finish_part(1, String::from("e1")), Ok(()));
    assert_eq!(s.complete_request().err(), Some(SessionError::PartsOutstanding));
}

#[test]
fn abort_after_uploads_discards_the_upload() {
    let mut s = open_session();
    assert_eq!(s.start_part(), Ok(1));
    assert_eq!(s.finish_part(1, String::from("e1")), Ok(()));
    let request = s.abort_request().unwrap();
    assert_eq!(request.bucket, "bucket");
    assert_eq!(request.key, "dir/big-object");
    assert_eq!(request.upload_id, "upload-1");
    assert_eq!(s.state, SessionState::Aborted);
    assert_eq!(s.abort_request().err(), Some(SessionError::AlreadyTerminated));
}

#[test]
fn finishing_unknown_or_finished_part_is_rejected() {
    let mut s = open_session();
    assert_eq!(s.start_part(), Ok(1));
    assert_eq!(s.finish_part(0, String::from("e")), Err(SessionError::PartUnknown));
    assert_eq!(s.finish_part(2, String::from("e")), Err(SessionError::PartUnknown));
    assert_eq!(s.finish_part(1, String::from("e1")), Ok(()));
    assert_eq!(
        s.finish_part(1, String::from("e1")),
        Err(SessionError::PartAlreadyFinished)
    );
}

#[test]
fn in_flight_parts_are_capped() {
    let mut s = open_session();
    for expected in 1..=MAX_IN_FLIGHT {
        assert_eq!(s.start_part(), Ok(expected));
    }
    assert_eq!(s.start_part(), Err(SessionError::NoSlotFree));
    assert_eq!(s.finish_part(5, String::from("e5")), Ok(()));
    assert_eq!(s.start_part(), Ok(MAX_IN_FLIGHT + 1));
}

#[test]
fn terminated_session_refuses_part_work() {
    let mut s = open_session();
    assert_eq!(s.start_part(), Ok(1));
    assert_eq!(s.finish_part(1, String::from("e1")), Ok(()));
    assert!(s.complete_request().is_ok());
    assert_eq!(s.start_part(), Err(SessionError::AlreadyTerminated));
    assert_eq!(
        s.finish_part(1, String::from("e1")),
        Err(SessionError::AlreadyTerminated)
    );
}

#[test]
fn split_slices_and_preserves_content() {
    let data: Vec<u8> = (0..10).collect();
    let parts = split_into_parts(&data, 4);
    assert_eq!(parts.len(), 3);
    assert_eq!(parts[0], vec![0, 1, 2, 3]);
    assert_eq!(parts[1], vec![4, 5, 6, 7]);
    assert_eq!(parts[2], vec![8, 9]);
    let joined: Vec<u8> = parts.concat();
    assert_eq!(joined, data);
}

#[test]
fn split_of_empty_buffer_has_no_parts() {
    let parts = split_into_parts(&[], 4);
    assert!(parts.is_empty());
}
