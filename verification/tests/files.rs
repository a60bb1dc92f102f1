use warp_ipfs::error::Error;
use warp_ipfs::files::{
    check_buffer_quota, check_file_quota, check_new_file, check_stream_quota, check_stream_upload, file_upload_step, split_file_from_path,
    stream_upload_step, upload_result, Progression, UnixfsStatus, UploadState,
};

#[test]
fn split_file_from_path_cases() {
    assert_eq!(split_file_from_path(&"photo.png".to_string()), Ok(("photo.png".to_string(), None)));
    assert_eq!(
        split_file_from_path(&"a/b/ photo.png ".to_string()),
        Ok(("photo.png".to_string(), Some("a/b".to_string())))
    );
    assert_eq!(split_file_from_path(&"/ab".to_string()), Ok(("ab".to_string(), Some(String::new()))));
    assert_eq!(
        split_file_from_path(&"dir/x".to_string()),
        Err(Error::InvalidLength { context: "name".into(), current: 1, minimum: Some(2), maximum: Some(256) })
    );
    assert_eq!(
        split_file_from_path(&"dir/".to_string()),
        Err(Error::InvalidLength { context: "name".into(), current: 0, minimum: Some(2), maximum: Some(256) })
    );
    let long = "y".repeat(257);
    assert_eq!(
        split_file_from_path(&long),
        Err(Error::InvalidLength { context: "name".into(), current: 257, minimum: Some(2), maximum: Some(256) })
    );
}

#[test]
fn quotas() {
    assert_eq!(check_file_quota(10, 5, 16, "f.txt".to_string()), Ok(()));
    assert_eq!(
        check_file_quota(10, 6, 16, "f.txt".to_string()),
        Err(Error::InvalidLength { context: "f.txt".into(), current: 16, minimum: None, maximum: Some(16) })
    );
    assert_eq!(
        check_buffer_quota(10, 6, 16, None),
        Err(Error::InvalidLength { context: "buffer".into(), current: 16, minimum: None, maximum: Some(16) })
    );
    assert_eq!(
        check_buffer_quota(0, 6, 16, Some(5)),
        Err(Error::InvalidLength { context: "buffer".into(), current: 6, minimum: None, maximum: Some(5) })
    );
    assert_eq!(check_buffer_quota(0, 5, 16, Some(5)), Ok(()));
    assert_eq!(check_stream_quota(10, None, 1, Some(1)), Ok(()));
    assert_eq!(check_stream_quota(10, Some(6), 16, None), Ok(()));
    assert_eq!(
        check_stream_quota(10, Some(7), 16, None),
        Err(Error::InvalidLength { context: "stream".into(), current: 17, minimum: None, maximum: Some(16) })
    );
    assert_eq!(
        check_stream_quota(0, Some(7), 16, Some(6)),
        Err(Error::InvalidLength { context: "stream".into(), current: 7, minimum: None, maximum: Some(6) })
    );
}

fn is_progress(p: &Progression, current: usize) -> bool {
    matches!(p, Progression::CurrentProgress { current: c, .. } if *c == current)
}

#[test]
fn stream_upload_reports() {
    let name = "movie.mp4".to_string();
    let mut state = UploadState::new();
    let (out, stop) = stream_upload_step(&mut state, UnixfsStatus::Progress { written: 10, total_size: None }, &name, Some(30), 100, 1000, None);
    assert!(!stop && out.len() == 1 && is_progress(&out[0], 10));
    assert_eq!(state.last_written, 10);
    let (out, stop) = stream_upload_step(
        &mut state,
        UnixfsStatus::Completed { path: "/ipfs/bafy".to_string(), written: 30, total_size: Some(30) },
        &name,
        Some(30),
        100,
        1000,
        None,
    );
    assert!(!stop && out.len() == 1 && is_progress(&out[0], 30));
    assert_eq!(state.total_written, 30);
    assert_eq!(upload_result(&state, &name).ok(), Some("/ipfs/bafy".to_string()));

    // Past the storage limit.
    let mut state = UploadState::new();
    let (out, stop) = stream_upload_step(&mut state, UnixfsStatus::Progress { written: 901, total_size: None }, &name, None, 100, 1000, None);
    assert!(stop && out.len() == 2);
    assert!(matches!(
        &out[1],
        Progression::ProgressFailed { last_size: Some(901), error: Error::InvalidLength { current: 1001, maximum: Some(1000), .. }, .. }
    ));
    // Past the file limit.
    let mut state = UploadState::new();
    let (out, stop) = stream_upload_step(&mut state, UnixfsStatus::Progress { written: 50, total_size: None }, &name, None, 0, 1000, Some(40));
    assert!(stop);
    assert!(matches!(&out[1], Progression::ProgressFailed { error: Error::InvalidLength { current: 50, maximum: Some(40), .. }, .. }));
    // A failure ends it.
    let mut state = UploadState::new();
    let (out, stop) = stream_upload_step(&mut state, UnixfsStatus::Failed { written: 3, error: Error::Other }, &name, None, 0, 1000, None);
    assert!(stop && out.len() == 1);
    assert!(matches!(&out[0], Progression::ProgressFailed { last_size: Some(3), error: Error::Other, .. }));
    // Never completed.
    assert!(matches!(
        upload_result(&state, &name),
        Err(Progression::ProgressFailed { last_size: Some(3), error: Error::Other, .. })
    ));
}

#[test]
fn file_upload_reports() {
    let name = "notes.txt".to_string();
    let mut state = UploadState::new();
    let (p, stop) = file_upload_step(&mut state, UnixfsStatus::Progress { written: 4, total_size: Some(8) }, &name);
    assert!(!stop);
    assert!(matches!(p, Progression::CurrentProgress { current: 4, total: Some(8), .. }));
    let (p, stop) = file_upload_step(&mut state, UnixfsStatus::Completed { path: "/ipfs/x".into(), written: 8, total_size: Some(8) }, &name);
    assert!(!stop);
    assert!(matches!(p, Progression::CurrentProgress { current: 8, .. }));
    assert_eq!(state.total_written, 8);
    let (p, stop) = file_upload_step(&mut state, UnixfsStatus::Failed { written: 8, error: Error::Other }, &name);
    assert!(stop);
    assert!(matches!(p, Progression::ProgressFailed { last_size: Some(8), .. }));
}

#[test]
fn an_existing_name_is_refused() {
    assert_eq!(check_new_file(true), Err(Error::FileExist));
    assert_eq!(check_new_file(false), Ok(()));
    // a stream to an existing name is refused before its quota is looked at
    assert_eq!(check_stream_upload(true, 10, Some(100), 16, None), Err(Error::FileExist));
    assert!(matches!(check_stream_upload(false, 10, Some(100), 16, None), Err(Error::InvalidLength { .. })));
    assert_eq!(check_stream_upload(false, 10, Some(6), 16, None), Ok(()));
    assert_eq!(check_stream_upload(false, 10, None, 1, Some(1)), Ok(()));
}
