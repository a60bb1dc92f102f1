//! What the file store decides around an upload: where a named file goes,
//! whether it fits the storage limits, and how each report of the upload
//! turns into progress for the caller. Reading files and talking to IPFS is
//! the caller's work.
use crate::error::{is_length_err, is_length_error, Error};
use crate::identity::byte_len;
use crate::text::{spec_trim, trim};
use vstd::prelude::*;

verus! {

/// Position of the last `/` in `s`, or -1.
pub open spec fn last_slash(s: Seq<char>) -> int
    decreases s.len(),
{
    if s.len() == 0 {
        -1
    } else if s.last() == '/' {
        s.len() - 1
    } else {
        last_slash(s.drop_last())
    }
}

proof fn lemma_last_slash(s: Seq<char>)
    ensures
        -1 <= last_slash(s) < s.len(),
        last_slash(s) >= 0 ==> s[last_slash(s)] == '/',
        forall|k: int| last_slash(s) < k < s.len() ==> s[k] != '/',
    decreases s.len(),
{
    if s.len() > 0 && s.last() != '/' {
        let t = s.drop_last();
        lemma_last_slash(t);
        assert forall|k: int| last_slash(s) < k < s.len() implies s[k] != '/' by {
            if k < t.len() {
                assert(s[k] == t[k]);
            }
        }
    }
}

/// The file name of a path: what follows its last `/`, trimmed.
pub open spec fn file_part(s: Seq<char>) -> Seq<char> {
    spec_trim(s.subrange(last_slash(s) + 1, s.len() as int))
}

/// The directory of a path: what precedes its last `/`, if it has one.
pub open spec fn dir_part(s: Seq<char>) -> Option<Seq<char>> {
    if last_slash(s) >= 0 {
        Some(s.subrange(0, last_slash(s)))
    } else {
        None
    }
}

/// `r` is the split of `path` into file name and directory.
pub open spec fn split_as(r: Result<(String, Option<String>), Error>, path: Seq<char>) -> bool {
    r matches Ok((f, d)) && f@ == file_part(path) && match d {
        Some(d) => dir_part(path) == Some(d@),
        None => dir_part(path) is None,
    }
}

/// A limit that is set and that `n` exceeds.
pub open spec fn exceeds(limit: Option<usize>, n: usize) -> bool {
    match limit {
        Some(m) => n > m,
        None => false,
    }
}

/// `p` says the upload of `name` failed after `last` bytes.
pub open spec fn is_failure(p: Progression, name: Seq<char>, last: usize) -> bool {
    p matches Progression::ProgressFailed { name: n, last_size: l, .. } && n@ == name && l == Some(last)
}

/// The error of a failure report.
pub open spec fn failure_error(p: Progression) -> Error {
    match p {
        Progression::ProgressFailed { error, .. } => error,
        _ => Error::Other,
    }
}

/// `p` reports `current` bytes of `total` uploaded for `name`.
pub open spec fn is_progress(p: Progression, name: Seq<char>, current: usize, total: Option<usize>) -> bool {
    p matches Progression::CurrentProgress { name: n, current: c, total: t } && n@ == name && c == current && t
        == total
}

/// Splits a path into the file's name and the directory it goes to. The
/// name is what follows the last `/`, trimmed, and must have 2 to 256 bytes;
/// the directory is what precedes it, when there is a `/`.
pub fn split_file_from_path(name: &String) -> (r: Result<(String, Option<String>), Error>)
    ensures
        2 <= byte_len(file_part(name@)) <= 256 ==> split_as(r, name@),
        !(2 <= byte_len(file_part(name@)) <= 256) ==> is_length_err(
            r,
            "name"@,
            byte_len(file_part(name@)) as usize,
            Some(2),
            Some(256),
        ),
{
    let s = name.as_str();
    let len = s.unicode_len();
    proof {
        lemma_last_slash(s@);
    }
    let mut k: usize = len;
    while k > 0 && s.get_char(k - 1) != '/'
        invariant
            k <= len,
            len == s@.len(),
            s@ == name@,
            forall|j: int| k <= j < len ==> s@[j] != '/',
            -1 <= last_slash(s@) < len,
            last_slash(s@) >= 0 ==> s@[last_slash(s@)] == '/',
            forall|j: int| last_slash(s@) < j < len ==> s@[j] != '/',
        decreases k,
    {
        k -= 1;
    }
    proof {
        if k > 0 {
            assert(last_slash(s@) == k - 1) by {
                if last_slash(s@) > k - 1 {
                    assert(s@[last_slash(s@)] != '/');
                }
                if last_slash(s@) < k - 1 {
                    assert(s@[k - 1] == '/');
                }
            }
        } else {
            if last_slash(s@) >= 0 {
                assert(s@[last_slash(s@)] != '/');
            }
        }
    }
    let file = trim(s.substring_char(k, len));
    let flen = file.as_str().as_bytes().len();
    if flen < 2 || flen > 256 {
        return Err(Error::InvalidLength { context: String::from_str("name"), current: flen, minimum: Some(2), maximum: Some(256) });
    }
    let dir = if k > 0 {
        Some(s.substring_char(0, k - 1).to_owned())
    } else {
        None
    };
    Ok((file, dir))
}

/// What an upload reports to its caller.
#[derive(Debug)]
pub enum Progression {
    CurrentProgress { name: String, current: usize, total: Option<usize> },
    ProgressComplete { name: String, total: Option<usize> },
    ProgressFailed { name: String, last_size: Option<usize>, error: Error },
}

/// A report of the content store while it takes an upload.
#[derive(Debug)]
pub enum UnixfsStatus {
    /// Done: where the content went, and how much was written.
    Completed { path: String, written: usize, total_size: Option<usize> },
    /// Failed after `written` bytes.
    Failed { written: usize, error: Error },
    /// Under way.
    Progress { written: usize, total_size: Option<usize> },
}

/// Refuses an upload from disk of `size` bytes when, with the `current`
/// bytes stored, it reaches `max_size`; the error names `context` (the
/// file's name).
pub fn check_file_quota(current: usize, size: usize, max_size: usize, context: String) -> (r: Result<(), Error>)
    requires
        current + size <= usize::MAX,
    ensures
        current + size >= max_size ==> is_length_err(
            r,
            context@,
            (current + size) as usize,
            None,
            Some(max_size),
        ),
        current + size < max_size ==> r is Ok,
{
    if current + size >= max_size {
        return Err(Error::InvalidLength { context, current: current + size, minimum: None, maximum: Some(max_size) });
    }
    Ok(())
}

/// Refuses a buffer of `len` bytes when, with the `current` bytes stored, it
/// reaches `max_size`, or when it is larger than the configured storage
/// limit.
pub fn check_buffer_quota(current: usize, len: usize, max_size: usize, max_storage_size: Option<usize>) -> (r: Result<
    (),
    Error,
>)
    requires
        current + len <= usize::MAX,
    ensures
        current + len >= max_size ==> is_length_err(
            r,
            "buffer"@,
            (current + len) as usize,
            None,
            Some(max_size),
        ),
        current + len < max_size && exceeds(max_storage_size, len) ==> is_length_err(
            r,
            "buffer"@,
            len,
            None,
            max_storage_size,
        ),
        current + len < max_size && !exceeds(max_storage_size, len) ==> r is Ok,
{
    if current + len >= max_size {
        return Err(
            Error::InvalidLength {
                context: String::from_str("buffer"),
                current: current + len,
                minimum: None,
                maximum: Some(max_size),
            },
        );
    }
    if let Some(m) = max_storage_size {
        if len > m {
            return Err(
                Error::InvalidLength { context: String::from_str("buffer"), current: len, minimum: None, maximum: Some(m) },
            );
        }
    }
    Ok(())
}

/// Refuses a stream announced at `total_size` bytes when, with the `current`
/// bytes stored, it exceeds `max_size`, or when it is larger than the
/// configured storage limit. A stream of unknown size passes.
pub fn check_stream_quota(
    current: usize,
    total_size: Option<usize>,
    max_size: usize,
    max_storage_size: Option<usize>,
) -> (r: Result<(), Error>)
    requires
        total_size matches Some(t) ==> current + t <= usize::MAX,
    ensures
        total_size is None ==> r is Ok,
        total_size is Some && total_size->0 + current > max_size ==> is_length_err(
            r,
            "stream"@,
            (current + total_size->0) as usize,
            None,
            Some(max_size),
        ),
        total_size is Some && total_size->0 + current <= max_size && exceeds(max_storage_size, total_size->0)
            ==> is_length_err(r, "stream"@, total_size->0, None, max_storage_size),
        total_size is Some && total_size->0 + current <= max_size && !exceeds(max_storage_size, total_size->0)
            ==> r is Ok,
{
    if let Some(t) = total_size {
        if t + current > max_size {
            return Err(
                Error::InvalidLength {
                    context: String::from_str("stream"),
                    current: current + t,
                    minimum: None,
                    maximum: Some(max_size),
                },
            );
        }
        if let Some(m) = max_storage_size {
            if t > m {
                return Err(
                    Error::InvalidLength { context: String::from_str("stream"), current: t, minimum: None, maximum: Some(m) },
                );
            }
        }
    }
    Ok(())
}

/// Refuses an upload under a name that the target directory already holds
/// (`exists`). An upload from disk or from a buffer is checked so after its
/// quota; a stream, before (see `check_stream_upload`).
pub fn check_new_file(exists: bool) -> (r: Result<(), Error>)
    ensures
        exists ==> r == Err::<(), Error>(Error::FileExist),
        !exists ==> r is Ok,
{
    if exists {
        Err(Error::FileExist)
    } else {
        Ok(())
    }
}

/// The checks before a stream is uploaded: a name the target directory
/// already holds (`exists`) is refused first; then the quota of
/// `check_stream_quota`.
pub fn check_stream_upload(
    exists: bool,
    current: usize,
    total_size: Option<usize>,
    max_size: usize,
    max_storage_size: Option<usize>,
) -> (r: Result<(), Error>)
    requires
        total_size matches Some(t) ==> current + t <= usize::MAX,
    ensures
        exists ==> r == Err::<(), Error>(Error::FileExist),
        !exists && total_size is None ==> r is Ok,
        !exists && total_size is Some && total_size->0 + current > max_size ==> is_length_err(
            r,
            "stream"@,
            (current + total_size->0) as usize,
            None,
            Some(max_size),
        ),
        !exists && total_size is Some && total_size->0 + current <= max_size && exceeds(
            max_storage_size,
            total_size->0,
        ) ==> is_length_err(r, "stream"@, total_size->0, None, max_storage_size),
        !exists && total_size is Some && total_size->0 + current <= max_size && !exceeds(
            max_storage_size,
            total_size->0,
        ) ==> r is Ok,
{
    check_new_file(exists)?;
    check_stream_quota(current, total_size, max_size, max_storage_size)
}

/// Where an upload stands: the bytes last reported, the bytes written when
/// it completed, and where its content went.
#[derive(Debug)]
pub struct UploadState {
    pub last_written: usize,
    pub total_written: usize,
    pub returned_path: Option<String>,
}

impl UploadState {
    /// Nothing written yet.
    pub fn new() -> (r: Self)
        ensures
            r.last_written == 0 && r.total_written == 0 && r.returned_path is None,
    {
        UploadState { last_written: 0, total_written: 0, returned_path: None }
    }
}

/// The bytes a report says were written.
pub open spec fn status_written(s: UnixfsStatus) -> usize {
    match s {
        UnixfsStatus::Completed { written, .. } => written,
        UnixfsStatus::Failed { written, .. } => written,
        UnixfsStatus::Progress { written, .. } => written,
    }
}

pub open spec fn opt_text(o: Option<String>) -> Option<Seq<char>> {
    match o {
        Some(s) => Some(s@),
        None => None,
    }
}

/// Takes one report of a streamed upload of `name` (announced at `total`
/// bytes): it becomes the bytes last written (and, when complete, the bytes
/// written and the content's place), and the caller is told the progress.
/// A failure ends the upload, as does going past `max_size` with the
/// `root_size` bytes already stored (checked first) or past `max_file_size`.
/// Gives what the caller is told, and whether the upload ends.
pub fn stream_upload_step(
    state: &mut UploadState,
    status: UnixfsStatus,
    name: &String,
    total: Option<usize>,
    root_size: usize,
    max_size: usize,
    max_file_size: Option<usize>,
) -> (r: (Vec<Progression>, bool))
    requires
        root_size + status_written(status) <= usize::MAX,
    ensures
        final(state).last_written == status_written(status),
        status is Completed ==> final(state).total_written == status_written(status) && opt_text(
            final(state).returned_path,
        ) == Some(status->Completed_path@),
        !(status is Completed) ==> final(state).total_written == old(state).total_written && opt_text(
            final(state).returned_path,
        ) == opt_text(old(state).returned_path),
        ({
            let w = status_written(status);
            &&& status is Failed ==> r.1 && r.0@.len() == 1 && is_failure(r.0@[0], name@, w) && failure_error(r.0@[0])
                == status->Failed_error
            &&& !(status is Failed) ==> r.0@.len() >= 1 && is_progress(r.0@[0], name@, w, total)
            &&& !(status is Failed) && root_size + w > max_size ==> r.1 && r.0@.len() == 2 && is_failure(
                r.0@[1],
                name@,
                w,
            ) && is_length_error(failure_error(r.0@[1]), "buffer"@, (root_size + w) as usize, None, Some(max_size))
            &&& !(status is Failed) && root_size + w <= max_size && exceeds(max_file_size, w) ==> r.1 && r.0@.len()
                == 2 && is_failure(r.0@[1], name@, w) && is_length_error(
                failure_error(r.0@[1]),
                "buffer"@,
                w,
                None,
                max_file_size,
            )
            &&& !(status is Failed) && root_size + w <= max_size && !exceeds(max_file_size, w) ==> !r.1 && r.0@.len()
                == 1
        }),
{
    let mut out: Vec<Progression> = Vec::new();
    match status {
        UnixfsStatus::Completed { path, written, .. } => {
            state.returned_path = Some(path);
            state.total_written = written;
            state.last_written = written;
            out.push(Progression::CurrentProgress { name: name.clone(), current: written, total });
        },
        UnixfsStatus::Failed { written, error } => {
            state.last_written = written;
            out.push(Progression::ProgressFailed { name: name.clone(), last_size: Some(written), error });
            return (out, true);
        },
        UnixfsStatus::Progress { written, .. } => {
            state.last_written = written;
            out.push(Progression::CurrentProgress { name: name.clone(), current: written, total });
        },
    }
    let w = state.last_written;
    if root_size + w > max_size {
        out.push(
            Progression::ProgressFailed {
                name: name.clone(),
                last_size: Some(w),
                error: Error::InvalidLength {
                    context: String::from_str("buffer"),
                    current: root_size + w,
                    minimum: None,
                    maximum: Some(max_size),
                },
            },
        );
        return (out, true);
    }
    if let Some(m) = max_file_size {
        if w > m {
            out.push(
                Progression::ProgressFailed {
                    name: name.clone(),
                    last_size: Some(w),
                    error: Error::InvalidLength {
                        context: String::from_str("buffer"),
                        current: w,
                        minimum: None,
                        maximum: Some(m),
                    },
                },
            );
            return (out, true);
        }
    }
    (out, false)
}

/// Takes one report of an upload of `name` from disk: it becomes the bytes
/// last written (and, when complete, the bytes written and the content's
/// place), and the caller is told the progress the report gives; a failure
/// ends the upload. Gives what the caller is told, and whether it ends.
pub fn file_upload_step(state: &mut UploadState, status: UnixfsStatus, name: &String) -> (r: (Progression, bool))
    ensures
        final(state).last_written == status_written(status),
        status is Completed ==> final(state).total_written == status_written(status) && opt_text(
            final(state).returned_path,
        ) == Some(status->Completed_path@),
        !(status is Completed) ==> final(state).total_written == old(state).total_written && opt_text(
            final(state).returned_path,
        ) == opt_text(old(state).returned_path),
        match status {
            UnixfsStatus::Failed { written, error } => r.1 && is_failure(r.0, name@, written) && failure_error(r.0)
                == error,
            UnixfsStatus::Completed { written, total_size, .. } => !r.1 && is_progress(r.0, name@, written, total_size),
            UnixfsStatus::Progress { written, total_size } => !r.1 && is_progress(r.0, name@, written, total_size),
        },
{
    match status {
        UnixfsStatus::Completed { path, written, total_size } => {
            state.returned_path = Some(path);
            state.total_written = written;
            state.last_written = written;
            (Progression::CurrentProgress { name: name.clone(), current: written, total: total_size }, false)
        },
        UnixfsStatus::Failed { written, error } => {
            state.last_written = written;
            (Progression::ProgressFailed { name: name.clone(), last_size: Some(written), error }, true)
        },
        UnixfsStatus::Progress { written, total_size } => {
            state.last_written = written;
            (Progression::CurrentProgress { name: name.clone(), current: written, total: total_size }, false)
        },
    }
}

/// Where an upload's content went, once all reports are in; an upload that
/// never completed fails.
pub fn upload_result(state: &UploadState, name: &String) -> (r: Result<String, Progression>)
    ensures
        match state.returned_path {
            Some(p) => r matches Ok(q) && q@ == p@,
            None => r matches Err(f) && is_failure(f, name@, state.last_written) && failure_error(f) == Error::Other,
        },
{
    match &state.returned_path {
        Some(p) => Ok(p.clone()),
        None => Err(Progression::ProgressFailed { name: name.clone(), last_size: Some(state.last_written), error: Error::Other }),
    }
}

} // verus!
