//! The size limits on profile images: while one is stored, and before one is
//! read back. Storing and reading the bytes are the caller's part.
use crate::error::{is_length_error, Error};
use vstd::prelude::*;

verus! {

/// While a photo is being stored, with `written` bytes written so far:
/// storing fails once more than `limit` bytes are written.
pub fn check_photo_progress(written: usize, limit: Option<usize>) -> (r: Result<(), Error>)
    ensures
        limit matches Some(l) && written > l ==> (r matches Err(e) && is_length_error(
            e,
            "photo"@,
            written,
            Some(1),
            limit,
        )),
        !(limit matches Some(l) && written > l) ==> r == Ok::<(), Error>(()),
{
    match limit {
        Some(l) => {
            if written > l {
                return Err(
                    Error::InvalidLength {
                        context: String::from_str("photo"),
                        current: written,
                        minimum: Some(1),
                        maximum: Some(l),
                    },
                );
            }
            Ok(())
        },
        None => Ok(()),
    }
}

/// How many bytes of a stored image of recorded size `size` are read: an
/// image larger than `limit` is refused; otherwise at most `limit` bytes, or
/// `size` bytes when there is no limit.
pub fn image_read_length(size: u64, limit: Option<usize>) -> (r: Result<usize, Error>)
    requires
        size <= usize::MAX,
    ensures
        limit matches Some(l) && size > l ==> (r matches Err(e) && is_length_error(
            e,
            "image"@,
            size as usize,
            None,
            limit,
        )),
        limit matches Some(l) && size <= l ==> r == Ok::<usize, Error>(limit.unwrap()),
        limit is None ==> r == Ok::<usize, Error>(size as usize),
{
    match limit {
        Some(l) => {
            if size > l as u64 {
                return Err(
                    Error::InvalidLength {
                        context: String::from_str("image"),
                        current: size as usize,
                        minimum: None,
                        maximum: Some(l),
                    },
                );
            }
            Ok(l)
        },
        None => Ok(size as usize),
    }
}

} // verus!
