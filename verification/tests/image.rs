use warp_ipfs::error::Error;
use warp_ipfs::image::{check_photo_progress, image_read_length};

#[test]
fn storing_a_photo_stops_past_its_limit() {
    assert_eq!(check_photo_progress(10, None), Ok(()));
    assert_eq!(check_photo_progress(10, Some(10)), Ok(()));
    assert_eq!(
        check_photo_progress(11, Some(10)),
        Err(Error::InvalidLength { context: "photo".into(), current: 11, minimum: Some(1), maximum: Some(10) })
    );
}

#[test]
fn reading_an_image_respects_its_limit() {
    assert_eq!(image_read_length(300, None), Ok(300));
    assert_eq!(image_read_length(300, Some(2048)), Ok(2048));
    assert_eq!(image_read_length(2048, Some(2048)), Ok(2048));
    assert_eq!(
        image_read_length(2049, Some(2048)),
        Err(Error::InvalidLength { context: "image".into(), current: 2049, minimum: None, maximum: Some(2048) })
    );
}
