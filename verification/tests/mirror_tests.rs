use image_plugins::error::Error;
use image_plugins::mirror::process_image;

#[test]
fn test_mirror_image_vertical() {
    let mut buf: Vec<u8> = (0..16).collect();
    let json = "{\"vertical_flip\": true, \"horizontal_flip\": false}";
    let res = process_image(2, 2, &mut buf, Some(json));
    assert!(res.is_ok());
    assert_eq!(buf, vec![8, 9, 10, 11, 12, 13, 14, 15, 0, 1, 2, 3, 4, 5, 6, 7]);
}

#[test]
fn test_mirror_image_horizontal() {
    let mut buf: Vec<u8> = (0..16).collect();
    let json = "{\"vertical_flip\": false, \"horizontal_flip\": true}";
    let res = process_image(2, 2, &mut buf, Some(json));
    assert!(res.is_ok());
    assert_eq!(buf, vec![4, 5, 6, 7, 0, 1, 2, 3, 12, 13, 14, 15, 8, 9, 10, 11]);
}

/// Vertical flip is an involution: applying it twice restores the buffer.
#[test]
fn mirror_vertical_twice_restores_buffer() {
    let mut buf: Vec<u8> = (0..60).map(|v| (v * 3) as u8).collect();
    let original = buf.clone();
    let json = "{\"vertical_flip\": true}";
    assert!(process_image(3, 5, &mut buf, Some(json)).is_ok());
    assert_ne!(buf, original);
    assert!(process_image(3, 5, &mut buf, Some(json)).is_ok());
    assert_eq!(buf, original);
}

/// Horizontal flip is an involution: applying it twice restores the buffer.
#[test]
fn mirror_horizontal_twice_restores_buffer() {
    let mut buf: Vec<u8> = (0..60).map(|v| (v * 7) as u8).collect();
    let original = buf.clone();
    let json = "{\"horizontal_flip\": true}";
    assert!(process_image(3, 5, &mut buf, Some(json)).is_ok());
    assert_ne!(buf, original);
    assert!(process_image(3, 5, &mut buf, Some(json)).is_ok());
    assert_eq!(buf, original);
}

/// The flips commute: vertical-then-horizontal equals
/// horizontal-then-vertical, and equals one call requesting both.
#[test]
fn mirror_flip_order_does_not_matter() {
    let src: Vec<u8> = (0..96).map(|v| (v * 11) as u8).collect();

    let mut vh = src.clone();
    assert!(process_image(4, 6, &mut vh, Some("{\"vertical_flip\": true}")).is_ok());
    assert!(process_image(4, 6, &mut vh, Some("{\"horizontal_flip\": true}")).is_ok());

    let mut hv = src.clone();
    assert!(process_image(4, 6, &mut hv, Some("{\"horizontal_flip\": true}")).is_ok());
    assert!(process_image(4, 6, &mut hv, Some("{\"vertical_flip\": true}")).is_ok());

    let mut both = src.clone();
    let json = "{\"vertical_flip\": true, \"horizontal_flip\": true}";
    assert!(process_image(4, 6, &mut both, Some(json)).is_ok());

    assert_eq!(vh, hv);
    assert_eq!(vh, both);
}

#[test]
fn mirror_both_flips_golden() {
    let mut buf: Vec<u8> = (0..16).collect();
    let json = "{\"vertical_flip\": true, \"horizontal_flip\": true}";
    let res = process_image(2, 2, &mut buf, Some(json));
    assert!(res.is_ok());
    assert_eq!(buf, vec![12, 13, 14, 15, 8, 9, 10, 11, 4, 5, 6, 7, 0, 1, 2, 3]);
}

/// An odd height leaves the middle row in place; an odd width leaves each
/// row's middle pixel in place.
#[test]
fn mirror_odd_dimensions_keep_middle() {
    let mut buf: Vec<u8> = (0..36).collect();
    assert!(process_image(3, 3, &mut buf, Some("{\"vertical_flip\": true}")).is_ok());
    assert_eq!(&buf[12..24], &(12..24).collect::<Vec<u8>>()[..]);

    let mut buf2: Vec<u8> = (0..36).collect();
    assert!(process_image(3, 3, &mut buf2, Some("{\"horizontal_flip\": true}")).is_ok());
    assert_eq!(&buf2[4..8], &(4..8).collect::<Vec<u8>>()[..]);
}

#[test]
fn mirror_no_flags_is_identity_success() {
    let mut buf: Vec<u8> = (0..16).collect();
    let res = process_image(2, 2, &mut buf, Some("{}"));
    assert!(res.is_ok());
    let expected: Vec<u8> = (0..16).collect();
    assert_eq!(buf, expected);
}

#[test]
fn mirror_null_params_is_a_no_op() {
    let mut buf: Vec<u8> = (0..16).collect();
    let res = process_image(2, 2, &mut buf, None);
    assert!(matches!(res, Err(Error::NullPointerParams)));
    let expected: Vec<u8> = (0..16).collect();
    assert_eq!(buf, expected);
}

/// Well-formed JSON of the wrong shape (not an object) is rejected as such
/// and leaves the buffer unchanged.
#[test]
fn mirror_non_object_json_is_a_no_op() {
    let mut buf: Vec<u8> = (0..16).collect();
    let res = process_image(2, 2, &mut buf, Some("\"vertical_flip\""));
    assert!(matches!(
        res,
        Err(Error::ParamsAreNotValidJSON(image_plugins::error::DecodeError::NotAnObject))
    ));
    let expected: Vec<u8> = (0..16).collect();
    assert_eq!(buf, expected);
}

#[test]
fn mirror_null_buffer_is_rejected() {
    let res = image_plugins::mirror::preamble(2, 2, true, Some("{\"vertical_flip\": true}"));
    assert!(matches!(res, Err(Error::NullPointerRGBABuffer)));
}

#[test]
fn mirror_zero_dimension_is_a_no_op() {
    let mut buf: Vec<u8> = (0..16).collect();
    assert!(process_image(0, 2, &mut buf, Some("{\"vertical_flip\": true}")).is_err());
    assert!(process_image(2, 0, &mut buf, Some("{\"vertical_flip\": true}")).is_err());
    let expected: Vec<u8> = (0..16).collect();
    assert_eq!(buf, expected);
}
