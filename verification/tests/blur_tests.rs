use image_plugins::blur::blur_rgba;
use image_plugins::blur::process_image;
use image_plugins::error::DecodeError;
use image_plugins::error::Error;

#[test]
fn test_blur_rgba() {
    let buf: Vec<u8> = vec![1; 400];
    let result = blur_rgba(&buf, 0, 10, 10, 4, 1, 0);
    assert!(result.is_ok());
    assert_eq!(result.unwrap().0, 1);
}

#[test]
fn test_blur_image() {
    let mut buf: Vec<u8> = (0..16).collect();
    let json = "{\"step\": 1, \"radius\": 2}";
    let res = process_image(2, 2, &mut buf, Some(json));
    assert!(res.is_ok());
    assert_eq!(buf, vec![3, 4, 6, 7, 5, 7, 5, 7, 5, 8, 8, 9, 8, 9, 4, 7]);
}

/// A radius at the signed 32-bit maximum must surface as a distinguishable
/// overflow outcome, not a wrapped index: the first neighbor offset of the
/// very first window position already leaves the 32-bit range.
#[test]
fn test_blur_rgba_overflow() {
    let buf: Vec<u8> = (0..16).collect();
    let radius = i32::MAX as usize;
    let result = blur_rgba(&buf, 0, 2, 2, 4, radius, 0);
    assert!(result.is_err());
    assert!(matches!(result.unwrap_err(), Error::OverflowError));
}

/// The same overflow through the full entry point: every channel's window
/// overflows, so the call succeeds as a whole but writes nothing.
#[test]
fn blur_overflow_radius_leaves_buffer_unchanged() {
    let mut buf: Vec<u8> = (0..16).collect();
    let json = "{\"step\": 1, \"radius\": 2147483647}";
    let res = process_image(2, 2, &mut buf, Some(json));
    assert!(res.is_ok());
    let expected: Vec<u8> = (0..16).collect();
    assert_eq!(buf, expected);
}

#[test]
fn blur_never_resizes_buffer() {
    let mut buf: Vec<u8> = (0..48).map(|v| (v * 5) as u8).collect();
    let json = "{\"step\": 3, \"radius\": 1}";
    let res = process_image(4, 3, &mut buf, Some(json));
    assert!(res.is_ok());
    assert_eq!(buf.len(), 48);
}

/// The mean of in-range samples stays in range: a saturated buffer stays
/// saturated, byte for byte.
#[test]
fn blur_mean_stays_in_range() {
    let mut buf: Vec<u8> = vec![255; 16];
    let json = "{\"step\": 2, \"radius\": 1}";
    let res = process_image(2, 2, &mut buf, Some(json));
    assert!(res.is_ok());
    assert_eq!(buf, vec![255; 16]);
}

#[test]
fn blur_null_params_is_a_no_op() {
    let mut buf: Vec<u8> = (0..16).collect();
    let res = process_image(2, 2, &mut buf, None);
    assert!(matches!(res, Err(Error::NullPointerParams)));
    let expected: Vec<u8> = (0..16).collect();
    assert_eq!(buf, expected);
}

#[test]
fn blur_malformed_json_is_a_no_op() {
    let mut buf: Vec<u8> = (0..16).collect();
    let res = process_image(2, 2, &mut buf, Some("{\"radius\": 2,"));
    assert!(matches!(
        res,
        Err(Error::ParamsAreNotValidJSON(DecodeError::MalformedJson))
    ));
    let expected: Vec<u8> = (0..16).collect();
    assert_eq!(buf, expected);
}

/// Well-formed JSON of the wrong shape (not an object) is rejected as such
/// and leaves the buffer unchanged.
#[test]
fn blur_non_object_json_is_a_no_op() {
    let mut buf: Vec<u8> = (0..16).collect();
    let res = process_image(2, 2, &mut buf, Some("[1, 2, 3]"));
    assert!(matches!(
        res,
        Err(Error::ParamsAreNotValidJSON(DecodeError::NotAnObject))
    ));
    let expected: Vec<u8> = (0..16).collect();
    assert_eq!(buf, expected);
}

#[test]
fn blur_zero_width_is_a_no_op() {
    let mut buf: Vec<u8> = (0..16).collect();
    let res = process_image(0, 2, &mut buf, Some("{\"step\": 1, \"radius\": 2}"));
    assert!(res.is_err());
    let expected: Vec<u8> = (0..16).collect();
    assert_eq!(buf, expected);
}

#[test]
fn blur_zero_height_is_a_no_op() {
    let mut buf: Vec<u8> = (0..16).collect();
    let res = process_image(2, 0, &mut buf, Some("{\"step\": 1, \"radius\": 2}"));
    assert!(res.is_err());
    let expected: Vec<u8> = (0..16).collect();
    assert_eq!(buf, expected);
}

#[test]
fn blur_zero_radius_is_rejected() {
    let mut buf: Vec<u8> = (0..16).collect();
    let res = process_image(2, 2, &mut buf, Some("{\"step\": 1, \"radius\": 0}"));
    assert!(matches!(res, Err(Error::ErrorValue(_))));
    let expected: Vec<u8> = (0..16).collect();
    assert_eq!(buf, expected);
}

#[test]
fn blur_zero_step_is_rejected() {
    let mut buf: Vec<u8> = (0..16).collect();
    let res = process_image(2, 2, &mut buf, Some("{\"step\": 0, \"radius\": 1}"));
    assert!(matches!(res, Err(Error::ErrorValue(_))));
    let expected: Vec<u8> = (0..16).collect();
    assert_eq!(buf, expected);
}

/// A null buffer pointer is caught by the validation preamble before any
/// buffer is touched.
#[test]
fn blur_null_buffer_is_rejected() {
    let res = image_plugins::blur::preamble(2, 2, true, Some("{\"step\": 1, \"radius\": 2}"));
    assert!(matches!(res, Err(Error::NullPointerRGBABuffer)));
}

#[test]
fn blur_missing_radius_is_rejected() {
    let mut buf: Vec<u8> = (0..16).collect();
    let res = process_image(2, 2, &mut buf, Some("{\"step\": 1}"));
    assert!(matches!(
        res,
        Err(Error::ParamsAreNotValidJSON(DecodeError::MissingField))
    ));
    let expected: Vec<u8> = (0..16).collect();
    assert_eq!(buf, expected);
}
