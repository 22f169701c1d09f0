use image_plugins::config::{BlurConfig, ConfigReader, JsonField, MirrorConfig, ParamsObject};
use image_plugins::error::{DecodeError, Error};

#[test]
fn test_parse_json() {
    let json_str = "{\"step\": 1}";
    let obj = ParamsObject::parse(json_str).unwrap();
    assert!(matches!(obj.field("step"), JsonField::UInt(1)));
}

#[test]
fn blur_config_decodes_all_fields() {
    let json = "{\"radius\": 5, \"step\": 2, \"log_level\": \"debug\"}";
    let reader = ConfigReader::<BlurConfig>::try_from(json).unwrap();
    assert_eq!(reader.config.radius, 5);
    assert_eq!(reader.config.step, 2);
    assert_eq!(reader.config.log_level, Some("debug".to_owned()));
}

#[test]
fn blur_config_ignores_unknown_fields() {
    let json = "{\"radius\": 1, \"step\": 1, \"extra\": [1, 2]}";
    let reader = ConfigReader::<BlurConfig>::try_from(json).unwrap();
    assert_eq!(reader.config.radius, 1);
    assert_eq!(reader.config.log_level, None);
}

#[test]
fn blur_config_missing_step_is_missing_field() {
    let res = ConfigReader::<BlurConfig>::try_from("{\"radius\": 1}");
    assert!(matches!(
        res,
        Err(Error::ParamsAreNotValidJSON(DecodeError::MissingField))
    ));
}

#[test]
fn blur_config_boolean_radius_is_invalid_field() {
    let res = ConfigReader::<BlurConfig>::try_from("{\"radius\": true, \"step\": 1}");
    assert!(matches!(
        res,
        Err(Error::ParamsAreNotValidJSON(DecodeError::InvalidField))
    ));
}

#[test]
fn blur_config_negative_radius_is_invalid_field() {
    let res = ConfigReader::<BlurConfig>::try_from("{\"radius\": -3, \"step\": 1}");
    assert!(matches!(
        res,
        Err(Error::ParamsAreNotValidJSON(DecodeError::InvalidField))
    ));
}

#[test]
fn blur_config_non_object_is_rejected() {
    let res = ConfigReader::<BlurConfig>::try_from("5");
    assert!(matches!(
        res,
        Err(Error::ParamsAreNotValidJSON(DecodeError::NotAnObject))
    ));
}

#[test]
fn blur_config_malformed_text_is_rejected() {
    let res = ConfigReader::<BlurConfig>::try_from("{\"radius\": ");
    assert!(matches!(
        res,
        Err(Error::ParamsAreNotValidJSON(DecodeError::MalformedJson))
    ));
}

#[test]
fn mirror_config_flags_decode() {
    let json = "{\"vertical_flip\": true, \"horizontal_flip\": false}";
    let reader = ConfigReader::<MirrorConfig>::try_from(json).unwrap();
    assert_eq!(reader.config.vertical_flip, Some(true));
    assert_eq!(reader.config.horizontal_flip, Some(false));
    assert_eq!(reader.config.log_level, None);
}

#[test]
fn mirror_config_null_flag_counts_as_absent() {
    let json = "{\"vertical_flip\": null}";
    let reader = ConfigReader::<MirrorConfig>::try_from(json).unwrap();
    assert_eq!(reader.config.vertical_flip, None);
}

#[test]
fn mirror_config_numeric_flag_is_invalid_field() {
    let res = ConfigReader::<MirrorConfig>::try_from("{\"vertical_flip\": 1}");
    assert!(matches!(
        res,
        Err(Error::ParamsAreNotValidJSON(DecodeError::InvalidField))
    ));
}

#[test]
fn numeric_log_level_is_invalid_field() {
    let res = ConfigReader::<BlurConfig>::try_from("{\"radius\": 1, \"step\": 1, \"log_level\": 3}");
    assert!(matches!(
        res,
        Err(Error::ParamsAreNotValidJSON(DecodeError::InvalidField))
    ));
}
