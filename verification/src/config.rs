//! JSON configuration decoding for the transform plugins.
//!
//! A configuration string is parsed by serde_json behind a small set of
//! trusted declarations, each a function of the text alone; everything
//! after the parse — which fields are required, which shapes are accepted,
//! and which decode error each input earns — is the library's own verified
//! logic, and the decoded configuration is pinned to the text by the named
//! field lookup [`field_of`].

use vstd::prelude::*;

use crate::error::{DecodeError, Error};

verus! {

#[verifier::external_type_specification]
#[verifier::external_body]
pub struct ExJsonValue(serde_json::Value);

/// Whether a character sequence is well-formed JSON text, as serde_json's
/// parser accepts it.
pub uninterp spec fn json_wf(s: Seq<char>) -> bool;

/// Whether a character sequence is well-formed JSON text whose top level
/// is a JSON object.
pub uninterp spec fn json_object_wf(s: Seq<char>) -> bool;

/// What the JSON object written in `s` holds under `key`, reduced to the
/// plain shapes the plugin configurations use. A function of the text and
/// the key alone.
pub uninterp spec fn field_of(s: Seq<char>, key: Seq<char>) -> JsonField;

/// What a JSON object holds under one key, reduced to the plain shapes that
/// the plugin configurations use.
#[derive(Debug)]
pub enum JsonField {
    /// The key does not appear in the object.
    Absent,
    /// The key holds JSON `null`.
    Null,
    /// The key holds a boolean.
    Bool(bool),
    /// The key holds a non-negative integer that fits in 64 bits.
    UInt(u64),
    /// The key holds a string.
    Text(String),
    /// The key holds anything else (a float, a negative or oversized number,
    /// an array, or a nested object).
    Other,
}

/// Relies on serde_json::from_str::<Value> and Value::is_object: parsing
/// succeeds exactly for well-formed JSON text, the parsed value is an
/// object exactly for object text, and both depend on the text alone.
#[verifier::external_body]
fn probe_object(s: &str) -> (r: Result<(), DecodeError>)
    ensures
        r is Ok <==> (json_wf(s@) && json_object_wf(s@)),
        r matches Err(e) ==> (e == DecodeError::MalformedJson <==> !json_wf(s@)),
        r matches Err(e) ==> (e == DecodeError::NotAnObject <==> (json_wf(s@) && !json_object_wf(
            s@,
        ))),
{
    let v: serde_json::Value = match serde_json::from_str(s) {
        Ok(v) => v,
        Err(_) => return Err(DecodeError::MalformedJson),
    };
    if v.is_object() {
        Ok(())
    } else {
        Err(DecodeError::NotAnObject)
    }
}

/// Relies on serde_json::from_str::<Value>, Value::get and Number::as_u64:
/// each arm carries one variant of the value stored under `key` over into
/// [`JsonField`], and the whole lookup depends on the text and the key
/// alone. Text that is not a JSON object has no fields.
#[verifier::external_body]
fn lookup_field(s: &str, key: &str) -> (f: JsonField)
    ensures
        f == field_of(s@, key@),
{
    let v: serde_json::Value = match serde_json::from_str(s) {
        Ok(v) => v,
        Err(_) => return JsonField::Absent,
    };
    match v.get(key) {
        None => JsonField::Absent,
        Some(serde_json::Value::Null) => JsonField::Null,
        Some(serde_json::Value::Bool(b)) => JsonField::Bool(*b),
        Some(serde_json::Value::Number(n)) => match n.as_u64() {
            Some(u) => JsonField::UInt(u),
            None => JsonField::Other,
        },
        Some(serde_json::Value::String(t)) => JsonField::Text(t.clone()),
        Some(_) => JsonField::Other,
    }
}

/// A configuration string checked to be a JSON object, ready for field
/// lookup. Its view is the text it was parsed from.
pub struct ParamsObject {
    text: String,
}

impl View for ParamsObject {
    type V = Seq<char>;

    closed spec fn view(&self) -> Seq<char> {
        self.text@
    }
}

impl ParamsObject {
    /// Parses a configuration string, accepting exactly the well-formed
    /// JSON texts whose top level is an object, and telling the two ways of
    /// falling short apart.
    pub fn parse(s: &str) -> (r: Result<ParamsObject, DecodeError>)
        ensures
            (!json_wf(s@)) <==> r == Err::<ParamsObject, DecodeError>(DecodeError::MalformedJson),
            (json_wf(s@) && !json_object_wf(s@)) <==> r == Err::<ParamsObject, DecodeError>(
                DecodeError::NotAnObject,
            ),
            (json_wf(s@) && json_object_wf(s@)) <==> r is Ok,
            r matches Ok(o) ==> o@ == s@,
    {
        match probe_object(s) {
            Ok(_) => Ok(ParamsObject { text: s.to_owned() }),
            Err(e) => Err(e),
        }
    }

    /// What the object holds under `key`: exactly the named field of the
    /// underlying text.
    pub fn field(&self, key: &str) -> (f: JsonField)
        ensures
            f == field_of(self@, key@),
    {
        lookup_field(self.text.as_str(), key)
    }
}

/// Decoding of a required unsigned-integer field: present 64-bit
/// non-negative integers that fit the platform's `usize` are accepted, an
/// absent key is a missing field, and every other shape is invalid.
pub open spec fn spec_req_uint(f: JsonField) -> Result<usize, DecodeError> {
    match f {
        JsonField::UInt(u) => if u <= usize::MAX as u64 {
            Ok(u as usize)
        } else {
            Err(DecodeError::InvalidField)
        },
        JsonField::Absent => Err(DecodeError::MissingField),
        _ => Err(DecodeError::InvalidField),
    }
}

/// Decoding of an optional boolean field: an absent key or `null` stands for
/// no request, and every non-boolean shape is invalid.
pub open spec fn spec_opt_bool(f: JsonField) -> Result<Option<bool>, DecodeError> {
    match f {
        JsonField::Absent => Ok(None),
        JsonField::Null => Ok(None),
        JsonField::Bool(b) => Ok(Some(b)),
        _ => Err(DecodeError::InvalidField),
    }
}

/// Decoding of an optional string field: an absent key or `null` stands for
/// no request, and every non-string shape is invalid.
pub open spec fn spec_opt_text(f: JsonField) -> Result<Option<Seq<char>>, DecodeError> {
    match f {
        JsonField::Absent => Ok(None),
        JsonField::Null => Ok(None),
        JsonField::Text(t) => Ok(Some(t@)),
        _ => Err(DecodeError::InvalidField),
    }
}

fn req_uint(f: JsonField) -> (r: Result<usize, DecodeError>)
    ensures
        r == spec_req_uint(f),
{
    match f {
        JsonField::UInt(u) => if u <= usize::MAX as u64 {
            Ok(u as usize)
        } else {
            Err(DecodeError::InvalidField)
        },
        JsonField::Absent => Err(DecodeError::MissingField),
        _ => Err(DecodeError::InvalidField),
    }
}

fn opt_bool(f: JsonField) -> (r: Result<Option<bool>, DecodeError>)
    ensures
        r == spec_opt_bool(f),
{
    match f {
        JsonField::Absent => Ok(None),
        JsonField::Null => Ok(None),
        JsonField::Bool(b) => Ok(Some(b)),
        _ => Err(DecodeError::InvalidField),
    }
}

fn opt_text(f: JsonField) -> (r: Result<Option<String>, DecodeError>)
    ensures
        (r matches Ok(o) && spec_opt_text(f) matches Ok(so) && (match o {
            Some(t) => so == Some(t@),
            None => so is None,
        })) || (r matches Err(e) && spec_opt_text(f) == Err::<Option<Seq<char>>, DecodeError>(e)),
{
    match f {
        JsonField::Absent => Ok(None),
        JsonField::Null => Ok(None),
        JsonField::Text(t) => Ok(Some(t)),
        _ => Err(DecodeError::InvalidField),
    }
}

/// The blur transform's configuration: a blur radius and a pass count, both
/// required, and an optional log-level request.
pub struct BlurConfig {
    /// How many pixels to each side of a sample enter its window. Required
    /// and, for the transform to run, positive.
    pub radius: usize,
    /// How many full passes over the buffer to make. Required and, for the
    /// transform to run, positive.
    pub step: usize,
    /// The log threshold the configuration asks for, if any.
    pub log_level: Option<String>,
}

/// The outcome of decoding a blur configuration from its three fields.
pub open spec fn spec_blur_config(
    radius: JsonField,
    step: JsonField,
    log_level: JsonField,
) -> Result<(usize, usize, Result<Option<Seq<char>>, DecodeError>), DecodeError> {
    match spec_req_uint(radius) {
        Err(e) => Err(e),
        Ok(r) => match spec_req_uint(step) {
            Err(e) => Err(e),
            Ok(s) => Ok((r, s, spec_opt_text(log_level))),
        },
    }
}

/// The outcome of decoding a blur configuration from JSON text: either the
/// radius, pass count and log-level request it asks for, or the first
/// decode error in field order.
pub open spec fn blur_decode(s: Seq<char>) -> Result<
    (usize, usize, Option<Seq<char>>),
    DecodeError,
> {
    if !json_wf(s) {
        Err(DecodeError::MalformedJson)
    } else if !json_object_wf(s) {
        Err(DecodeError::NotAnObject)
    } else {
        match spec_blur_config(
            field_of(s, "radius"@),
            field_of(s, "step"@),
            field_of(s, "log_level"@),
        ) {
            Err(e) => Err(e),
            Ok((r, st, sl)) => match sl {
                Err(e) => Err(e),
                Ok(l) => Ok((r, st, l)),
            },
        }
    }
}

impl BlurConfig {
    /// Builds the configuration from the three JSON fields, applying the
    /// decoding rules exactly.
    pub fn from_fields(radius: JsonField, step: JsonField, log_level: JsonField) -> (r: Result<
        BlurConfig,
        DecodeError,
    >)
        ensures
            match spec_blur_config(radius, step, log_level) {
                Err(e) => r == Err::<BlurConfig, DecodeError>(e),
                Ok((sr, ss, sl)) => match sl {
                    Err(e) => r == Err::<BlurConfig, DecodeError>(e),
                    Ok(so) => r matches Ok(c) && c.radius == sr && c.step == ss && (match c
                        .log_level {
                        Some(t) => so == Some(t@),
                        None => so is None,
                    }),
                },
            },
    {
        let r = match req_uint(radius) {
            Ok(r) => r,
            Err(e) => { return Err(e); },
        };
        let s = match req_uint(step) {
            Ok(s) => s,
            Err(e) => { return Err(e); },
        };
        let l = match opt_text(log_level) {
            Ok(l) => l,
            Err(e) => { return Err(e); },
        };
        Ok(BlurConfig { radius: r, step: s, log_level: l })
    }
}

/// The mirror transform's configuration: two optional flip requests and an
/// optional log-level request.
pub struct MirrorConfig {
    /// Whether to exchange rows top-for-bottom.
    pub vertical_flip: Option<bool>,
    /// Whether to exchange pixels left-for-right within each row.
    pub horizontal_flip: Option<bool>,
    /// The log threshold the configuration asks for, if any.
    pub log_level: Option<String>,
}

/// The outcome of decoding a mirror configuration from its three fields.
pub open spec fn spec_mirror_config(
    vertical: JsonField,
    horizontal: JsonField,
    log_level: JsonField,
) -> Result<(Option<bool>, Option<bool>, Result<Option<Seq<char>>, DecodeError>), DecodeError> {
    match spec_opt_bool(vertical) {
        Err(e) => Err(e),
        Ok(v) => match spec_opt_bool(horizontal) {
            Err(e) => Err(e),
            Ok(h) => Ok((v, h, spec_opt_text(log_level))),
        },
    }
}

/// The outcome of decoding a mirror configuration from JSON text: either
/// the two flip requests and the log-level request it asks for, or the
/// first decode error in field order.
pub open spec fn mirror_decode(s: Seq<char>) -> Result<
    (Option<bool>, Option<bool>, Option<Seq<char>>),
    DecodeError,
> {
    if !json_wf(s) {
        Err(DecodeError::MalformedJson)
    } else if !json_object_wf(s) {
        Err(DecodeError::NotAnObject)
    } else {
        match spec_mirror_config(
            field_of(s, "vertical_flip"@),
            field_of(s, "horizontal_flip"@),
            field_of(s, "log_level"@),
        ) {
            Err(e) => Err(e),
            Ok((v, h, sl)) => match sl {
                Err(e) => Err(e),
                Ok(l) => Ok((v, h, l)),
            },
        }
    }
}

impl MirrorConfig {
    /// Builds the configuration from the three JSON fields, applying the
    /// decoding rules exactly.
    pub fn from_fields(vertical: JsonField, horizontal: JsonField, log_level: JsonField) -> (r:
        Result<MirrorConfig, DecodeError>)
        ensures
            match spec_mirror_config(vertical, horizontal, log_level) {
                Err(e) => r == Err::<MirrorConfig, DecodeError>(e),
                Ok((sv, sh, sl)) => match sl {
                    Err(e) => r == Err::<MirrorConfig, DecodeError>(e),
                    Ok(so) => r matches Ok(c) && c.vertical_flip == sv && c.horizontal_flip == sh
                        && (match c.log_level {
                        Some(t) => so == Some(t@),
                        None => so is None,
                    }),
                },
            },
    {
        let v = match opt_bool(vertical) {
            Ok(v) => v,
            Err(e) => { return Err(e); },
        };
        let h = match opt_bool(horizontal) {
            Ok(h) => h,
            Err(e) => { return Err(e); },
        };
        let l = match opt_text(log_level) {
            Ok(l) => l,
            Err(e) => { return Err(e); },
        };
        Ok(MirrorConfig { vertical_flip: v, horizontal_flip: h, log_level: l })
    }
}

/// Wraps a configuration value decoded from a JSON string.
pub struct ConfigReader<T> {
    /// The decoded configuration.
    pub config: T,
}

impl ConfigReader<BlurConfig> {
    /// Decodes a blur configuration from JSON text: the result is exactly
    /// what [`blur_decode`] says the text asks for.
    pub fn try_from(value: &str) -> (r: Result<ConfigReader<BlurConfig>, Error>)
        ensures
            match blur_decode(value@) {
                Err(e) => r == Err::<ConfigReader<BlurConfig>, Error>(
                    Error::ParamsAreNotValidJSON(e),
                ),
                Ok((br, bs, bl)) => r matches Ok(cr) && cr.config.radius == br && cr.config.step
                    == bs && (match cr.config.log_level {
                    Some(t) => bl == Some(t@),
                    None => bl is None,
                }),
            },
            r matches Err(e) ==> e is ParamsAreNotValidJSON,
    {
        let obj = match ParamsObject::parse(value) {
            Ok(o) => o,
            Err(e) => { return Err(Error::ParamsAreNotValidJSON(e)); },
        };
        let radius = obj.field("radius");
        let step = obj.field("step");
        let log_level = obj.field("log_level");
        match BlurConfig::from_fields(radius, step, log_level) {
            Ok(c) => Ok(ConfigReader { config: c }),
            Err(e) => Err(Error::ParamsAreNotValidJSON(e)),
        }
    }
}

impl ConfigReader<MirrorConfig> {
    /// Decodes a mirror configuration from JSON text: the result is exactly
    /// what [`mirror_decode`] says the text asks for.
    pub fn try_from(value: &str) -> (r: Result<ConfigReader<MirrorConfig>, Error>)
        ensures
            match mirror_decode(value@) {
                Err(e) => r == Err::<ConfigReader<MirrorConfig>, Error>(
                    Error::ParamsAreNotValidJSON(e),
                ),
                Ok((mv, mh, ml)) => r matches Ok(cr) && cr.config.vertical_flip == mv
                    && cr.config.horizontal_flip == mh && (match cr.config.log_level {
                    Some(t) => ml == Some(t@),
                    None => ml is None,
                }),
            },
            r matches Err(e) ==> e is ParamsAreNotValidJSON,
    {
        let obj = match ParamsObject::parse(value) {
            Ok(o) => o,
            Err(e) => { return Err(Error::ParamsAreNotValidJSON(e)); },
        };
        let vertical = obj.field("vertical_flip");
        let horizontal = obj.field("horizontal_flip");
        let log_level = obj.field("log_level");
        match MirrorConfig::from_fields(vertical, horizontal, log_level) {
            Ok(c) => Ok(ConfigReader { config: c }),
            Err(e) => Err(Error::ParamsAreNotValidJSON(e)),
        }
    }
}

} // verus!
