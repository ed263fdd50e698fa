//! The encoding configuration of a destination: its codec, the fields that
//! survive serialization, and how timestamps are rendered.

use vstd::prelude::*;
use vstd::std_specs::cmp::PartialEqSpec;

verus! {

/// How outgoing timestamps are rendered.
#[derive(Clone, Copy, Debug, PartialEq, Eq, Structural)]
pub enum TimestampFormat {
    Unix,
    Rfc3339,
}

/// Why a payload does not give a usable configuration.
#[derive(Clone, Copy, Debug, PartialEq, Eq, Structural)]
pub enum ConfigError {
    /// Both `only_fields` and `except_fields` name fields.
    MutuallyExclusiveFields,
    /// The payload is neither a scalar nor a structured object.
    ExpectedStringOrMap,
}

/// A list of field names as a sequence of texts.
pub open spec fn names_model(names: Option<Vec<String>>) -> Option<Seq<Seq<char>>> {
    match names {
        None => None,
        Some(v) => Some(v@.map_values(|s: String| s@)),
    }
}

/// What a configuration holds.
pub ghost struct EncodingModel<E> {
    pub codec: E,
    pub only_fields: Option<Seq<Seq<char>>>,
    pub except_fields: Option<Seq<Seq<char>>>,
    pub timestamp_format: Option<TimestampFormat>,
}

/// Whether an allow-list and a deny-list both name fields.
pub open spec fn both_name_fields(
    only_fields: Option<Seq<Seq<char>>>,
    except_fields: Option<Seq<Seq<char>>>,
) -> bool {
    &&& only_fields is Some
    &&& only_fields->Some_0.len() > 0
    &&& except_fields is Some
    &&& except_fields->Some_0.len() > 0
}

impl<E> EncodingModel<E> {
    /// A configuration that names the codec and nothing else.
    pub open spec fn of_codec(codec: E) -> Self {
        EncodingModel { codec, only_fields: None, except_fields: None, timestamp_format: None }
    }

    /// The allow-list and the deny-list do not both name fields.
    pub open spec fn valid(self) -> bool {
        !both_name_fields(self.only_fields, self.except_fields)
    }
}

/// The fields of a structured payload; one that the object leaves out is
/// `None`.
pub struct Inner<E> {
    pub codec: Option<E>,
    pub only_fields: Option<Vec<String>>,
    pub except_fields: Option<Vec<String>>,
    pub timestamp_format: Option<TimestampFormat>,
}

/// A configuration payload by its shape.
pub enum Payload<E> {
    /// A bare scalar, which names the codec.
    Scalar(E),
    /// A structured object.
    Structured(Inner<E>),
    /// Anything else.
    Other,
}

/// An encoding configuration whose codec has a default.
#[derive(Clone, Debug, PartialEq, Eq)]
pub struct EncodingConfigWithDefault<E> {
    codec: E,
    only_fields: Option<Vec<String>>,
    except_fields: Option<Vec<String>>,
    timestamp_format: Option<TimestampFormat>,
}

/// An encoding configuration whose codec has no default.
#[derive(Clone, Debug, PartialEq, Eq)]
pub struct EncodingConfig<E> {
    codec: E,
    only_fields: Option<Vec<String>>,
    except_fields: Option<Vec<String>>,
    timestamp_format: Option<TimestampFormat>,
}

/// Whether a list is present and names at least one field.
fn names_some(names: &Option<Vec<String>>) -> (r: bool)
    ensures
        r <==> names_model(*names) is Some && names_model(*names)->Some_0.len() > 0,
{
    match names {
        Some(v) => v.len() > 0,
        None => false,
    }
}

impl<E> View for EncodingConfigWithDefault<E> {
    type V = EncodingModel<E>;

    /// What the configuration holds.
    closed spec fn view(&self) -> EncodingModel<E> {
        EncodingModel {
            codec: self.codec,
            only_fields: names_model(self.only_fields),
            except_fields: names_model(self.except_fields),
            timestamp_format: self.timestamp_format,
        }
    }
}

impl<E> View for EncodingConfig<E> {
    type V = EncodingModel<E>;

    /// What the configuration holds.
    closed spec fn view(&self) -> EncodingModel<E> {
        EncodingModel {
            codec: self.codec,
            only_fields: names_model(self.only_fields),
            except_fields: names_model(self.except_fields),
            timestamp_format: self.timestamp_format,
        }
    }
}

/// What reading a payload gives: the configuration that it stands for, or
/// why it stands for none.
pub open spec fn deserialized<E: Default>(
    payload: Payload<E>,
    r: Result<EncodingModel<E>, ConfigError>,
) -> bool {
    match payload {
        Payload::Other => r == Err::<EncodingModel<E>, ConfigError>(
            ConfigError::ExpectedStringOrMap,
        ),
        Payload::Scalar(codec) => r == Ok::<EncodingModel<E>, ConfigError>(
            EncodingModel::of_codec(codec),
        ),
        Payload::Structured(inner) => if both_name_fields(
            names_model(inner.only_fields),
            names_model(inner.except_fields),
        ) {
            r == Err::<EncodingModel<E>, ConfigError>(ConfigError::MutuallyExclusiveFields)
        } else {
            &&& r is Ok
            &&& r->Ok_0.only_fields == names_model(inner.only_fields)
            &&& r->Ok_0.except_fields == names_model(inner.except_fields)
            &&& r->Ok_0.timestamp_format == inner.timestamp_format
            &&& match inner.codec {
                Some(codec) => r->Ok_0.codec == codec,
                None => call_ensures(E::default, (), r->Ok_0.codec),
            }
        },
    }
}

/// Whether a structured payload is the serialized form of a configuration:
/// it holds the two lists and the timestamp format as they are, each left
/// out where the configuration has none, and the codec unless it is equal
/// to the default.
pub open spec fn serialized<E: Default + PartialEq>(c: EncodingModel<E>, inner: Inner<E>) -> bool {
    &&& names_model(inner.only_fields) == c.only_fields
    &&& names_model(inner.except_fields) == c.except_fields
    &&& inner.timestamp_format == c.timestamp_format
    &&& exists|d: E| codec_written(c.codec, inner.codec, d)
}

/// Whether `written` is what a serialized form holds for `codec`, with `d`
/// a default of the codec: nothing where the codec is equal to `d`, and
/// else the codec.
pub open spec fn codec_written<E: Default + PartialEq>(codec: E, written: Option<E>, d: E) -> bool {
    &&& call_ensures(E::default, (), d)
    &&& match written {
        Some(held) => held == codec && (E::obeys_eq_spec() ==> !codec.eq_spec(&d)),
        None => E::obeys_eq_spec() ==> codec.eq_spec(&d),
    }
}

/// The configuration that a result holds, as a plain value.
pub open spec fn result_model<E>(r: Result<EncodingConfigWithDefault<E>, ConfigError>) -> Result<
    EncodingModel<E>,
    ConfigError,
> {
    match r {
        Ok(config) => Ok(config@),
        Err(e) => Err(e),
    }
}

impl<E: Default> EncodingConfigWithDefault<E> {
    /// Builds a configuration from a payload of either shape, then checks
    /// that the two field lists exclude each other.
    pub fn deserialize(payload: Payload<E>) -> (r: Result<Self, ConfigError>)
        ensures
            deserialized(payload, result_model(r)),
            r is Ok ==> r->Ok_0@.valid(),
    {
        let concrete = match payload {
            Payload::Other => {
                return Err(ConfigError::ExpectedStringOrMap);
            },
            Payload::Scalar(codec) => EncodingConfigWithDefault {
                codec,
                only_fields: None,
                except_fields: None,
                timestamp_format: None,
            },
            Payload::Structured(inner) => {
                let codec = match inner.codec {
                    Some(codec) => codec,
                    None => E::default(),
                };
                EncodingConfigWithDefault {
                    codec,
                    only_fields: inner.only_fields,
                    except_fields: inner.except_fields,
                    timestamp_format: inner.timestamp_format,
                }
            },
        };
        match concrete.validate() {
            Ok(()) => Ok(concrete),
            Err(e) => Err(e),
        }
    }
}

impl<E: Default + PartialEq> EncodingConfigWithDefault<E> {
    /// The serialized form of the configuration: a structured payload that
    /// leaves out each field that is at its default.
    pub fn into_payload(self) -> (r: Inner<E>)
        ensures
            serialized(self@, r),
    {
        let default_codec = E::default();
        let codec = if self.codec == default_codec {
            None
        } else {
            Some(self.codec)
        };
        assert(codec_written(self@.codec, codec, default_codec));
        Inner {
            codec,
            only_fields: self.only_fields,
            except_fields: self.except_fields,
            timestamp_format: self.timestamp_format,
        }
    }
}

/// Reading the serialized form of a valid configuration gives that
/// configuration again, for a codec whose `==` holds of equal values only
/// and whose default is one value.
pub proof fn law_round_trip<E: Default + PartialEq>(
    c: EncodingModel<E>,
    inner: Inner<E>,
    r: Result<EncodingModel<E>, ConfigError>,
)
    requires
        c.valid(),
        serialized(c, inner),
        deserialized(Payload::Structured(inner), r),
        E::obeys_eq_spec(),
        forall|a: E, b: E| #[trigger] a.eq_spec(&b) ==> a == b,
        forall|a: E, b: E|
            #[trigger] call_ensures(E::default, (), a) && #[trigger] call_ensures(
                E::default,
                (),
                b,
            ) ==> a == b,
    ensures
        r == Ok::<EncodingModel<E>, ConfigError>(c),
{
}

/// Whatever the codec, reading the serialized form of a valid
/// configuration succeeds and gives its two lists and its timestamp
/// format again; it gives its codec again where the form holds one, and a
/// default where it holds none.
pub proof fn law_round_trip_fields<E: Default + PartialEq>(
    c: EncodingModel<E>,
    inner: Inner<E>,
    r: Result<EncodingModel<E>, ConfigError>,
)
    requires
        c.valid(),
        serialized(c, inner),
        deserialized(Payload::Structured(inner), r),
    ensures
        r is Ok,
        r->Ok_0.only_fields == c.only_fields,
        r->Ok_0.except_fields == c.except_fields,
        r->Ok_0.timestamp_format == c.timestamp_format,
        inner.codec is Some ==> r->Ok_0.codec == c.codec,
        inner.codec is None ==> call_ensures(E::default, (), r->Ok_0.codec),
{
}

impl<E> EncodingConfigWithDefault<E> {
    /// Fails when the allow-list and the deny-list both name fields.
    pub fn validate(&self) -> (r: Result<(), ConfigError>)
        ensures
            r is Ok <==> self@.valid(),
            r is Err ==> r->Err_0 == ConfigError::MutuallyExclusiveFields,
    {
        if names_some(&self.only_fields) && names_some(&self.except_fields) {
            Err(ConfigError::MutuallyExclusiveFields)
        } else {
            Ok(())
        }
    }
}

impl<E> EncodingConfigWithDefault<E> {
    /// A configuration that names the codec and nothing else.
    pub fn from(codec: E) -> (r: Self)
        ensures
            r@ == EncodingModel::of_codec(codec),
    {
        EncodingConfigWithDefault {
            codec,
            only_fields: None,
            except_fields: None,
            timestamp_format: None,
        }
    }

    /// The same configuration, without the promise that its codec has a
    /// default.
    pub fn into(self) -> (r: EncodingConfig<E>)
        ensures
            r@ == self@,
    {
        let EncodingConfigWithDefault { codec, only_fields, except_fields, timestamp_format } =
            self;
        EncodingConfig { codec, only_fields, except_fields, timestamp_format }
    }

    /// The same configuration with its codec turned into a codec of
    /// another type.
    pub fn transmute<X: From<E>>(self) -> (r: EncodingConfigWithDefault<X>)
        ensures
            call_ensures(X::from, (self@.codec,), r@.codec),
            r@.only_fields == self@.only_fields,
            r@.except_fields == self@.except_fields,
            r@.timestamp_format == self@.timestamp_format,
    {
        EncodingConfigWithDefault {
            codec: self.codec.into(),
            only_fields: self.only_fields,
            except_fields: self.except_fields,
            timestamp_format: self.timestamp_format,
        }
    }

    /// The same configuration with its codec turned into a codec of
    /// another type, one that need not have a default.
    pub fn without_default<X: From<E>>(self) -> (r: EncodingConfig<X>)
        ensures
            call_ensures(X::from, (self@.codec,), r@.codec),
            r@.only_fields == self@.only_fields,
            r@.except_fields == self@.except_fields,
            r@.timestamp_format == self@.timestamp_format,
    {
        EncodingConfig {
            codec: self.codec.into(),
            only_fields: self.only_fields,
            except_fields: self.except_fields,
            timestamp_format: self.timestamp_format,
        }
    }

    /// The format of the encoding.
    pub fn codec(&self) -> (r: &E)
        ensures
            *r == self@.codec,
    {
        &self.codec
    }

    /// The fields to keep, where only some are kept.
    pub fn only_fields(&self) -> (r: &Option<Vec<String>>)
        ensures
            names_model(*r) == self@.only_fields,
    {
        &self.only_fields
    }

    /// Sets the allow-list and hands back the one that it replaces.
    pub fn set_only_fields(&mut self, fields: Option<Vec<String>>) -> (r: Option<Vec<String>>)
        ensures
            names_model(r) == old(self)@.only_fields,
            final(self)@ == (EncodingModel {
                only_fields: names_model(fields),
                ..old(self)@
            }),
    {
        let mut fields = fields;
        std::mem::swap(&mut self.only_fields, &mut fields);
        fields
    }

    /// The fields to remove, where some are removed.
    pub fn except_fields(&self) -> (r: &Option<Vec<String>>)
        ensures
            names_model(*r) == self@.except_fields,
    {
        &self.except_fields
    }

    /// Sets the deny-list and hands back the one that it replaces.
    pub fn set_except_fields(&mut self, fields: Option<Vec<String>>) -> (r: Option<Vec<String>>)
        ensures
            names_model(r) == old(self)@.except_fields,
            final(self)@ == (EncodingModel {
                except_fields: names_model(fields),
                ..old(self)@
            }),
    {
        let mut fields = fields;
        std::mem::swap(&mut self.except_fields, &mut fields);
        fields
    }

    /// The format for outgoing timestamps, where one is set.
    pub fn timestamp_format(&self) -> (r: &Option<TimestampFormat>)
        ensures
            *r == self@.timestamp_format,
    {
        &self.timestamp_format
    }

    /// Sets the timestamp format and hands back the one that it replaces.
    pub fn set_timestamp_format(&mut self, format: Option<TimestampFormat>) -> (r: Option<
        TimestampFormat,
    >)
        ensures
            r == old(self)@.timestamp_format,
            final(self)@ == (EncodingModel { timestamp_format: format, ..old(self)@ }),
    {
        let mut format = format;
        std::mem::swap(&mut self.timestamp_format, &mut format);
        format
    }
}

impl<E> EncodingConfig<E> {
    /// A configuration that names the codec and nothing else.
    pub fn from(codec: E) -> (r: Self)
        ensures
            r@ == EncodingModel::of_codec(codec),
    {
        EncodingConfig { codec, only_fields: None, except_fields: None, timestamp_format: None }
    }

    /// The same configuration, for a codec that has a default.
    pub fn with_default(self) -> (r: EncodingConfigWithDefault<E>)
        ensures
            r@ == self@,
    {
        EncodingConfigWithDefault {
            codec: self.codec,
            only_fields: self.only_fields,
            except_fields: self.except_fields,
            timestamp_format: self.timestamp_format,
        }
    }

    /// Fails when the allow-list and the deny-list both name fields.
    pub fn validate(&self) -> (r: Result<(), ConfigError>)
        ensures
            r is Ok <==> self@.valid(),
            r is Err ==> r->Err_0 == ConfigError::MutuallyExclusiveFields,
    {
        if names_some(&self.only_fields) && names_some(&self.except_fields) {
            Err(ConfigError::MutuallyExclusiveFields)
        } else {
            Ok(())
        }
    }

    /// The format of the encoding.
    pub fn codec(&self) -> (r: &E)
        ensures
            *r == self@.codec,
    {
        &self.codec
    }

    /// The fields to keep, where only some are kept.
    pub fn only_fields(&self) -> (r: &Option<Vec<String>>)
        ensures
            names_model(*r) == self@.only_fields,
    {
        &self.only_fields
    }

    /// The fields to remove, where some are removed.
    pub fn except_fields(&self) -> (r: &Option<Vec<String>>)
        ensures
            names_model(*r) == self@.except_fields,
    {
        &self.except_fields
    }

    /// The format for outgoing timestamps, where one is set.
    pub fn timestamp_format(&self) -> (r: &Option<TimestampFormat>)
        ensures
            *r == self@.timestamp_format,
    {
        &self.timestamp_format
    }
}

} // verus!
