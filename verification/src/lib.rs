//! Telemetry packets, their compact wire format, routing and time sync.
//!
//! Crate root: common telemetry types, error codes and schema helpers.
use vstd::prelude::*;
use vstd::string::StringSliceAdditionalSpecFns;

pub mod config;
pub mod discovery;
pub mod le_bytes;
pub mod queue;
pub mod relay;
pub mod schema;
pub mod router;
pub mod serialize;
pub mod small_payload;
pub mod telemetry_packet;
pub mod text;
pub mod timesync;

use crate::config::{
    get_endpoint_meta, get_message_meta, spec_default_endpoints, spec_endpoint_meta,
    spec_message_element, spec_message_name, spec_reliable_mode, DataEndpoint, DataType,
    MAX_VALUE_DATA_ENDPOINT, MAX_VALUE_DATA_TYPE, STATIC_HEX_LENGTH, STATIC_STRING_LENGTH,
};

verus! {

// ============================================================================
//  Decimal parsing of configuration values
// ============================================================================

/// `true` when every byte is an ASCII decimal digit.
pub open spec fn all_digits(b: Seq<u8>) -> bool {
    forall|i: int| 0 <= i < b.len() ==> 48 <= #[trigger] b[i] <= 57
}

/// The value of a string of ASCII decimal digits (most significant first).
pub open spec fn decimal_value(b: Seq<u8>) -> nat
    decreases b.len(),
{
    if b.len() == 0 {
        0
    } else {
        decimal_value(b.drop_last()) * 10 + (b.last() - 48) as nat
    }
}

proof fn lemma_decimal_value_step(b: Seq<u8>, i: int)
    requires
        0 <= i < b.len(),
    ensures
        decimal_value(b.take(i + 1)) == decimal_value(b.take(i)) * 10 + (b[i] - 48) as nat,
{
    assert(b.take(i + 1).drop_last() =~= b.take(i));
}

proof fn lemma_decimal_value_mono(b: Seq<u8>, i: int, j: int)
    requires
        0 <= i <= j <= b.len(),
        all_digits(b),
    ensures
        decimal_value(b.take(i)) <= decimal_value(b.take(j)),
    decreases j - i,
{
    if i < j {
        lemma_decimal_value_mono(b, i, j - 1);
        lemma_decimal_value_step(b, j - 1);
    }
}

/// Parse a decimal `usize` from a configuration string.
pub fn parse_usize(s: &str) -> (r: usize)
    requires
        all_digits(s.spec_bytes()),
        decimal_value(s.spec_bytes()) <= usize::MAX,
    ensures
        r == decimal_value(s.spec_bytes()),
{
    let bytes = s.as_bytes();
    let mut i: usize = 0;
    let mut val: usize = 0;
    assert(bytes@.take(0) =~= Seq::<u8>::empty());
    while i < bytes.len()
        invariant
            bytes@ == s.spec_bytes(),
            all_digits(bytes@),
            decimal_value(bytes@) <= usize::MAX,
            i <= bytes.len(),
            val == decimal_value(bytes@.take(i as int)),
        decreases bytes.len() - i,
    {
        let c = bytes[i];
        proof {
            lemma_decimal_value_step(bytes@, i as int);
            lemma_decimal_value_mono(bytes@, i as int + 1, bytes@.len() as int);
            assert(bytes@.take(bytes@.len() as int) =~= bytes@);
        }
        val = val * 10 + (c - 48) as usize;
        i = i + 1;
    }
    assert(bytes@.take(bytes@.len() as int) =~= bytes@);
    val
}

/// Parse a decimal `u8` from a configuration string.
pub fn parse_u8(s: &str) -> (r: u8)
    requires
        s.spec_bytes().len() > 0,
        all_digits(s.spec_bytes()),
        decimal_value(s.spec_bytes()) <= 255,
    ensures
        r == decimal_value(s.spec_bytes()),
{
    let bytes = s.as_bytes();
    let mut i: usize = 0;
    let mut val: u16 = 0;
    assert(bytes@.take(0) =~= Seq::<u8>::empty());
    while i < bytes.len()
        invariant
            bytes@ == s.spec_bytes(),
            all_digits(bytes@),
            decimal_value(bytes@) <= 255,
            i <= bytes.len(),
            val == decimal_value(bytes@.take(i as int)),
        decreases bytes.len() - i,
    {
        let c = bytes[i];
        proof {
            lemma_decimal_value_step(bytes@, i as int);
            lemma_decimal_value_mono(bytes@, i as int + 1, bytes@.len() as int);
            assert(bytes@.take(bytes@.len() as int) =~= bytes@);
        }
        val = val * 10 + (c - 48) as u16;
        i = i + 1;
    }
    assert(bytes@.take(bytes@.len() as int) =~= bytes@);
    val as u8
}

/// Parse a decimal `u128` from a configuration string.
pub fn parse_u128(s: &str) -> (r: u128)
    requires
        s.spec_bytes().len() > 0,
        all_digits(s.spec_bytes()),
        decimal_value(s.spec_bytes()) <= u128::MAX,
    ensures
        r == decimal_value(s.spec_bytes()),
{
    let bytes = s.as_bytes();
    let mut i: usize = 0;
    let mut val: u128 = 0;
    assert(bytes@.take(0) =~= Seq::<u8>::empty());
    while i < bytes.len()
        invariant
            bytes@ == s.spec_bytes(),
            all_digits(bytes@),
            decimal_value(bytes@) <= u128::MAX,
            i <= bytes.len(),
            val == decimal_value(bytes@.take(i as int)),
        decreases bytes.len() - i,
    {
        let c = bytes[i];
        proof {
            lemma_decimal_value_step(bytes@, i as int);
            lemma_decimal_value_mono(bytes@, i as int + 1, bytes@.len() as int);
            assert(bytes@.take(bytes@.len() as int) =~= bytes@);
        }
        val = val * 10 + (c - 48) as u128;
        i = i + 1;
    }
    assert(bytes@.take(bytes@.len() as int) =~= bytes@);
    val
}

// ============================================================================
//  Message metadata
// ============================================================================

/// How an endpoint takes part in broadcasting.
#[derive(Debug, Clone, Copy, PartialEq, Eq, Hash, PartialOrd, Ord, Structural)]
pub enum EndpointsBroadcastMode {
    /// Always transmit the message, even if there is a local endpoint for it.
    Always,
    /// Never transmit the packet (the endpoint is link-local only).
    Never,
    /// Transmit only when there is no local endpoint for it.
    Default,
}

/// Reliable delivery mode for a data type.
#[derive(Debug, Clone, Copy, PartialEq, Eq, Hash, PartialOrd, Ord, Structural)]
pub enum ReliableMode {
    /// No reliable delivery.
    Disabled,
    /// Reliable delivery with strict ordering.
    Ordered,
    /// Reliable delivery without ordering.
    Unordered,
}

/// Primitive element type used by a message.
#[derive(Debug, Clone, Copy, PartialEq, Eq, Hash, PartialOrd, Ord, Structural)]
pub enum MessageDataType {
    Float64,
    Float32,
    UInt8,
    UInt16,
    UInt32,
    UInt64,
    UInt128,
    Int8,
    Int16,
    Int32,
    Int64,
    Int128,
    Bool,
    String,
    Binary,
    NoData,
}

/// High-level classification of message kind.
#[derive(Debug, Clone, Copy, PartialEq, Eq, Hash, PartialOrd, Ord, Structural)]
pub enum MessageClass {
    /// Informational telemetry.
    Data,
    /// Error / fault telemetry.
    Error,
    /// Warning telemetry.
    Warning,
}

/// How many elements are present for a message type.
#[derive(Debug, Clone, Copy, PartialEq, Eq, Hash, PartialOrd, Ord, Structural)]
pub enum MessageElement {
    /// Fixed number of elements: (count, element type, class).
    Static(usize, MessageDataType, MessageClass),
    /// Variable number of elements: (element type, class).
    Dynamic(MessageDataType, MessageClass),
}

impl MessageElement {
    /// Element type of this description.
    pub open spec fn spec_data_type(self) -> MessageDataType {
        match self {
            MessageElement::Static(_, dt, _) => dt,
            MessageElement::Dynamic(dt, _) => dt,
        }
    }

    /// Message class of this description.
    pub open spec fn spec_message_type(self) -> MessageClass {
        match self {
            MessageElement::Static(_, _, mt) => mt,
            MessageElement::Dynamic(_, mt) => mt,
        }
    }

    /// Fixed element count (0 for dynamic descriptions).
    pub open spec fn spec_count(self) -> usize {
        match self {
            MessageElement::Static(n, _, _) => n,
            MessageElement::Dynamic(_, _) => 0,
        }
    }

    /// Get the element data type.
    pub fn data_type(&self) -> (r: MessageDataType)
        ensures
            r == self.spec_data_type(),
    {
        match self {
            MessageElement::Static(_, dt, _) => *dt,
            MessageElement::Dynamic(dt, _) => *dt,
        }
    }

    /// Get the message class.
    pub fn message_type(&self) -> (r: MessageClass)
        ensures
            r == self.spec_message_type(),
    {
        match self {
            MessageElement::Static(_, _, mt) => *mt,
            MessageElement::Dynamic(_, mt) => *mt,
        }
    }

    /// Element count: `Static(n)` gives `n`, `Dynamic` gives `0`.
    pub fn count(&self) -> (r: usize)
        ensures
            r == self.spec_count(),
    {
        match self {
            MessageElement::Static(a, _, _) => *a,
            MessageElement::Dynamic(_, _) => 0,
        }
    }
}

/// Static metadata of an endpoint.
#[derive(Debug, Clone, Copy, PartialEq, Eq)]
pub struct EndpointMeta {
    /// Schema name of the endpoint.
    pub name: &'static str,
    /// Broadcast mode of the endpoint.
    pub broadcast_mode: EndpointsBroadcastMode,
}

impl EndpointMeta {
    /// Stable name used in logs and in packet text.
    pub fn as_str(&self) -> (r: &'static str)
        ensures
            r == self.name,
    {
        self.name
    }

    /// The broadcast mode of the endpoint.
    pub fn get_broadcast_mode(&self) -> (r: EndpointsBroadcastMode)
        ensures
            r == self.broadcast_mode,
    {
        self.broadcast_mode
    }
}

impl DataEndpoint {
    /// Schema name of the endpoint.
    pub open spec fn spec_name(self) -> &'static str {
        spec_endpoint_meta(self).name
    }

    /// Whether the endpoint may only be reached over link-local sides.
    pub open spec fn spec_link_local_only(self) -> bool {
        spec_endpoint_meta(self).broadcast_mode == EndpointsBroadcastMode::Never
    }

    /// Stable name used in logs and in packet text.
    pub fn as_str(&self) -> (r: &'static str)
        ensures
            r == self.spec_name(),
    {
        get_endpoint_meta(*self).name
    }

    /// The broadcast mode of the endpoint.
    pub fn get_broadcast_mode(&self) -> (r: EndpointsBroadcastMode)
        ensures
            r == spec_endpoint_meta(*self).broadcast_mode,
    {
        get_endpoint_meta(*self).broadcast_mode
    }

    /// Whether the endpoint may only be reached over link-local sides.
    pub fn is_link_local_only(&self) -> (r: bool)
        ensures
            r == self.spec_link_local_only(),
    {
        let mode = get_endpoint_meta(*self).broadcast_mode;
        match mode {
            EndpointsBroadcastMode::Never => true,
            _ => false,
        }
    }
}

/// Static metadata for a message type.
#[derive(Debug, Clone)]
pub struct MessageMeta {
    /// Schema name.
    pub name: &'static str,
    /// Element description (fixed vs dynamic).
    pub element: MessageElement,
    /// Default destination endpoints.
    pub endpoints: Vec<DataEndpoint>,
    /// Reliable delivery mode.
    pub reliable: ReliableMode,
}

impl MessageMeta {
    /// This metadata is the schema entry of `ty`.
    pub open spec fn spec_matches(&self, ty: DataType) -> bool {
        &&& self.name == spec_message_name(ty)
        &&& self.element == spec_message_element(ty)
        &&& self.endpoints@ == spec_default_endpoints(ty)
        &&& self.reliable == spec_reliable_mode(ty)
    }
}

impl DataType {
    /// Schema name of the data type.
    pub fn as_str(&self) -> (r: &'static str)
        ensures
            r == spec_message_name(*self),
    {
        get_message_meta(*self).name
    }
}

/// Lookup the schema metadata of a data type.
pub fn message_meta(ty: DataType) -> (r: MessageMeta)
    ensures
        r.spec_matches(ty),
{
    get_message_meta(ty)
}

/// Whether the data type is configured for reliable delivery.
pub fn is_reliable_type(ty: DataType) -> (r: bool)
    ensures
        r == (spec_reliable_mode(ty) != ReliableMode::Disabled),
{
    match get_message_meta(ty).reliable {
        ReliableMode::Disabled => false,
        _ => true,
    }
}

/// The reliable delivery mode of the data type.
pub fn reliable_mode(ty: DataType) -> (r: ReliableMode)
    ensures
        r == spec_reliable_mode(ty),
{
    get_message_meta(ty).reliable
}

/// Size in bytes of one element of the given kind.
pub open spec fn spec_data_type_size(dt: MessageDataType) -> usize {
    match dt {
        MessageDataType::Float64 => 8,
        MessageDataType::Float32 => 4,
        MessageDataType::UInt8 => 1,
        MessageDataType::UInt16 => 2,
        MessageDataType::UInt32 => 4,
        MessageDataType::UInt64 => 8,
        MessageDataType::UInt128 => 16,
        MessageDataType::Int8 => 1,
        MessageDataType::Int16 => 2,
        MessageDataType::Int32 => 4,
        MessageDataType::Int64 => 8,
        MessageDataType::Int128 => 16,
        MessageDataType::Bool => 1,
        MessageDataType::String => STATIC_STRING_LENGTH,
        MessageDataType::Binary => STATIC_HEX_LENGTH,
        MessageDataType::NoData => 0,
    }
}

/// Size in bytes of a single element of the given kind; for `String` and
/// `Binary` this is the configured static maximum length.
pub fn data_type_size(dt: MessageDataType) -> (r: usize)
    ensures
        r == spec_data_type_size(dt),
{
    match dt {
        MessageDataType::Float64 => 8,
        MessageDataType::Float32 => 4,
        MessageDataType::UInt8 => 1,
        MessageDataType::UInt16 => 2,
        MessageDataType::UInt32 => 4,
        MessageDataType::UInt64 => 8,
        MessageDataType::UInt128 => 16,
        MessageDataType::Int8 => 1,
        MessageDataType::Int16 => 2,
        MessageDataType::Int32 => 4,
        MessageDataType::Int64 => 8,
        MessageDataType::Int128 => 16,
        MessageDataType::Bool => 1,
        MessageDataType::String => STATIC_STRING_LENGTH,
        MessageDataType::Binary => STATIC_HEX_LENGTH,
        MessageDataType::NoData => 0,
    }
}

/// Element kind of a data type.
pub open spec fn spec_get_data_type(ty: DataType) -> MessageDataType {
    spec_message_element(ty).spec_data_type()
}

/// Static payload size of a data type: element size times element count.
pub open spec fn spec_needed_message_size(ty: DataType) -> int {
    spec_data_type_size(spec_get_data_type(ty)) * spec_message_element(ty).spec_count()
}

/// Total static payload size in bytes (`element_size * element_count`);
/// dynamic types count as zero elements.
pub fn get_needed_message_size(ty: DataType) -> (r: usize)
    ensures
        r == spec_needed_message_size(ty),
{
    let meta = get_message_meta(ty);
    let size = data_type_size(meta.element.data_type());
    let count = meta.element.count();
    assert(spec_needed_message_size(ty) <= 8192);
    size * count
}

/// Message class (data / error / warning) of a data type.
pub fn get_info_type(ty: DataType) -> (r: MessageClass)
    ensures
        r == spec_message_element(ty).spec_message_type(),
{
    get_message_meta(ty).element.message_type()
}

/// Element kind of a data type.
pub fn get_data_type(ty: DataType) -> (r: MessageDataType)
    ensures
        r == spec_get_data_type(ty),
{
    get_message_meta(ty).element.data_type()
}

/// Schema name of a data type.
pub fn get_message_name(ty: DataType) -> (r: &'static str)
    ensures
        r == spec_message_name(ty),
{
    get_message_meta(ty).name
}

/// Default destination endpoints of a data type.
pub fn endpoints_from_datatype(ty: DataType) -> (r: Vec<DataEndpoint>)
    ensures
        r@ == spec_default_endpoints(ty),
{
    get_message_meta(ty).endpoints
}

// ============================================================================
//  Error types and error codes
// ============================================================================

/// Rich error type used throughout the crate.
#[derive(Debug, Clone, PartialEq, Eq)]
pub enum TelemetryError {
    /// Generic / unspecified error.
    GenericError(Option<String>),
    /// Logical type ID is not a valid `DataType`.
    InvalidType,
    /// Payload size doesn't match the schema.
    SizeMismatch { expected: usize, got: usize },
    /// Legacy size mismatch error.
    SizeMismatchError,
    /// No endpoints were supplied where required.
    EmptyEndpoints,
    /// Timestamp is invalid.
    TimestampInvalid,
    /// A packet is missing its payload bytes.
    MissingPayload,
    /// A handler returned an error.
    HandlerError(&'static str),
    /// Invalid argument from caller.
    BadArg,
    /// Serialization error.
    Serialize(&'static str),
    /// Deserialization error.
    Deserialize(&'static str),
    /// IO / transport error.
    Io(&'static str),
    /// UTF-8 decoding failed.
    InvalidUtf8,
    /// Payload type size mismatch.
    TypeMismatch { expected: usize, got: usize },
    /// Invalid link ID.
    InvalidLinkId(&'static str),
    /// Item is bigger than the queue budget.
    PacketTooLarge(&'static str),
}

/// Result alias for telemetry operations.
pub type TelemetryResult<T> = Result<T, TelemetryError>;

/// Numeric error codes used on the FFI boundary.
#[derive(Debug, Clone, Copy, PartialEq, Eq, Structural)]
pub enum TelemetryErrorCode {
    GenericError,
    InvalidType,
    SizeMismatch,
    SizeMismatchError,
    EmptyEndpoints,
    TimestampInvalid,
    MissingPayload,
    HandlerError,
    BadArg,
    Serialize,
    Deserialize,
    Io,
    InvalidUtf8,
    TypeMismatch,
    InvalidLinkId,
    PacketTooLarge,
}

/// The error code of each error.
pub open spec fn spec_error_code(e: TelemetryError) -> TelemetryErrorCode {
    match e {
        TelemetryError::GenericError(_) => TelemetryErrorCode::GenericError,
        TelemetryError::InvalidType => TelemetryErrorCode::InvalidType,
        TelemetryError::SizeMismatch { .. } => TelemetryErrorCode::SizeMismatch,
        TelemetryError::SizeMismatchError => TelemetryErrorCode::SizeMismatchError,
        TelemetryError::EmptyEndpoints => TelemetryErrorCode::EmptyEndpoints,
        TelemetryError::TimestampInvalid => TelemetryErrorCode::TimestampInvalid,
        TelemetryError::MissingPayload => TelemetryErrorCode::MissingPayload,
        TelemetryError::HandlerError(_) => TelemetryErrorCode::HandlerError,
        TelemetryError::BadArg => TelemetryErrorCode::BadArg,
        TelemetryError::Serialize(_) => TelemetryErrorCode::Serialize,
        TelemetryError::Deserialize(_) => TelemetryErrorCode::Deserialize,
        TelemetryError::Io(_) => TelemetryErrorCode::Io,
        TelemetryError::InvalidUtf8 => TelemetryErrorCode::InvalidUtf8,
        TelemetryError::TypeMismatch { .. } => TelemetryErrorCode::TypeMismatch,
        TelemetryError::InvalidLinkId(_) => TelemetryErrorCode::InvalidLinkId,
        TelemetryError::PacketTooLarge(_) => TelemetryErrorCode::PacketTooLarge,
    }
}

impl TelemetryError {
    /// Map a rich error to its stable numeric error code.
    pub fn to_error_code(&self) -> (r: TelemetryErrorCode)
        ensures
            r == spec_error_code(*self),
    {
        match self {
            TelemetryError::GenericError(_) => TelemetryErrorCode::GenericError,
            TelemetryError::InvalidType => TelemetryErrorCode::InvalidType,
            TelemetryError::SizeMismatch { .. } => TelemetryErrorCode::SizeMismatch,
            TelemetryError::SizeMismatchError => TelemetryErrorCode::SizeMismatchError,
            TelemetryError::EmptyEndpoints => TelemetryErrorCode::EmptyEndpoints,
            TelemetryError::TimestampInvalid => TelemetryErrorCode::TimestampInvalid,
            TelemetryError::MissingPayload => TelemetryErrorCode::MissingPayload,
            TelemetryError::HandlerError(_) => TelemetryErrorCode::HandlerError,
            TelemetryError::BadArg => TelemetryErrorCode::BadArg,
            TelemetryError::Serialize(_) => TelemetryErrorCode::Serialize,
            TelemetryError::Deserialize(_) => TelemetryErrorCode::Deserialize,
            TelemetryError::Io(_) => TelemetryErrorCode::Io,
            TelemetryError::InvalidUtf8 => TelemetryErrorCode::InvalidUtf8,
            TelemetryError::TypeMismatch { .. } => TelemetryErrorCode::TypeMismatch,
            TelemetryError::InvalidLinkId(_) => TelemetryErrorCode::InvalidLinkId,
            TelemetryError::PacketTooLarge(_) => TelemetryErrorCode::PacketTooLarge,
        }
    }
}

impl TelemetryErrorCode {
    /// Largest numeric error code accepted by `try_from_i32`.
    pub const MAX: i32 = -3i32;

    /// Smallest numeric error code accepted by `try_from_i32`.
    pub const MIN: i32 = -13i32;

    /// Numeric value of each code.
    pub open spec fn spec_to_i32(self) -> i32 {
        match self {
            TelemetryErrorCode::GenericError => -2i32,
            TelemetryErrorCode::InvalidType => -3i32,
            TelemetryErrorCode::SizeMismatch => -4i32,
            TelemetryErrorCode::SizeMismatchError => -5i32,
            TelemetryErrorCode::EmptyEndpoints => -6i32,
            TelemetryErrorCode::TimestampInvalid => -7i32,
            TelemetryErrorCode::MissingPayload => -8i32,
            TelemetryErrorCode::HandlerError => -9i32,
            TelemetryErrorCode::BadArg => -10i32,
            TelemetryErrorCode::Serialize => -11i32,
            TelemetryErrorCode::Deserialize => -12i32,
            TelemetryErrorCode::Io => -13i32,
            TelemetryErrorCode::InvalidUtf8 => -14i32,
            TelemetryErrorCode::TypeMismatch => -15i32,
            TelemetryErrorCode::InvalidLinkId => -16i32,
            TelemetryErrorCode::PacketTooLarge => -17i32,
        }
    }

    /// Numeric value of this code (negative, so it never collides with lengths).
    pub fn to_i32(&self) -> (r: i32)
        ensures
            r == self.spec_to_i32(),
    {
        match self {
            TelemetryErrorCode::GenericError => -2i32,
            TelemetryErrorCode::InvalidType => -3i32,
            TelemetryErrorCode::SizeMismatch => -4i32,
            TelemetryErrorCode::SizeMismatchError => -5i32,
            TelemetryErrorCode::EmptyEndpoints => -6i32,
            TelemetryErrorCode::TimestampInvalid => -7i32,
            TelemetryErrorCode::MissingPayload => -8i32,
            TelemetryErrorCode::HandlerError => -9i32,
            TelemetryErrorCode::BadArg => -10i32,
            TelemetryErrorCode::Serialize => -11i32,
            TelemetryErrorCode::Deserialize => -12i32,
            TelemetryErrorCode::Io => -13i32,
            TelemetryErrorCode::InvalidUtf8 => -14i32,
            TelemetryErrorCode::TypeMismatch => -15i32,
            TelemetryErrorCode::InvalidLinkId => -16i32,
            TelemetryErrorCode::PacketTooLarge => -17i32,
        }
    }

    /// Human-readable name of each code.
    pub open spec fn spec_as_str(self) -> &'static str {
        match self {
            TelemetryErrorCode::GenericError => "GenericError",
            TelemetryErrorCode::InvalidType => "{Invalid Type}",
            TelemetryErrorCode::SizeMismatch => "{Size Mismatch}",
            TelemetryErrorCode::SizeMismatchError => "{Size Mismatch Error}",
            TelemetryErrorCode::EmptyEndpoints => "{Empty Endpoints}",
            TelemetryErrorCode::TimestampInvalid => "{Timestamp Invalid}",
            TelemetryErrorCode::MissingPayload => "{Missing Payload}",
            TelemetryErrorCode::HandlerError => "{Handler Error}",
            TelemetryErrorCode::BadArg => "{Bad Arg}",
            TelemetryErrorCode::Serialize => "{Serialize Error}",
            TelemetryErrorCode::Deserialize => "{Deserialize Error}",
            TelemetryErrorCode::Io => "{IO Error}",
            TelemetryErrorCode::InvalidUtf8 => "{Invalid UTF-8}",
            TelemetryErrorCode::TypeMismatch => "{Type Mismatch}",
            TelemetryErrorCode::InvalidLinkId => "{Invalid Link ID}",
            TelemetryErrorCode::PacketTooLarge => "{Packet Too Large}",
        }
    }

    /// Human-readable string for logging.
    pub fn as_str(&self) -> (r: &'static str)
        ensures
            r == self.spec_as_str(),
    {
        match self {
            TelemetryErrorCode::GenericError => "GenericError",
            TelemetryErrorCode::InvalidType => "{Invalid Type}",
            TelemetryErrorCode::SizeMismatch => "{Size Mismatch}",
            TelemetryErrorCode::SizeMismatchError => "{Size Mismatch Error}",
            TelemetryErrorCode::EmptyEndpoints => "{Empty Endpoints}",
            TelemetryErrorCode::TimestampInvalid => "{Timestamp Invalid}",
            TelemetryErrorCode::MissingPayload => "{Missing Payload}",
            TelemetryErrorCode::HandlerError => "{Handler Error}",
            TelemetryErrorCode::BadArg => "{Bad Arg}",
            TelemetryErrorCode::Serialize => "{Serialize Error}",
            TelemetryErrorCode::Deserialize => "{Deserialize Error}",
            TelemetryErrorCode::Io => "{IO Error}",
            TelemetryErrorCode::InvalidUtf8 => "{Invalid UTF-8}",
            TelemetryErrorCode::TypeMismatch => "{Type Mismatch}",
            TelemetryErrorCode::InvalidLinkId => "{Invalid Link ID}",
            TelemetryErrorCode::PacketTooLarge => "{Packet Too Large}",
        }
    }

    /// The code whose numeric value is `x`, if `x` lies in `[MIN, MAX]`.
    pub open spec fn spec_try_from_i32(x: i32) -> Option<TelemetryErrorCode> {
        if x < -13 || x > -3 {
            None
        } else if x == -3 {
            Some(TelemetryErrorCode::InvalidType)
        } else if x == -4 {
            Some(TelemetryErrorCode::SizeMismatch)
        } else if x == -5 {
            Some(TelemetryErrorCode::SizeMismatchError)
        } else if x == -6 {
            Some(TelemetryErrorCode::EmptyEndpoints)
        } else if x == -7 {
            Some(TelemetryErrorCode::TimestampInvalid)
        } else if x == -8 {
            Some(TelemetryErrorCode::MissingPayload)
        } else if x == -9 {
            Some(TelemetryErrorCode::HandlerError)
        } else if x == -10 {
            Some(TelemetryErrorCode::BadArg)
        } else if x == -11 {
            Some(TelemetryErrorCode::Serialize)
        } else if x == -12 {
            Some(TelemetryErrorCode::Deserialize)
        } else {
            Some(TelemetryErrorCode::Io)
        }
    }

    /// Convert a raw code to an error code; `None` outside `[MIN, MAX]`.
    pub fn try_from_i32(x: i32) -> (r: Option<TelemetryErrorCode>)
        ensures
            r == TelemetryErrorCode::spec_try_from_i32(x),
            r is Some <==> -13 <= x <= -3,
            r matches Some(c) ==> c.spec_to_i32() == x,
    {
        try_enum_from_i32(x)
    }
}

// ============================================================================
//  Generic enum helpers
// ============================================================================

/// Enums that are represented as `u32` in serialized form.
pub trait ReprU32Enum: Sized {
    /// Largest valid numeric value (inclusive).
    spec fn spec_max() -> u32;

    /// The variant with numeric value `x`, for `x <= spec_max()`.
    spec fn spec_from_repr(x: u32) -> Self;

    /// Largest valid numeric value (inclusive).
    fn max_value() -> (r: u32)
        ensures
            r == Self::spec_max(),
    ;

    /// The variant with numeric value `x`.
    fn from_repr(x: u32) -> (r: Self)
        requires
            x <= Self::spec_max(),
        ensures
            r == Self::spec_from_repr(x),
    ;
}

/// Enums that are represented as `i32` in serialized form.
pub trait ReprI32Enum: Sized {
    /// Largest valid numeric value (inclusive).
    spec fn spec_max() -> i32;

    /// Smallest valid numeric value (inclusive).
    spec fn spec_min() -> i32;

    /// The variant with numeric value `x`, for `x` in range.
    spec fn spec_from_repr(x: i32) -> Self;

    /// Largest valid numeric value (inclusive).
    fn max_value() -> (r: i32)
        ensures
            r == Self::spec_max(),
    ;

    /// Smallest valid numeric value (inclusive).
    fn min_value() -> (r: i32)
        ensures
            r == Self::spec_min(),
    ;

    /// The variant with numeric value `x`.
    fn from_repr(x: i32) -> (r: Self)
        requires
            Self::spec_min() <= x <= Self::spec_max(),
        ensures
            r == Self::spec_from_repr(x),
    ;
}

/// Convert a `u32` into a `ReprU32Enum`; `None` above the enum's maximum.
pub fn try_enum_from_u32<E: ReprU32Enum>(x: u32) -> (r: Option<E>)
    ensures
        x > E::spec_max() ==> r is None,
        x <= E::spec_max() ==> r == Some(E::spec_from_repr(x)),
{
    if x > E::max_value() {
        return None;
    }
    Some(E::from_repr(x))
}

/// Convert an `i32` into a `ReprI32Enum`; `None` outside `[MIN, MAX]`.
pub fn try_enum_from_i32<E: ReprI32Enum>(x: i32) -> (r: Option<E>)
    ensures
        (x < E::spec_min() || x > E::spec_max()) ==> r is None,
        E::spec_min() <= x <= E::spec_max() ==> r == Some(E::spec_from_repr(x)),
{
    if x < E::min_value() || x > E::max_value() {
        return None;
    }
    Some(E::from_repr(x))
}

impl ReprU32Enum for DataType {
    open spec fn spec_max() -> u32 {
        MAX_VALUE_DATA_TYPE
    }

    open spec fn spec_from_repr(x: u32) -> DataType {
        DataType::spec_from_u32(x).unwrap()
    }

    fn max_value() -> (r: u32) {
        MAX_VALUE_DATA_TYPE
    }

    fn from_repr(x: u32) -> (r: DataType) {
        DataType::try_from_u32(x).unwrap()
    }
}

impl ReprU32Enum for DataEndpoint {
    open spec fn spec_max() -> u32 {
        MAX_VALUE_DATA_ENDPOINT
    }

    open spec fn spec_from_repr(x: u32) -> DataEndpoint {
        DataEndpoint::spec_from_u32(x).unwrap()
    }

    fn max_value() -> (r: u32) {
        MAX_VALUE_DATA_ENDPOINT
    }

    fn from_repr(x: u32) -> (r: DataEndpoint) {
        DataEndpoint::try_from_u32(x).unwrap()
    }
}

impl ReprI32Enum for TelemetryErrorCode {
    open spec fn spec_max() -> i32 {
        -3i32
    }

    open spec fn spec_min() -> i32 {
        -13i32
    }

    open spec fn spec_from_repr(x: i32) -> TelemetryErrorCode {
        TelemetryErrorCode::spec_try_from_i32(x).unwrap()
    }

    fn max_value() -> (r: i32) {
        -3
    }

    fn min_value() -> (r: i32) {
        -13
    }

    fn from_repr(x: i32) -> (r: TelemetryErrorCode) {
        if x == -3 {
            TelemetryErrorCode::InvalidType
        } else if x == -4 {
            TelemetryErrorCode::SizeMismatch
        } else if x == -5 {
            TelemetryErrorCode::SizeMismatchError
        } else if x == -6 {
            TelemetryErrorCode::EmptyEndpoints
        } else if x == -7 {
            TelemetryErrorCode::TimestampInvalid
        } else if x == -8 {
            TelemetryErrorCode::MissingPayload
        } else if x == -9 {
            TelemetryErrorCode::HandlerError
        } else if x == -10 {
            TelemetryErrorCode::BadArg
        } else if x == -11 {
            TelemetryErrorCode::Serialize
        } else if x == -12 {
            TelemetryErrorCode::Deserialize
        } else {
            TelemetryErrorCode::Io
        }
    }
}

/// Every code that `try_from_i32` accepts maps back to its own numeric value.
pub proof fn lemma_error_code_i32_roundtrip(c: TelemetryErrorCode)
    requires
        -13 <= c.spec_to_i32() <= -3,
    ensures
        TelemetryErrorCode::spec_try_from_i32(c.spec_to_i32()) == Some(c),
{
}

} // verus!
