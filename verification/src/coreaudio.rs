//! The audio driver on the Mac: which properties its objects have, and what they
//! are.

use vstd::prelude::*;

use crate::bytes::bytes_equal;
use crate::virtual_mic::{CHANNELS, SAMPLE_RATE};

verus! {

pub const PLUG_IN_OBJECT: u32 = 1;

pub const DEVICE_ID: u32 = 2;

pub const STREAM_ID: u32 = 3;

pub const DRIVER_UID: &'static str = "com.nicosuave.m5mic.driver";

pub const DEVICE_UID: &'static str = "com.nicosuave.m5mic.device";

pub const MODEL_UID: &'static str = "com.nicosuave.m5mic.model";

pub const DEVICE_NAME: &'static str = "m5mic";

pub const STREAM_NAME: &'static str = "m5mic input";

pub const MANUFACTURER: &'static str = "M5Stack";

pub const RESOURCES: &'static str = "Resources";

pub const BUFFER_FRAME_SIZE: u32 = 512;

pub const MIN_BUFFER_FRAMES: u32 = 64;

pub const MAX_BUFFER_FRAMES: u32 = 4096;

/// Samples are packed 32-bit floating-point numbers in the machine's byte order.
pub const FORMAT_FLAGS: u32 = 9;

pub const BYTES_PER_SAMPLE: u32 = 4;

pub const BITS_PER_CHANNEL: u32 = 32;

pub const NO_ERROR: i32 = 0;

/// The process that owns a device which no process owns.
pub const NO_PROCESS: i32 = -1;

/// `clas`
pub const OBJECT_CLASS: u32 = 0x636c_6173;

/// `bcls`
pub const OBJECT_BASE_CLASS: u32 = 0x6263_6c73;

/// `stdv`
pub const OBJECT_OWNER: u32 = 0x7374_6476;

/// `lnam`
pub const OBJECT_NAME: u32 = 0x6c6e_616d;

/// `lmak`
pub const OBJECT_MANUFACTURER: u32 = 0x6c6d_616b;

/// `ownd`
pub const OBJECT_OWNED_OBJECTS: u32 = 0x6f77_6e64;

/// `cust`
pub const OBJECT_CUSTOM_PROPERTY_INFO_LIST: u32 = 0x6375_7374;

/// `ctrl`
pub const OBJECT_CONTROL_LIST: u32 = 0x6374_726c;

/// `piid`
pub const PLUG_IN_BUNDLE_ID: u32 = 0x7069_6964;

/// `rsrc`
pub const PLUG_IN_RESOURCE_BUNDLE: u32 = 0x7273_7263;

/// `dev#`
pub const PLUG_IN_DEVICE_LIST: u32 = 0x6465_7623;

/// `uidd`
pub const PLUG_IN_TRANSLATE_UID_TO_DEVICE: u32 = 0x7569_6464;

/// `box#`
pub const PLUG_IN_BOX_LIST: u32 = 0x626f_7823;

/// `clk#`
pub const PLUG_IN_CLOCK_DEVICE_LIST: u32 = 0x636c_6b23;

/// `uid `
pub const DEVICE_UID_PROPERTY: u32 = 0x7569_6420;

/// `muid`
pub const DEVICE_MODEL_UID: u32 = 0x6d75_6964;

/// `tran`
pub const DEVICE_TRANSPORT_TYPE: u32 = 0x7472_616e;

/// `livn`
pub const DEVICE_IS_ALIVE: u32 = 0x6c69_766e;

/// `goin`
pub const DEVICE_IS_RUNNING: u32 = 0x676f_696e;

/// `gone`
pub const DEVICE_IS_RUNNING_SOMEWHERE: u32 = 0x676f_6e65;

/// `dflt`
pub const DEVICE_CAN_BE_DEFAULT_DEVICE: u32 = 0x6466_6c74;

/// `sflt`
pub const DEVICE_CAN_BE_DEFAULT_SYSTEM_DEVICE: u32 = 0x7366_6c74;

/// `akin`
pub const DEVICE_RELATED_DEVICES: u32 = 0x616b_696e;

/// `clkd`
pub const DEVICE_CLOCK_DOMAIN: u32 = 0x636c_6b64;

/// `hidn`
pub const DEVICE_IS_HIDDEN: u32 = 0x6869_646e;

/// `oink`
pub const DEVICE_HOG_MODE: u32 = 0x6f69_6e6b;

/// `mix?`
pub const DEVICE_SUPPORTS_MIXING: u32 = 0x6d69_783f;

/// `ltnc`
pub const DEVICE_LATENCY: u32 = 0x6c74_6e63;

/// `saft`
pub const DEVICE_SAFETY_OFFSET: u32 = 0x7361_6674;

/// `nsrt`
pub const DEVICE_NOMINAL_SAMPLE_RATE: u32 = 0x6e73_7274;

/// `asrt`
pub const DEVICE_ACTUAL_SAMPLE_RATE: u32 = 0x6173_7274;

/// `nsr#`
pub const DEVICE_AVAILABLE_NOMINAL_SAMPLE_RATES: u32 = 0x6e73_7223;

/// `stm#`
pub const DEVICE_STREAMS: u32 = 0x7374_6d23;

/// `slay`
pub const DEVICE_STREAM_CONFIGURATION: u32 = 0x736c_6179;

/// `fsiz`
pub const DEVICE_BUFFER_FRAME_SIZE: u32 = 0x6673_697a;

/// `fsz#`
pub const DEVICE_BUFFER_FRAME_SIZE_RANGE: u32 = 0x6673_7a23;

/// `ring`
pub const DEVICE_ZERO_TIME_STAMP_PERIOD: u32 = 0x7269_6e67;

/// `sact`
pub const STREAM_IS_ACTIVE: u32 = 0x7361_6374;

/// `sdir`
pub const STREAM_DIRECTION: u32 = 0x7364_6972;

/// `term`
pub const STREAM_TERMINAL_TYPE: u32 = 0x7465_726d;

/// `schn`
pub const STREAM_STARTING_CHANNEL: u32 = 0x7363_686e;

/// `ltnc`
pub const STREAM_LATENCY: u32 = 0x6c74_6e63;

/// `sfmt`
pub const STREAM_VIRTUAL_FORMAT: u32 = 0x7366_6d74;

/// `pft `
pub const STREAM_PHYSICAL_FORMAT: u32 = 0x7066_7420;

/// `sfma`
pub const STREAM_AVAILABLE_VIRTUAL_FORMATS: u32 = 0x7366_6d61;

/// `pfta`
pub const STREAM_AVAILABLE_PHYSICAL_FORMATS: u32 = 0x7066_7461;

/// `glob`
pub const SCOPE_GLOBAL: u32 = 0x676c_6f62;

/// `inpt`
pub const SCOPE_INPUT: u32 = 0x696e_7074;

/// `outp`
pub const SCOPE_OUTPUT: u32 = 0x6f75_7470;

/// `aobj`
pub const OBJECT_CLASS_ID: u32 = 0x616f_626a;

/// `aplg`
pub const PLUG_IN_CLASS_ID: u32 = 0x6170_6c67;

/// `adev`
pub const DEVICE_CLASS_ID: u32 = 0x6164_6576;

/// `astr`
pub const STREAM_CLASS_ID: u32 = 0x6173_7472;

/// `virt`
pub const TRANSPORT_TYPE_VIRTUAL: u32 = 0x7669_7274;

/// `micr`
pub const TERMINAL_TYPE_MICROPHONE: u32 = 0x6d69_6372;

/// `lpcm`
pub const FORMAT_LINEAR_PCM: u32 = 0x6c70_636d;

/// `read`
pub const OPERATION_READ_INPUT: u32 = 0x7265_6164;

/// `!obj`
pub const BAD_OBJECT_ERROR: i32 = 0x216f_626a;

/// `who?`
pub const UNKNOWN_PROPERTY_ERROR: i32 = 0x7768_6f3f;

/// `!siz`
pub const BAD_PROPERTY_SIZE_ERROR: i32 = 0x2173_697a;

/// `nope`
pub const ILLEGAL_OPERATION_ERROR: i32 = 0x6e6f_7065;

/// `what`
pub const UNSPECIFIED_ERROR: i32 = 0x7768_6174;

pub const AUDIO_SERVER_PLUGIN_TYPE_UUID: [u8; 16] = [
    0x44, 0x3a, 0xba, 0xb8, 0xe7, 0xb3, 0x49, 0x1a, 0xb9, 0x85, 0xbe, 0xb9, 0x18, 0x70, 0x30, 0xdb,
];

pub const AUDIO_SERVER_PLUGIN_DRIVER_INTERFACE_UUID: [u8; 16] = [
    0xee, 0xa5, 0x77, 0x3d, 0xcc, 0x43, 0x49, 0xf1, 0x8e, 0x00, 0x8f, 0x96, 0xe7, 0xd2, 0x3b, 0x17,
];

pub const IUNKNOWN_UUID: [u8; 16] = [
    0x00, 0x00, 0x00, 0x00, 0x00, 0x00, 0x00, 0x00, 0xc0, 0x00, 0x00, 0x00, 0x00, 0x00, 0x00, 0x46,
];

#[derive(Debug, Clone, Copy, PartialEq, Eq, Structural)]
pub enum PropertyKind {
    Class,
    BaseClass,
    Owner,
    Name,
    Manufacturer,
    OwnedObjects,
    BundleId,
    ResourceBundle,
    DeviceList,
    EmptyObjectList,
    ControlList,
    TranslateDeviceUid,
    CustomPropertyInfoList,
    DeviceUid,
    ModelUid,
    TransportType,
    Alive,
    Running,
    DefaultDevice,
    DefaultSystemDevice,
    RelatedDevices,
    ClockDomain,
    Hidden,
    HogMode,
    SupportsMixing,
    Latency,
    SafetyOffset,
    SampleRate,
    ActualSampleRate,
    AvailableSampleRates,
    Streams,
    StreamConfiguration,
    BufferFrameSize,
    BufferFrameSizeRange,
    ZeroTimeStampPeriod,
    StreamActive,
    StreamDirection,
    StreamTerminalType,
    StreamStartingChannel,
    StreamFormat,
    StreamPhysicalFormat,
    StreamAvailableFormats,
}

/// The property of the plug-in that `selector` names.
pub open spec fn plug_in_property(selector: u32) -> Option<PropertyKind> {
    if selector == OBJECT_CLASS {
        Some(PropertyKind::Class)
    } else if selector == OBJECT_BASE_CLASS {
        Some(PropertyKind::BaseClass)
    } else if selector == OBJECT_OWNER {
        Some(PropertyKind::Owner)
    } else if selector == OBJECT_NAME {
        Some(PropertyKind::Name)
    } else if selector == OBJECT_MANUFACTURER {
        Some(PropertyKind::Manufacturer)
    } else if selector == OBJECT_OWNED_OBJECTS {
        Some(PropertyKind::OwnedObjects)
    } else if selector == OBJECT_CUSTOM_PROPERTY_INFO_LIST {
        Some(PropertyKind::CustomPropertyInfoList)
    } else if selector == PLUG_IN_BUNDLE_ID {
        Some(PropertyKind::BundleId)
    } else if selector == PLUG_IN_RESOURCE_BUNDLE {
        Some(PropertyKind::ResourceBundle)
    } else if selector == PLUG_IN_DEVICE_LIST {
        Some(PropertyKind::DeviceList)
    } else if selector == PLUG_IN_TRANSLATE_UID_TO_DEVICE {
        Some(PropertyKind::TranslateDeviceUid)
    } else if selector == PLUG_IN_BOX_LIST {
        Some(PropertyKind::EmptyObjectList)
    } else if selector == PLUG_IN_CLOCK_DEVICE_LIST {
        Some(PropertyKind::EmptyObjectList)
    } else {
        None
    }
}

fn plug_in_kind(selector: u32) -> (kind: Option<PropertyKind>)
    ensures
        kind == plug_in_property(selector),
{
    if selector == OBJECT_CLASS {
        Some(PropertyKind::Class)
    } else if selector == OBJECT_BASE_CLASS {
        Some(PropertyKind::BaseClass)
    } else if selector == OBJECT_OWNER {
        Some(PropertyKind::Owner)
    } else if selector == OBJECT_NAME {
        Some(PropertyKind::Name)
    } else if selector == OBJECT_MANUFACTURER {
        Some(PropertyKind::Manufacturer)
    } else if selector == OBJECT_OWNED_OBJECTS {
        Some(PropertyKind::OwnedObjects)
    } else if selector == OBJECT_CUSTOM_PROPERTY_INFO_LIST {
        Some(PropertyKind::CustomPropertyInfoList)
    } else if selector == PLUG_IN_BUNDLE_ID {
        Some(PropertyKind::BundleId)
    } else if selector == PLUG_IN_RESOURCE_BUNDLE {
        Some(PropertyKind::ResourceBundle)
    } else if selector == PLUG_IN_DEVICE_LIST {
        Some(PropertyKind::DeviceList)
    } else if selector == PLUG_IN_TRANSLATE_UID_TO_DEVICE {
        Some(PropertyKind::TranslateDeviceUid)
    } else if selector == PLUG_IN_BOX_LIST {
        Some(PropertyKind::EmptyObjectList)
    } else if selector == PLUG_IN_CLOCK_DEVICE_LIST {
        Some(PropertyKind::EmptyObjectList)
    } else {
        None
    }
}

/// The property of the device that `selector` names.
pub open spec fn device_property(selector: u32) -> Option<PropertyKind> {
    if selector == OBJECT_CLASS {
        Some(PropertyKind::Class)
    } else if selector == OBJECT_BASE_CLASS {
        Some(PropertyKind::BaseClass)
    } else if selector == OBJECT_OWNER {
        Some(PropertyKind::Owner)
    } else if selector == OBJECT_NAME {
        Some(PropertyKind::Name)
    } else if selector == OBJECT_MANUFACTURER {
        Some(PropertyKind::Manufacturer)
    } else if selector == OBJECT_OWNED_OBJECTS {
        Some(PropertyKind::OwnedObjects)
    } else if selector == OBJECT_CUSTOM_PROPERTY_INFO_LIST {
        Some(PropertyKind::CustomPropertyInfoList)
    } else if selector == OBJECT_CONTROL_LIST {
        Some(PropertyKind::ControlList)
    } else if selector == DEVICE_UID_PROPERTY {
        Some(PropertyKind::DeviceUid)
    } else if selector == DEVICE_MODEL_UID {
        Some(PropertyKind::ModelUid)
    } else if selector == DEVICE_TRANSPORT_TYPE {
        Some(PropertyKind::TransportType)
    } else if selector == DEVICE_IS_ALIVE {
        Some(PropertyKind::Alive)
    } else if selector == DEVICE_IS_RUNNING {
        Some(PropertyKind::Running)
    } else if selector == DEVICE_IS_RUNNING_SOMEWHERE {
        Some(PropertyKind::Running)
    } else if selector == DEVICE_CAN_BE_DEFAULT_DEVICE {
        Some(PropertyKind::DefaultDevice)
    } else if selector == DEVICE_CAN_BE_DEFAULT_SYSTEM_DEVICE {
        Some(PropertyKind::DefaultSystemDevice)
    } else if selector == DEVICE_RELATED_DEVICES {
        Some(PropertyKind::RelatedDevices)
    } else if selector == DEVICE_CLOCK_DOMAIN {
        Some(PropertyKind::ClockDomain)
    } else if selector == DEVICE_IS_HIDDEN {
        Some(PropertyKind::Hidden)
    } else if selector == DEVICE_HOG_MODE {
        Some(PropertyKind::HogMode)
    } else if selector == DEVICE_SUPPORTS_MIXING {
        Some(PropertyKind::SupportsMixing)
    } else if selector == DEVICE_LATENCY {
        Some(PropertyKind::Latency)
    } else if selector == DEVICE_SAFETY_OFFSET {
        Some(PropertyKind::SafetyOffset)
    } else if selector == DEVICE_NOMINAL_SAMPLE_RATE {
        Some(PropertyKind::SampleRate)
    } else if selector == DEVICE_ACTUAL_SAMPLE_RATE {
        Some(PropertyKind::ActualSampleRate)
    } else if selector == DEVICE_AVAILABLE_NOMINAL_SAMPLE_RATES {
        Some(PropertyKind::AvailableSampleRates)
    } else if selector == DEVICE_STREAMS {
        Some(PropertyKind::Streams)
    } else if selector == DEVICE_STREAM_CONFIGURATION {
        Some(PropertyKind::StreamConfiguration)
    } else if selector == DEVICE_BUFFER_FRAME_SIZE {
        Some(PropertyKind::BufferFrameSize)
    } else if selector == DEVICE_BUFFER_FRAME_SIZE_RANGE {
        Some(PropertyKind::BufferFrameSizeRange)
    } else if selector == DEVICE_ZERO_TIME_STAMP_PERIOD {
        Some(PropertyKind::ZeroTimeStampPeriod)
    } else {
        None
    }
}

fn device_kind(selector: u32) -> (kind: Option<PropertyKind>)
    ensures
        kind == device_property(selector),
{
    if selector == OBJECT_CLASS {
        Some(PropertyKind::Class)
    } else if selector == OBJECT_BASE_CLASS {
        Some(PropertyKind::BaseClass)
    } else if selector == OBJECT_OWNER {
        Some(PropertyKind::Owner)
    } else if selector == OBJECT_NAME {
        Some(PropertyKind::Name)
    } else if selector == OBJECT_MANUFACTURER {
        Some(PropertyKind::Manufacturer)
    } else if selector == OBJECT_OWNED_OBJECTS {
        Some(PropertyKind::OwnedObjects)
    } else if selector == OBJECT_CUSTOM_PROPERTY_INFO_LIST {
        Some(PropertyKind::CustomPropertyInfoList)
    } else if selector == OBJECT_CONTROL_LIST {
        Some(PropertyKind::ControlList)
    } else if selector == DEVICE_UID_PROPERTY {
        Some(PropertyKind::DeviceUid)
    } else if selector == DEVICE_MODEL_UID {
        Some(PropertyKind::ModelUid)
    } else if selector == DEVICE_TRANSPORT_TYPE {
        Some(PropertyKind::TransportType)
    } else if selector == DEVICE_IS_ALIVE {
        Some(PropertyKind::Alive)
    } else if selector == DEVICE_IS_RUNNING {
        Some(PropertyKind::Running)
    } else if selector == DEVICE_IS_RUNNING_SOMEWHERE {
        Some(PropertyKind::Running)
    } else if selector == DEVICE_CAN_BE_DEFAULT_DEVICE {
        Some(PropertyKind::DefaultDevice)
    } else if selector == DEVICE_CAN_BE_DEFAULT_SYSTEM_DEVICE {
        Some(PropertyKind::DefaultSystemDevice)
    } else if selector == DEVICE_RELATED_DEVICES {
        Some(PropertyKind::RelatedDevices)
    } else if selector == DEVICE_CLOCK_DOMAIN {
        Some(PropertyKind::ClockDomain)
    } else if selector == DEVICE_IS_HIDDEN {
        Some(PropertyKind::Hidden)
    } else if selector == DEVICE_HOG_MODE {
        Some(PropertyKind::HogMode)
    } else if selector == DEVICE_SUPPORTS_MIXING {
        Some(PropertyKind::SupportsMixing)
    } else if selector == DEVICE_LATENCY {
        Some(PropertyKind::Latency)
    } else if selector == DEVICE_SAFETY_OFFSET {
        Some(PropertyKind::SafetyOffset)
    } else if selector == DEVICE_NOMINAL_SAMPLE_RATE {
        Some(PropertyKind::SampleRate)
    } else if selector == DEVICE_ACTUAL_SAMPLE_RATE {
        Some(PropertyKind::ActualSampleRate)
    } else if selector == DEVICE_AVAILABLE_NOMINAL_SAMPLE_RATES {
        Some(PropertyKind::AvailableSampleRates)
    } else if selector == DEVICE_STREAMS {
        Some(PropertyKind::Streams)
    } else if selector == DEVICE_STREAM_CONFIGURATION {
        Some(PropertyKind::StreamConfiguration)
    } else if selector == DEVICE_BUFFER_FRAME_SIZE {
        Some(PropertyKind::BufferFrameSize)
    } else if selector == DEVICE_BUFFER_FRAME_SIZE_RANGE {
        Some(PropertyKind::BufferFrameSizeRange)
    } else if selector == DEVICE_ZERO_TIME_STAMP_PERIOD {
        Some(PropertyKind::ZeroTimeStampPeriod)
    } else {
        None
    }
}

/// The property of the stream that `selector` names.
pub open spec fn stream_property(selector: u32) -> Option<PropertyKind> {
    if selector == OBJECT_CLASS {
        Some(PropertyKind::Class)
    } else if selector == OBJECT_BASE_CLASS {
        Some(PropertyKind::BaseClass)
    } else if selector == OBJECT_OWNER {
        Some(PropertyKind::Owner)
    } else if selector == OBJECT_NAME {
        Some(PropertyKind::Name)
    } else if selector == OBJECT_CUSTOM_PROPERTY_INFO_LIST {
        Some(PropertyKind::CustomPropertyInfoList)
    } else if selector == STREAM_IS_ACTIVE {
        Some(PropertyKind::StreamActive)
    } else if selector == STREAM_DIRECTION {
        Some(PropertyKind::StreamDirection)
    } else if selector == STREAM_TERMINAL_TYPE {
        Some(PropertyKind::StreamTerminalType)
    } else if selector == STREAM_STARTING_CHANNEL {
        Some(PropertyKind::StreamStartingChannel)
    } else if selector == STREAM_LATENCY {
        Some(PropertyKind::Latency)
    } else if selector == STREAM_VIRTUAL_FORMAT {
        Some(PropertyKind::StreamFormat)
    } else if selector == STREAM_PHYSICAL_FORMAT {
        Some(PropertyKind::StreamPhysicalFormat)
    } else if selector == STREAM_AVAILABLE_VIRTUAL_FORMATS {
        Some(PropertyKind::StreamAvailableFormats)
    } else if selector == STREAM_AVAILABLE_PHYSICAL_FORMATS {
        Some(PropertyKind::StreamAvailableFormats)
    } else {
        None
    }
}

fn stream_kind(selector: u32) -> (kind: Option<PropertyKind>)
    ensures
        kind == stream_property(selector),
{
    if selector == OBJECT_CLASS {
        Some(PropertyKind::Class)
    } else if selector == OBJECT_BASE_CLASS {
        Some(PropertyKind::BaseClass)
    } else if selector == OBJECT_OWNER {
        Some(PropertyKind::Owner)
    } else if selector == OBJECT_NAME {
        Some(PropertyKind::Name)
    } else if selector == OBJECT_CUSTOM_PROPERTY_INFO_LIST {
        Some(PropertyKind::CustomPropertyInfoList)
    } else if selector == STREAM_IS_ACTIVE {
        Some(PropertyKind::StreamActive)
    } else if selector == STREAM_DIRECTION {
        Some(PropertyKind::StreamDirection)
    } else if selector == STREAM_TERMINAL_TYPE {
        Some(PropertyKind::StreamTerminalType)
    } else if selector == STREAM_STARTING_CHANNEL {
        Some(PropertyKind::StreamStartingChannel)
    } else if selector == STREAM_LATENCY {
        Some(PropertyKind::Latency)
    } else if selector == STREAM_VIRTUAL_FORMAT {
        Some(PropertyKind::StreamFormat)
    } else if selector == STREAM_PHYSICAL_FORMAT {
        Some(PropertyKind::StreamPhysicalFormat)
    } else if selector == STREAM_AVAILABLE_VIRTUAL_FORMATS {
        Some(PropertyKind::StreamAvailableFormats)
    } else if selector == STREAM_AVAILABLE_PHYSICAL_FORMATS {
        Some(PropertyKind::StreamAvailableFormats)
    } else {
        None
    }
}

/// The property that `selector` names of an object.
pub open spec fn property_of(object_id: u32, selector: u32) -> Option<PropertyKind> {
    if object_id == PLUG_IN_OBJECT {
        plug_in_property(selector)
    } else if object_id == DEVICE_ID {
        device_property(selector)
    } else if object_id == STREAM_ID {
        stream_property(selector)
    } else {
        None
    }
}

pub fn property_kind(object_id: u32, selector: u32) -> (kind: Option<PropertyKind>)
    ensures
        kind == property_of(object_id, selector),
{
    if object_id == PLUG_IN_OBJECT {
        plug_in_kind(selector)
    } else if object_id == DEVICE_ID {
        device_kind(selector)
    } else if object_id == STREAM_ID {
        stream_kind(selector)
    } else {
        None
    }
}

/// How the samples of the stream are laid out.
#[derive(Debug, Clone, Copy, PartialEq, Eq, Structural)]
pub struct StreamFormat {
    pub sample_rate: u32,
    pub format_id: u32,
    pub format_flags: u32,
    pub bytes_per_packet: u32,
    pub frames_per_packet: u32,
    pub bytes_per_frame: u32,
    pub channels_per_frame: u32,
    pub bits_per_channel: u32,
}

pub open spec fn the_stream_format() -> StreamFormat {
    StreamFormat {
        sample_rate: SAMPLE_RATE,
        format_id: FORMAT_LINEAR_PCM,
        format_flags: FORMAT_FLAGS,
        bytes_per_packet: (CHANNELS * BYTES_PER_SAMPLE) as u32,
        frames_per_packet: 1,
        bytes_per_frame: (CHANNELS * BYTES_PER_SAMPLE) as u32,
        channels_per_frame: CHANNELS,
        bits_per_channel: BITS_PER_CHANNEL,
    }
}

pub fn stream_format() -> (format: StreamFormat)
    ensures
        format == the_stream_format(),
{
    StreamFormat {
        sample_rate: SAMPLE_RATE,
        format_id: FORMAT_LINEAR_PCM,
        format_flags: FORMAT_FLAGS,
        bytes_per_packet: 4,
        frames_per_packet: 1,
        bytes_per_frame: 4,
        channels_per_frame: CHANNELS,
        bits_per_channel: BITS_PER_CHANNEL,
    }
}

/// The value of a property. Sample rates and frame counts are whole numbers here;
/// the host gets the rates, and the ends of ranges, as floating-point numbers.
#[derive(Debug, Clone, Copy, PartialEq, Eq)]
pub enum PropertyValue {
    Number(u32),
    Signed(i32),
    Text(&'static str),
    /// A list of one object.
    Object(u32),
    /// An empty list.
    Nothing,
    Rate(u32),
    Range { minimum: u32, maximum: u32 },
    StreamConfiguration { buffers: u32, channels: u32 },
    Format(StreamFormat),
    RangedFormat { format: StreamFormat, minimum: u32, maximum: u32 },
}

/// How many bytes a value takes up on a machine with 64-bit pointers.
pub open spec fn value_size(value: PropertyValue) -> u32 {
    match value {
        PropertyValue::Number(_) => 4,
        PropertyValue::Signed(_) => 4,
        PropertyValue::Text(_) => 8,
        PropertyValue::Object(_) => 4,
        PropertyValue::Nothing => 0,
        PropertyValue::Rate(_) => 8,
        PropertyValue::Range { .. } => 16,
        PropertyValue::StreamConfiguration { .. } => 24,
        PropertyValue::Format(_) => 40,
        PropertyValue::RangedFormat { .. } => 56,
    }
}

impl PropertyValue {
    pub fn size(&self) -> (size: u32)
        ensures
            size == value_size(*self),
    {
        match self {
            PropertyValue::Number(_) => 4,
            PropertyValue::Signed(_) => 4,
            PropertyValue::Text(_) => 8,
            PropertyValue::Object(_) => 4,
            PropertyValue::Nothing => 0,
            PropertyValue::Rate(_) => 8,
            PropertyValue::Range { .. } => 16,
            PropertyValue::StreamConfiguration { .. } => 24,
            PropertyValue::Format(_) => 40,
            PropertyValue::RangedFormat { .. } => 56,
        }
    }
}

/// How many bytes a property takes up.
pub open spec fn size_of_property(kind: PropertyKind, object_id: u32, scope: u32) -> u32 {
    match kind {
        PropertyKind::Name | PropertyKind::Manufacturer | PropertyKind::BundleId
        | PropertyKind::ResourceBundle | PropertyKind::DeviceUid | PropertyKind::ModelUid => 8,
        PropertyKind::SampleRate | PropertyKind::ActualSampleRate => 8,
        PropertyKind::AvailableSampleRates | PropertyKind::BufferFrameSizeRange => 16,
        PropertyKind::StreamAvailableFormats => 56,
        PropertyKind::StreamConfiguration => 24,
        PropertyKind::EmptyObjectList | PropertyKind::ControlList
        | PropertyKind::CustomPropertyInfoList => 0,
        PropertyKind::OwnedObjects => if object_id == PLUG_IN_OBJECT || object_id == DEVICE_ID {
            4
        } else {
            0
        },
        PropertyKind::Streams => if scope == SCOPE_INPUT || scope == SCOPE_GLOBAL {
            4
        } else {
            0
        },
        PropertyKind::StreamFormat | PropertyKind::StreamPhysicalFormat => 40,
        _ => 4,
    }
}

pub fn property_size(kind: PropertyKind, object_id: u32, scope: u32) -> (size: u32)
    ensures
        size == size_of_property(kind, object_id, scope),
{
    match kind {
        PropertyKind::Name | PropertyKind::Manufacturer | PropertyKind::BundleId
        | PropertyKind::ResourceBundle | PropertyKind::DeviceUid | PropertyKind::ModelUid => 8,
        PropertyKind::SampleRate | PropertyKind::ActualSampleRate => 8,
        PropertyKind::AvailableSampleRates | PropertyKind::BufferFrameSizeRange => 16,
        PropertyKind::StreamAvailableFormats => 56,
        PropertyKind::StreamConfiguration => 24,
        PropertyKind::EmptyObjectList | PropertyKind::ControlList
        | PropertyKind::CustomPropertyInfoList => 0,
        PropertyKind::OwnedObjects => if object_id == PLUG_IN_OBJECT || object_id == DEVICE_ID {
            4
        } else {
            0
        },
        PropertyKind::Streams => if scope == SCOPE_INPUT || scope == SCOPE_GLOBAL {
            4
        } else {
            0
        },
        PropertyKind::StreamFormat | PropertyKind::StreamPhysicalFormat => 40,
        _ => 4,
    }
}

pub open spec fn class_of(object_id: u32) -> u32 {
    if object_id == PLUG_IN_OBJECT {
        PLUG_IN_CLASS_ID
    } else if object_id == DEVICE_ID {
        DEVICE_CLASS_ID
    } else if object_id == STREAM_ID {
        STREAM_CLASS_ID
    } else {
        OBJECT_CLASS_ID
    }
}

/// The plug-in owns the device, and the device owns the stream.
pub open spec fn owner_of(object_id: u32) -> u32 {
    if object_id == DEVICE_ID {
        PLUG_IN_OBJECT
    } else if object_id == STREAM_ID {
        DEVICE_ID
    } else {
        0
    }
}

pub open spec fn name_of(object_id: u32) -> &'static str {
    if object_id == PLUG_IN_OBJECT {
        DRIVER_UID
    } else if object_id == STREAM_ID {
        STREAM_NAME
    } else {
        DEVICE_NAME
    }
}

pub open spec fn owned_by(object_id: u32) -> PropertyValue {
    if object_id == PLUG_IN_OBJECT {
        PropertyValue::Object(DEVICE_ID)
    } else if object_id == DEVICE_ID {
        PropertyValue::Object(STREAM_ID)
    } else {
        PropertyValue::Nothing
    }
}

pub fn class_id(object_id: u32) -> (class: u32)
    ensures
        class == class_of(object_id),
{
    if object_id == PLUG_IN_OBJECT {
        PLUG_IN_CLASS_ID
    } else if object_id == DEVICE_ID {
        DEVICE_CLASS_ID
    } else if object_id == STREAM_ID {
        STREAM_CLASS_ID
    } else {
        OBJECT_CLASS_ID
    }
}

pub fn owner_id(object_id: u32) -> (owner: u32)
    ensures
        owner == owner_of(object_id),
{
    if object_id == DEVICE_ID {
        PLUG_IN_OBJECT
    } else if object_id == STREAM_ID {
        DEVICE_ID
    } else {
        0
    }
}

pub fn object_name(object_id: u32) -> (name: &'static str)
    ensures
        name == name_of(object_id),
{
    if object_id == PLUG_IN_OBJECT {
        DRIVER_UID
    } else if object_id == STREAM_ID {
        STREAM_NAME
    } else {
        DEVICE_NAME
    }
}

fn owned_objects(object_id: u32) -> (value: PropertyValue)
    ensures
        value == owned_by(object_id),
{
    if object_id == PLUG_IN_OBJECT {
        PropertyValue::Object(DEVICE_ID)
    } else if object_id == DEVICE_ID {
        PropertyValue::Object(STREAM_ID)
    } else {
        PropertyValue::Nothing
    }
}

/// What a property is; `running` is whether audio is being taken from the device.
pub open spec fn value_of(kind: PropertyKind, object_id: u32, scope: u32, running: bool) -> PropertyValue {
    match kind {
        PropertyKind::Class => PropertyValue::Number(class_of(object_id)),
        PropertyKind::BaseClass => PropertyValue::Number(OBJECT_CLASS_ID),
        PropertyKind::Owner => PropertyValue::Number(owner_of(object_id)),
        PropertyKind::Name => PropertyValue::Text(name_of(object_id)),
        PropertyKind::Manufacturer => PropertyValue::Text(MANUFACTURER),
        PropertyKind::OwnedObjects => owned_by(object_id),
        PropertyKind::BundleId => PropertyValue::Text(DRIVER_UID),
        PropertyKind::ResourceBundle => PropertyValue::Text(RESOURCES),
        PropertyKind::DeviceList => PropertyValue::Object(DEVICE_ID),
        PropertyKind::EmptyObjectList => PropertyValue::Nothing,
        PropertyKind::ControlList => PropertyValue::Nothing,
        PropertyKind::TranslateDeviceUid => PropertyValue::Number(DEVICE_ID),
        PropertyKind::CustomPropertyInfoList => PropertyValue::Nothing,
        PropertyKind::DeviceUid => PropertyValue::Text(DEVICE_UID),
        PropertyKind::ModelUid => PropertyValue::Text(MODEL_UID),
        PropertyKind::TransportType => PropertyValue::Number(TRANSPORT_TYPE_VIRTUAL),
        PropertyKind::Alive => PropertyValue::Number(1),
        PropertyKind::Running => PropertyValue::Number(
            if running {
                1
            } else {
                0
            },
        ),
        PropertyKind::DefaultDevice => PropertyValue::Number(1),
        PropertyKind::DefaultSystemDevice => PropertyValue::Number(0),
        PropertyKind::RelatedDevices => PropertyValue::Object(DEVICE_ID),
        PropertyKind::ClockDomain => PropertyValue::Number(0),
        PropertyKind::Hidden => PropertyValue::Number(0),
        PropertyKind::HogMode => PropertyValue::Signed(NO_PROCESS),
        PropertyKind::SupportsMixing => PropertyValue::Number(1),
        PropertyKind::Latency => PropertyValue::Number(0),
        PropertyKind::SafetyOffset => PropertyValue::Number(0),
        PropertyKind::SampleRate => PropertyValue::Rate(SAMPLE_RATE),
        PropertyKind::ActualSampleRate => PropertyValue::Rate(SAMPLE_RATE),
        PropertyKind::AvailableSampleRates => PropertyValue::Range {
            minimum: SAMPLE_RATE,
            maximum: SAMPLE_RATE,
        },
        PropertyKind::Streams => if scope == SCOPE_OUTPUT {
            PropertyValue::Nothing
        } else {
            PropertyValue::Object(STREAM_ID)
        },
        PropertyKind::StreamConfiguration => PropertyValue::StreamConfiguration {
            buffers: if scope == SCOPE_OUTPUT {
                0
            } else {
                1
            },
            channels: CHANNELS,
        },
        PropertyKind::BufferFrameSize => PropertyValue::Number(BUFFER_FRAME_SIZE),
        PropertyKind::BufferFrameSizeRange => PropertyValue::Range {
            minimum: MIN_BUFFER_FRAMES,
            maximum: MAX_BUFFER_FRAMES,
        },
        PropertyKind::ZeroTimeStampPeriod => PropertyValue::Number(BUFFER_FRAME_SIZE),
        PropertyKind::StreamActive => PropertyValue::Number(1),
        PropertyKind::StreamDirection => PropertyValue::Number(1),
        PropertyKind::StreamTerminalType => PropertyValue::Number(TERMINAL_TYPE_MICROPHONE),
        PropertyKind::StreamStartingChannel => PropertyValue::Number(1),
        PropertyKind::StreamFormat => PropertyValue::Format(the_stream_format()),
        PropertyKind::StreamPhysicalFormat => PropertyValue::Format(the_stream_format()),
        PropertyKind::StreamAvailableFormats => PropertyValue::RangedFormat {
            format: the_stream_format(),
            minimum: SAMPLE_RATE,
            maximum: SAMPLE_RATE,
        },
    }
}

/// What a property is.
pub fn property_value(kind: PropertyKind, object_id: u32, scope: u32, running: bool) -> (value:
    PropertyValue)
    ensures
        value == value_of(kind, object_id, scope, running),
{
    match kind {
        PropertyKind::Class => PropertyValue::Number(class_id(object_id)),
        PropertyKind::BaseClass => PropertyValue::Number(OBJECT_CLASS_ID),
        PropertyKind::Owner => PropertyValue::Number(owner_id(object_id)),
        PropertyKind::Name => PropertyValue::Text(object_name(object_id)),
        PropertyKind::Manufacturer => PropertyValue::Text(MANUFACTURER),
        PropertyKind::OwnedObjects => owned_objects(object_id),
        PropertyKind::BundleId => PropertyValue::Text(DRIVER_UID),
        PropertyKind::ResourceBundle => PropertyValue::Text(RESOURCES),
        PropertyKind::DeviceList => PropertyValue::Object(DEVICE_ID),
        PropertyKind::EmptyObjectList => PropertyValue::Nothing,
        PropertyKind::ControlList => PropertyValue::Nothing,
        PropertyKind::TranslateDeviceUid => PropertyValue::Number(DEVICE_ID),
        PropertyKind::CustomPropertyInfoList => PropertyValue::Nothing,
        PropertyKind::DeviceUid => PropertyValue::Text(DEVICE_UID),
        PropertyKind::ModelUid => PropertyValue::Text(MODEL_UID),
        PropertyKind::TransportType => PropertyValue::Number(TRANSPORT_TYPE_VIRTUAL),
        PropertyKind::Alive => PropertyValue::Number(1),
        PropertyKind::Running => PropertyValue::Number(
            if running {
                1
            } else {
                0
            },
        ),
        PropertyKind::DefaultDevice => PropertyValue::Number(1),
        PropertyKind::DefaultSystemDevice => PropertyValue::Number(0),
        PropertyKind::RelatedDevices => PropertyValue::Object(DEVICE_ID),
        PropertyKind::ClockDomain => PropertyValue::Number(0),
        PropertyKind::Hidden => PropertyValue::Number(0),
        PropertyKind::HogMode => PropertyValue::Signed(NO_PROCESS),
        PropertyKind::SupportsMixing => PropertyValue::Number(1),
        PropertyKind::Latency => PropertyValue::Number(0),
        PropertyKind::SafetyOffset => PropertyValue::Number(0),
        PropertyKind::SampleRate => PropertyValue::Rate(SAMPLE_RATE),
        PropertyKind::ActualSampleRate => PropertyValue::Rate(SAMPLE_RATE),
        PropertyKind::AvailableSampleRates => PropertyValue::Range {
            minimum: SAMPLE_RATE,
            maximum: SAMPLE_RATE,
        },
        PropertyKind::Streams => if scope == SCOPE_OUTPUT {
            PropertyValue::Nothing
        } else {
            PropertyValue::Object(STREAM_ID)
        },
        PropertyKind::StreamConfiguration => PropertyValue::StreamConfiguration {
            buffers: if scope == SCOPE_OUTPUT {
                0
            } else {
                1
            },
            channels: CHANNELS,
        },
        PropertyKind::BufferFrameSize => PropertyValue::Number(BUFFER_FRAME_SIZE),
        PropertyKind::BufferFrameSizeRange => PropertyValue::Range {
            minimum: MIN_BUFFER_FRAMES,
            maximum: MAX_BUFFER_FRAMES,
        },
        PropertyKind::ZeroTimeStampPeriod => PropertyValue::Number(BUFFER_FRAME_SIZE),
        PropertyKind::StreamActive => PropertyValue::Number(1),
        PropertyKind::StreamDirection => PropertyValue::Number(1),
        PropertyKind::StreamTerminalType => PropertyValue::Number(TERMINAL_TYPE_MICROPHONE),
        PropertyKind::StreamStartingChannel => PropertyValue::Number(1),
        PropertyKind::StreamFormat => PropertyValue::Format(stream_format()),
        PropertyKind::StreamPhysicalFormat => PropertyValue::Format(stream_format()),
        PropertyKind::StreamAvailableFormats => PropertyValue::RangedFormat {
            format: stream_format(),
            minimum: SAMPLE_RATE,
            maximum: SAMPLE_RATE,
        },
    }
}

/// The reply to a request for a property, for which the host has `data_size` bytes
/// of room.
pub open spec fn property_reply(
    object_id: u32,
    selector: u32,
    scope: u32,
    data_size: u32,
    running: bool,
) -> Result<PropertyValue, i32> {
    match property_of(object_id, selector) {
        None => Err(UNKNOWN_PROPERTY_ERROR),
        Some(kind) => {
            let value = value_of(kind, object_id, scope, running);
            if data_size < value_size(value) {
                Err(BAD_PROPERTY_SIZE_ERROR)
            } else {
                Ok(value)
            }
        },
    }
}

pub fn get_property_data(
    object_id: u32,
    selector: u32,
    scope: u32,
    data_size: u32,
    running: bool,
) -> (reply: Result<PropertyValue, i32>)
    ensures
        reply == property_reply(object_id, selector, scope, data_size, running),
{
    let kind = match property_kind(object_id, selector) {
        Some(kind) => kind,
        None => return Err(UNKNOWN_PROPERTY_ERROR),
    };
    let value = property_value(kind, object_id, scope, running);
    if data_size < value.size() {
        return Err(BAD_PROPERTY_SIZE_ERROR);
    }
    Ok(value)
}

/// A host that makes as much room as the driver says a property needs gets the
/// property, and all of that room is used. The exception is the list of streams in
/// a scope that is none of the three, which is said to be empty and is not.
pub proof fn law_the_size_that_is_given_is_the_size_that_is_needed(
    object_id: u32,
    selector: u32,
    scope: u32,
    running: bool,
)
    requires
        property_of(object_id, selector) is Some,
        property_of(object_id, selector) == Some(PropertyKind::Streams) ==> scope == SCOPE_INPUT
            || scope == SCOPE_OUTPUT || scope == SCOPE_GLOBAL,
    ensures
        ({
            let kind = property_of(object_id, selector)->0;
            let size = size_of_property(kind, object_id, scope);
            let reply = property_reply(object_id, selector, scope, size, running);
            reply is Ok && value_size(reply->Ok_0) == size
        }),
{
}

/// Following the owners from any object of the driver leads to the plug-in, and
/// each object is among those that its owner owns.
pub proof fn law_owners_and_owned_agree()
    ensures
        owned_by(owner_of(DEVICE_ID)) == PropertyValue::Object(DEVICE_ID),
        owned_by(owner_of(STREAM_ID)) == PropertyValue::Object(STREAM_ID),
        owner_of(owner_of(STREAM_ID)) == PLUG_IN_OBJECT,
{
}

/// What a host that has room for anything learns of a property.
pub open spec fn property_told(object_id: u32, selector: u32, scope: u32, running: bool) -> Option<
    PropertyValue,
> {
    match property_reply(object_id, selector, scope, u32::MAX, running) {
        Ok(value) => Some(value),
        Err(_) => None,
    }
}

/// The device is a microphone. The direction of its stream is that of an input, which
/// is 1, exactly if the stream is listed among the inputs, and that of an output, which
/// is 0, exactly if it is listed among the outputs; there is one buffer for each stream
/// that is listed; and the stream comes from a microphone.
pub proof fn law_the_device_is_a_microphone(scope: u32, running: bool)
    ensures
        ({
            let direction = property_told(STREAM_ID, STREAM_DIRECTION, scope, running);
            let inputs = property_told(DEVICE_ID, DEVICE_STREAMS, SCOPE_INPUT, running);
            let outputs = property_told(DEVICE_ID, DEVICE_STREAMS, SCOPE_OUTPUT, running);
            let listed = property_told(DEVICE_ID, DEVICE_STREAMS, scope, running);
            let layout = property_told(DEVICE_ID, DEVICE_STREAM_CONFIGURATION, scope, running);
            let terminal = property_told(STREAM_ID, STREAM_TERMINAL_TYPE, scope, running);
            &&& direction == Some(PropertyValue::Number(1)) <==> inputs == Some(
                PropertyValue::Object(STREAM_ID),
            )
            &&& direction == Some(PropertyValue::Number(0)) <==> outputs == Some(
                PropertyValue::Object(STREAM_ID),
            )
            &&& inputs == Some(PropertyValue::Nothing) || outputs == Some(PropertyValue::Nothing)
            &&& layout matches Some(PropertyValue::StreamConfiguration { buffers, channels })
                && channels == CHANNELS && buffers == if listed == Some(
                PropertyValue::Object(STREAM_ID),
            ) {
                1u32
            } else {
                0
            }
            &&& terminal == Some(PropertyValue::Number(0x6d69_6372)) <==> direction == Some(
                PropertyValue::Number(1),
            )
        }),
{
}

/// The device has one rate, that of the ring that feeds it: it is the nominal and the
/// actual one, the only one that can be chosen, and that of both formats of the stream,
/// which are one and the same.
pub proof fn law_the_device_has_one_rate(scope: u32, running: bool)
    ensures
        ({
            let nominal = property_told(DEVICE_ID, DEVICE_NOMINAL_SAMPLE_RATE, scope, running);
            let actual = property_told(DEVICE_ID, DEVICE_ACTUAL_SAMPLE_RATE, scope, running);
            let rates = property_told(
                DEVICE_ID,
                DEVICE_AVAILABLE_NOMINAL_SAMPLE_RATES,
                scope,
                running,
            );
            let format = property_told(STREAM_ID, STREAM_VIRTUAL_FORMAT, scope, running);
            let physical = property_told(STREAM_ID, STREAM_PHYSICAL_FORMAT, scope, running);
            let formats = property_told(STREAM_ID, STREAM_AVAILABLE_VIRTUAL_FORMATS, scope, running);
            let physicals = property_told(
                STREAM_ID,
                STREAM_AVAILABLE_PHYSICAL_FORMATS,
                scope,
                running,
            );
            &&& nominal matches Some(PropertyValue::Rate(rate)) && rate == SAMPLE_RATE && rate
                == 48_000
            &&& actual == nominal
            &&& rates matches Some(PropertyValue::Range { minimum, maximum }) && minimum
                == SAMPLE_RATE && maximum == SAMPLE_RATE
            &&& format matches Some(PropertyValue::Format(laid_out)) && laid_out.sample_rate
                == SAMPLE_RATE && formats == Some(
                PropertyValue::RangedFormat {
                    format: laid_out,
                    minimum: SAMPLE_RATE,
                    maximum: SAMPLE_RATE,
                },
            )
            &&& physical == format
            &&& physicals == formats
        }),
{
}

/// The layout of the stream is consistent: packed 32-bit floating-point PCM with as many
/// bytes as its channels and bits take up, and one frame to a packet.
pub proof fn law_the_format_adds_up()
    ensures
        ({
            let format = the_stream_format();
            &&& 8 * format.bytes_per_frame == format.channels_per_frame * format.bits_per_channel
            &&& format.bytes_per_packet == format.frames_per_packet * format.bytes_per_frame
            &&& format.frames_per_packet == 1
            &&& format.channels_per_frame == CHANNELS
            &&& format.bits_per_channel == 32
            &&& format.format_id == 0x6c70_636d
            &&& format.format_flags == 1 + 8
        }),
{
}

/// The size of a buffer lies in the range that is told, and the clock ticks once for
/// each buffer.
pub proof fn law_buffers_have_a_size_in_range(scope: u32, running: bool)
    ensures
        ({
            let size = property_told(DEVICE_ID, DEVICE_BUFFER_FRAME_SIZE, scope, running);
            let range = property_told(DEVICE_ID, DEVICE_BUFFER_FRAME_SIZE_RANGE, scope, running);
            let period = property_told(DEVICE_ID, DEVICE_ZERO_TIME_STAMP_PERIOD, scope, running);
            &&& size matches Some(PropertyValue::Number(frames)) && range matches Some(
                PropertyValue::Range { minimum, maximum },
            ) && 0 < minimum <= frames <= maximum && frames == 512
            &&& period == size
        }),
{
}

/// The device is told to run exactly while audio is taken from it, and it is always
/// there to be chosen: alive, in sight, free, and fit to be the default input, though
/// not for the sounds of the system.
pub proof fn law_the_device_can_be_chosen(scope: u32, running: bool)
    ensures
        property_told(DEVICE_ID, DEVICE_IS_RUNNING, scope, running) == Some(
            PropertyValue::Number(1),
        ) <==> running,
        property_told(DEVICE_ID, DEVICE_IS_RUNNING, scope, running) == Some(
            PropertyValue::Number(0),
        ) <==> !running,
        property_told(DEVICE_ID, DEVICE_IS_RUNNING_SOMEWHERE, scope, running) == property_told(
            DEVICE_ID,
            DEVICE_IS_RUNNING,
            scope,
            running,
        ),
        property_told(DEVICE_ID, DEVICE_IS_ALIVE, scope, running) == Some(
            PropertyValue::Number(1),
        ),
        property_told(STREAM_ID, STREAM_IS_ACTIVE, scope, running) == property_told(
            DEVICE_ID,
            DEVICE_IS_ALIVE,
            scope,
            running,
        ),
        property_told(DEVICE_ID, DEVICE_CAN_BE_DEFAULT_DEVICE, scope, running) == property_told(
            DEVICE_ID,
            DEVICE_IS_ALIVE,
            scope,
            running,
        ),
        property_told(DEVICE_ID, DEVICE_IS_HIDDEN, scope, running) == Some(
            PropertyValue::Number(0),
        ),
        property_told(DEVICE_ID, DEVICE_CAN_BE_DEFAULT_SYSTEM_DEVICE, scope, running)
            == property_told(DEVICE_ID, DEVICE_IS_HIDDEN, scope, running),
        property_told(DEVICE_ID, DEVICE_HOG_MODE, scope, running) == Some(
            PropertyValue::Signed(-1 as i32),
        ),
        property_told(DEVICE_ID, DEVICE_SUPPORTS_MIXING, scope, running) == Some(
            PropertyValue::Number(1),
        ),
        property_told(DEVICE_ID, DEVICE_TRANSPORT_TYPE, scope, running) == Some(
            PropertyValue::Number(0x7669_7274),
        ),
        property_told(STREAM_ID, STREAM_STARTING_CHANNEL, scope, running) == Some(
            PropertyValue::Number(1),
        ),
        property_told(DEVICE_ID, DEVICE_LATENCY, scope, running) == property_told(
            STREAM_ID,
            STREAM_LATENCY,
            scope,
            running,
        ),
        property_told(DEVICE_ID, DEVICE_LATENCY, scope, running) == property_told(
            DEVICE_ID,
            DEVICE_SAFETY_OFFSET,
            scope,
            running,
        ),
        property_told(DEVICE_ID, DEVICE_LATENCY, scope, running) == Some(PropertyValue::Number(0)),
{
}

/// The objects make up one driver: the plug-in lists the one device, whichever way it is
/// asked, and the device the one stream; each object says whose it is, and what it is.
pub proof fn law_the_objects_make_up_one_driver(scope: u32, running: bool)
    ensures
        ({
            let device = Some(PropertyValue::Object(DEVICE_ID));
            &&& property_told(PLUG_IN_OBJECT, PLUG_IN_DEVICE_LIST, scope, running) == device
            &&& property_told(PLUG_IN_OBJECT, OBJECT_OWNED_OBJECTS, scope, running) == device
            &&& property_told(DEVICE_ID, DEVICE_RELATED_DEVICES, scope, running) == device
            &&& property_told(PLUG_IN_OBJECT, PLUG_IN_TRANSLATE_UID_TO_DEVICE, scope, running)
                == Some(PropertyValue::Number(DEVICE_ID))
            &&& property_told(DEVICE_ID, OBJECT_OWNED_OBJECTS, scope, running) == property_told(
                DEVICE_ID,
                DEVICE_STREAMS,
                SCOPE_GLOBAL,
                running,
            )
            &&& property_told(STREAM_ID, OBJECT_OWNER, scope, running) == Some(
                PropertyValue::Number(DEVICE_ID),
            )
            &&& property_told(DEVICE_ID, OBJECT_OWNER, scope, running) == Some(
                PropertyValue::Number(PLUG_IN_OBJECT),
            )
            &&& property_told(PLUG_IN_OBJECT, OBJECT_OWNER, scope, running) == Some(
                PropertyValue::Number(0),
            )
            &&& property_told(PLUG_IN_OBJECT, OBJECT_CLASS, scope, running) == Some(
                PropertyValue::Number(0x6170_6c67),
            )
            &&& property_told(DEVICE_ID, OBJECT_CLASS, scope, running) == Some(
                PropertyValue::Number(0x6164_6576),
            )
            &&& property_told(STREAM_ID, OBJECT_CLASS, scope, running) == Some(
                PropertyValue::Number(0x6173_7472),
            )
            &&& property_told(PLUG_IN_OBJECT, PLUG_IN_BOX_LIST, scope, running) == Some(
                PropertyValue::Nothing,
            )
            &&& property_told(PLUG_IN_OBJECT, PLUG_IN_CLOCK_DEVICE_LIST, scope, running) == Some(
                PropertyValue::Nothing,
            )
            &&& property_told(DEVICE_ID, OBJECT_CONTROL_LIST, scope, running) == Some(
                PropertyValue::Nothing,
            )
        }),
        forall|object_id: u32|
            1 <= object_id <= 3 ==> #[trigger] property_told(
                object_id,
                OBJECT_BASE_CLASS,
                scope,
                running,
            ) == Some(PropertyValue::Number(0x616f_626a)),
        forall|object_id: u32|
            1 <= object_id <= 3 ==> #[trigger] property_told(
                object_id,
                OBJECT_CUSTOM_PROPERTY_INFO_LIST,
                scope,
                running,
            ) == Some(PropertyValue::Nothing),
{
}

/// The device goes by its name and maker, and what tells it, its model and the driver
/// apart are three texts.
pub proof fn law_the_device_goes_by_its_name(scope: u32, running: bool)
    ensures
        property_told(DEVICE_ID, OBJECT_NAME, scope, running) == Some(PropertyValue::Text("m5mic")),
        property_told(DEVICE_ID, OBJECT_MANUFACTURER, scope, running) == Some(
            PropertyValue::Text("M5Stack"),
        ),
        property_told(PLUG_IN_OBJECT, OBJECT_MANUFACTURER, scope, running) == property_told(
            DEVICE_ID,
            OBJECT_MANUFACTURER,
            scope,
            running,
        ),
        property_told(STREAM_ID, OBJECT_NAME, scope, running) == Some(
            PropertyValue::Text("m5mic input"),
        ),
        property_told(PLUG_IN_OBJECT, OBJECT_NAME, scope, running) == property_told(
            PLUG_IN_OBJECT,
            PLUG_IN_BUNDLE_ID,
            scope,
            running,
        ),
        property_told(PLUG_IN_OBJECT, PLUG_IN_BUNDLE_ID, scope, running) == Some(
            PropertyValue::Text("com.nicosuave.m5mic.driver"),
        ),
        property_told(DEVICE_ID, DEVICE_UID_PROPERTY, scope, running) == Some(
            PropertyValue::Text("com.nicosuave.m5mic.device"),
        ),
        property_told(DEVICE_ID, DEVICE_MODEL_UID, scope, running) == Some(
            PropertyValue::Text("com.nicosuave.m5mic.model"),
        ),
{
}

/// A request is answered in one way by its room alone: without the property it is
/// refused as unknown, with too little room as too small, and with enough room, however
/// much, the property is told.
pub proof fn law_room_only_decides_whether_it_is_enough(
    object_id: u32,
    selector: u32,
    scope: u32,
    room: u32,
    running: bool,
)
    ensures
        match property_reply(object_id, selector, scope, room, running) {
            Ok(value) => {
                &&& property_told(object_id, selector, scope, running) == Some(value)
                &&& value_size(value) <= room
            },
            Err(error) => {
                &&& error == UNKNOWN_PROPERTY_ERROR <==> property_told(
                    object_id,
                    selector,
                    scope,
                    running,
                ) is None
                &&& error == BAD_PROPERTY_SIZE_ERROR <==> (property_told(
                    object_id,
                    selector,
                    scope,
                    running,
                ) matches Some(value) && room < value_size(value))
            },
        },
        property_told(object_id, selector, scope, running) is Some ==> 1 <= object_id <= 3,
{
}

pub fn has_property(object_id: u32, selector: u32) -> (has: bool)
    ensures
        has == property_of(object_id, selector) is Some,
{
    property_kind(object_id, selector).is_some()
}

/// How many bytes the host needs for a property.
pub fn get_property_data_size(object_id: u32, selector: u32, scope: u32) -> (size: Result<
    u32,
    i32,
>)
    ensures
        size == match property_of(object_id, selector) {
            Some(kind) => Ok::<u32, i32>(size_of_property(kind, object_id, scope)),
            None => Err(UNKNOWN_PROPERTY_ERROR),
        },
{
    match property_kind(object_id, selector) {
        Some(kind) => Ok(property_size(kind, object_id, scope)),
        None => Err(UNKNOWN_PROPERTY_ERROR),
    }
}

/// Whether a property can be set: none can.
pub fn is_property_settable(object_id: u32, selector: u32) -> (settable: Result<bool, i32>)
    ensures
        settable == match property_of(object_id, selector) {
            Some(_) => Ok::<bool, i32>(false),
            None => Err(UNKNOWN_PROPERTY_ERROR),
        },
{
    match property_kind(object_id, selector) {
        Some(_) => Ok(false),
        None => Err(UNKNOWN_PROPERTY_ERROR),
    }
}

/// The reply to a request to set a property: it is always refused.
pub fn set_property_data(object_id: u32, selector: u32) -> (status: i32)
    ensures
        status == match property_of(object_id, selector) {
            Some(_) => ILLEGAL_OPERATION_ERROR,
            None => UNKNOWN_PROPERTY_ERROR,
        },
{
    match property_kind(object_id, selector) {
        Some(_) => ILLEGAL_OPERATION_ERROR,
        None => UNKNOWN_PROPERTY_ERROR,
    }
}

/// Whether the driver does an operation: it only reads input.
pub fn will_do_operation(operation_id: u32) -> (will_do: bool)
    ensures
        will_do == (operation_id == OPERATION_READ_INPUT),
{
    operation_id == OPERATION_READ_INPUT
}

/// Whether an operation fills a buffer with the samples of the stream.
pub fn fills_buffer(operation_id: u32, stream_object_id: u32) -> (fills: bool)
    ensures
        fills == (operation_id == OPERATION_READ_INPUT && stream_object_id == STREAM_ID),
{
    operation_id == OPERATION_READ_INPUT && stream_object_id == STREAM_ID
}

/// Whether the driver has the interface with this number.
pub fn has_interface(uuid: &[u8]) -> (has: bool)
    ensures
        has == (uuid@ == IUNKNOWN_UUID@ || uuid@ == AUDIO_SERVER_PLUGIN_DRIVER_INTERFACE_UUID@),
{
    bytes_equal(uuid, &IUNKNOWN_UUID) || bytes_equal(
        uuid,
        &AUDIO_SERVER_PLUGIN_DRIVER_INTERFACE_UUID,
    )
}

/// The state of the device while audio is taken from it.
#[derive(Debug, Clone, Copy, PartialEq, Eq, Structural)]
pub struct IoState {
    pub running: bool,
    pub sample_time: u64,
    pub zero_time_seed: u64,
}

pub open spec fn wrapping_successor(n: u64) -> u64 {
    if n == u64::MAX {
        0
    } else {
        (n + 1) as u64
    }
}

impl IoState {
    pub fn new() -> (state: IoState)
        ensures
            state == (IoState { running: false, sample_time: 0, zero_time_seed: 1 }),
    {
        IoState { running: false, sample_time: 0, zero_time_seed: 1 }
    }

    fn set_running(&mut self, running: bool)
        ensures
            *final(self) == (IoState {
                running,
                zero_time_seed: wrapping_successor(old(self).zero_time_seed),
                ..*old(self)
            }),
    {
        self.running = running;
        self.zero_time_seed = if self.zero_time_seed == u64::MAX {
            0
        } else {
            self.zero_time_seed + 1
        };
    }

    /// Audio is taken from now on; the clock is seeded anew.
    pub fn start_io(&mut self)
        ensures
            *final(self) == (IoState {
                running: true,
                zero_time_seed: wrapping_successor(old(self).zero_time_seed),
                ..*old(self)
            }),
    {
        self.set_running(true);
    }

    pub fn stop_io(&mut self)
        ensures
            *final(self) == (IoState {
                running: false,
                zero_time_seed: wrapping_successor(old(self).zero_time_seed),
                ..*old(self)
            }),
    {
        self.set_running(false);
    }

    /// A buffer of `frames` has been filled.
    pub fn advance(&mut self, frames: u32)
        ensures
            *final(self) == (IoState {
                sample_time: ((old(self).sample_time + frames) % 0x1_0000_0000_0000_0000) as u64,
                ..*old(self)
            }),
    {
        let room: u64 = u64::MAX - self.sample_time;
        if frames as u64 <= room {
            self.sample_time = self.sample_time + frames as u64;
        } else {
            self.sample_time = frames as u64 - room - 1;
        }
    }
}

/// The device keeps a clock of its own, whose period is one buffer, and belongs to no
/// process.
pub proof fn law_the_device_keeps_its_own_time(scope: u32, running: bool)
    ensures
        property_told(DEVICE_ID, DEVICE_CLOCK_DOMAIN, scope, running) == Some(
            PropertyValue::Number(0),
        ),
        property_told(DEVICE_ID, DEVICE_ZERO_TIME_STAMP_PERIOD, scope, running) == property_told(
            DEVICE_ID,
            DEVICE_BUFFER_FRAME_SIZE,
            scope,
            running,
        ),
        property_told(DEVICE_ID, DEVICE_HOG_MODE, scope, running) == Some(
            PropertyValue::Signed(-1 as i32),
        ),
{
}

} // verus!
