use m5mic::coreaudio::{
    class_id, fills_buffer, get_property_data, get_property_data_size, has_interface,
    has_property, is_property_settable, object_name, owner_id, property_kind, property_size,
    property_value, set_property_data, stream_format, will_do_operation, IoState, PropertyKind,
    PropertyValue, AUDIO_SERVER_PLUGIN_DRIVER_INTERFACE_UUID, AUDIO_SERVER_PLUGIN_TYPE_UUID,
    BAD_PROPERTY_SIZE_ERROR, DEVICE_HOG_MODE, DEVICE_ID, DEVICE_IS_RUNNING,
    DEVICE_NOMINAL_SAMPLE_RATE, DEVICE_STREAMS, DEVICE_STREAM_CONFIGURATION, DEVICE_UID_PROPERTY,
    ILLEGAL_OPERATION_ERROR, IUNKNOWN_UUID, OBJECT_CLASS, OBJECT_CLASS_ID,
    OBJECT_CUSTOM_PROPERTY_INFO_LIST, OBJECT_NAME, OBJECT_OWNED_OBJECTS, OPERATION_READ_INPUT,
    PLUG_IN_BOX_LIST, PLUG_IN_DEVICE_LIST, PLUG_IN_OBJECT, SCOPE_GLOBAL, SCOPE_INPUT,
    SCOPE_OUTPUT, STREAM_ID, STREAM_VIRTUAL_FORMAT, UNKNOWN_PROPERTY_ERROR,
};

#[test]
fn four_letter_codes_spell_words() {
    assert_eq!(OBJECT_CLASS.to_be_bytes(), *b"clas");
    assert_eq!(DEVICE_STREAMS.to_be_bytes(), *b"stm#");
    assert_eq!(SCOPE_INPUT.to_be_bytes(), *b"inpt");
    assert_eq!(UNKNOWN_PROPERTY_ERROR.to_be_bytes(), *b"who?");
    assert_eq!(BAD_PROPERTY_SIZE_ERROR.to_be_bytes(), *b"!siz");
    assert_eq!(ILLEGAL_OPERATION_ERROR.to_be_bytes(), *b"nope");
    assert_eq!(OPERATION_READ_INPUT.to_be_bytes(), *b"read");
}

#[test]
fn objects_have_their_own_properties() {
    assert_eq!(
        property_kind(PLUG_IN_OBJECT, PLUG_IN_DEVICE_LIST),
        Some(PropertyKind::DeviceList)
    );
    assert_eq!(property_kind(DEVICE_ID, PLUG_IN_DEVICE_LIST), None);
    assert_eq!(
        property_kind(DEVICE_ID, DEVICE_STREAMS),
        Some(PropertyKind::Streams)
    );
    assert_eq!(property_kind(STREAM_ID, DEVICE_STREAMS), None);
    assert_eq!(property_kind(STREAM_ID, OBJECT_OWNED_OBJECTS), None);
    assert_eq!(property_kind(4, OBJECT_CLASS), None);
    assert!(has_property(STREAM_ID, STREAM_VIRTUAL_FORMAT));
    assert!(!has_property(0, OBJECT_NAME));
}

#[test]
fn nothing_can_be_set() {
    assert_eq!(is_property_settable(DEVICE_ID, OBJECT_NAME), Ok(false));
    assert_eq!(
        is_property_settable(DEVICE_ID, 1),
        Err(UNKNOWN_PROPERTY_ERROR)
    );
    assert_eq!(set_property_data(DEVICE_ID, OBJECT_NAME), ILLEGAL_OPERATION_ERROR);
    assert_eq!(set_property_data(DEVICE_ID, 1), UNKNOWN_PROPERTY_ERROR);
}

#[test]
fn sizes_are_those_of_the_values() {
    assert_eq!(get_property_data_size(DEVICE_ID, OBJECT_NAME, SCOPE_GLOBAL), Ok(8));
    assert_eq!(
        get_property_data_size(DEVICE_ID, DEVICE_NOMINAL_SAMPLE_RATE, SCOPE_GLOBAL),
        Ok(8)
    );
    assert_eq!(
        get_property_data_size(DEVICE_ID, DEVICE_STREAMS, SCOPE_OUTPUT),
        Ok(0)
    );
    assert_eq!(
        get_property_data_size(DEVICE_ID, DEVICE_STREAMS, SCOPE_INPUT),
        Ok(4)
    );
    assert_eq!(
        get_property_data_size(DEVICE_ID, DEVICE_STREAM_CONFIGURATION, SCOPE_OUTPUT),
        Ok(24)
    );
    assert_eq!(
        get_property_data_size(STREAM_ID, STREAM_VIRTUAL_FORMAT, SCOPE_GLOBAL),
        Ok(40)
    );
    assert_eq!(
        get_property_data_size(STREAM_ID, 1, SCOPE_GLOBAL),
        Err(UNKNOWN_PROPERTY_ERROR)
    );
    assert_eq!(property_size(PropertyKind::StreamAvailableFormats, STREAM_ID, SCOPE_GLOBAL), 56);
    assert_eq!(property_size(PropertyKind::BufferFrameSizeRange, DEVICE_ID, SCOPE_GLOBAL), 16);
}

#[test]
fn values_describe_the_microphone() {
    let get = |object, selector, scope, size| get_property_data(object, selector, scope, size, true);
    assert_eq!(
        get(DEVICE_ID, OBJECT_NAME, SCOPE_GLOBAL, 8),
        Ok(PropertyValue::Text("m5mic"))
    );
    assert_eq!(
        get(DEVICE_ID, DEVICE_UID_PROPERTY, SCOPE_GLOBAL, 8),
        Ok(PropertyValue::Text("com.nicosuave.m5mic.device"))
    );
    assert_eq!(
        get(DEVICE_ID, OBJECT_NAME, SCOPE_GLOBAL, 7),
        Err(BAD_PROPERTY_SIZE_ERROR)
    );
    assert_eq!(get(DEVICE_ID, 1, SCOPE_GLOBAL, 8), Err(UNKNOWN_PROPERTY_ERROR));
    assert_eq!(
        get(DEVICE_ID, DEVICE_IS_RUNNING, SCOPE_GLOBAL, 4),
        Ok(PropertyValue::Number(1))
    );
    assert_eq!(
        get_property_data(DEVICE_ID, DEVICE_IS_RUNNING, SCOPE_GLOBAL, 4, false),
        Ok(PropertyValue::Number(0))
    );
    assert_eq!(
        get(DEVICE_ID, DEVICE_HOG_MODE, SCOPE_GLOBAL, 4),
        Ok(PropertyValue::Signed(-1))
    );
    assert_eq!(
        get(DEVICE_ID, DEVICE_NOMINAL_SAMPLE_RATE, SCOPE_GLOBAL, 8),
        Ok(PropertyValue::Rate(48_000))
    );
    assert_eq!(
        get(PLUG_IN_OBJECT, OBJECT_OWNED_OBJECTS, SCOPE_GLOBAL, 4),
        Ok(PropertyValue::Object(DEVICE_ID))
    );
    assert_eq!(
        get(DEVICE_ID, OBJECT_OWNED_OBJECTS, SCOPE_GLOBAL, 4),
        Ok(PropertyValue::Object(STREAM_ID))
    );
    assert_eq!(
        get(DEVICE_ID, DEVICE_STREAMS, SCOPE_OUTPUT, 0),
        Ok(PropertyValue::Nothing)
    );
    assert_eq!(
        get(DEVICE_ID, DEVICE_STREAMS, 0x1234, 4),
        Ok(PropertyValue::Object(STREAM_ID))
    );
    assert_eq!(
        get(DEVICE_ID, DEVICE_STREAM_CONFIGURATION, SCOPE_OUTPUT, 24),
        Ok(PropertyValue::StreamConfiguration {
            buffers: 0,
            channels: 1
        })
    );
    assert_eq!(
        get(PLUG_IN_OBJECT, PLUG_IN_BOX_LIST, SCOPE_GLOBAL, 0),
        Ok(PropertyValue::Nothing)
    );
    assert_eq!(
        get(STREAM_ID, OBJECT_CUSTOM_PROPERTY_INFO_LIST, SCOPE_GLOBAL, 0),
        Ok(PropertyValue::Nothing)
    );
    assert_eq!(
        get(STREAM_ID, STREAM_VIRTUAL_FORMAT, SCOPE_GLOBAL, 40),
        Ok(PropertyValue::Format(stream_format()))
    );
}

#[test]
fn the_format_is_float_mono() {
    let format = stream_format();
    assert_eq!(format.sample_rate, 48_000);
    assert_eq!(format.format_id.to_be_bytes(), *b"lpcm");
    assert_eq!(format.format_flags, 9);
    assert_eq!(format.bytes_per_packet, 4);
    assert_eq!(format.bytes_per_frame, 4);
    assert_eq!(format.channels_per_frame, 1);
    assert_eq!(format.bits_per_channel, 32);
    assert_eq!(PropertyValue::Format(format).size(), 40);
    assert_eq!(
        property_value(PropertyKind::StreamTerminalType, STREAM_ID, SCOPE_GLOBAL, false),
        PropertyValue::Number(0x6d69_6372)
    );
}

#[test]
fn objects_belong_to_one_another() {
    assert_eq!(owner_id(PLUG_IN_OBJECT), 0);
    assert_eq!(owner_id(DEVICE_ID), PLUG_IN_OBJECT);
    assert_eq!(owner_id(STREAM_ID), DEVICE_ID);
    assert_eq!(owner_id(9), 0);
    assert_eq!(class_id(DEVICE_ID).to_be_bytes(), *b"adev");
    assert_eq!(class_id(9), OBJECT_CLASS_ID);
    assert_eq!(object_name(PLUG_IN_OBJECT), "com.nicosuave.m5mic.driver");
    assert_eq!(object_name(STREAM_ID), "m5mic input");
    assert_eq!(object_name(9), "m5mic");
}

#[test]
fn audio_is_only_read() {
    assert!(will_do_operation(OPERATION_READ_INPUT));
    assert!(!will_do_operation(OPERATION_READ_INPUT + 1));
    assert!(fills_buffer(OPERATION_READ_INPUT, STREAM_ID));
    assert!(!fills_buffer(OPERATION_READ_INPUT, DEVICE_ID));
    assert!(has_interface(&IUNKNOWN_UUID));
    assert!(has_interface(&AUDIO_SERVER_PLUGIN_DRIVER_INTERFACE_UUID));
    assert!(!has_interface(&AUDIO_SERVER_PLUGIN_TYPE_UUID));
    let mut io = IoState::new();
    io.start_io();
    io.advance(512);
    assert_eq!((io.running, io.sample_time, io.zero_time_seed), (true, 512, 2));
    io.stop_io();
    assert_eq!((io.running, io.sample_time, io.zero_time_seed), (false, 512, 3));
    io.sample_time = u64::MAX - 1;
    io.advance(3);
    assert_eq!(io.sample_time, 1);
}
