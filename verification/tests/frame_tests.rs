use wasm_h3::error::{H3Error, ParseError};
use wasm_h3::protocol::frame::{
    FrameDeserialize, FrameParser, FrameSerialize, FrameType, H3Frame, HeaderList, ParserState,
    Priority, SettingId, SettingsMap,
};
use wasm_h3::protocol::varint::{read_varint, varint_size, write_varint};

#[test]
fn test_frame_type_conversion() {
    assert_eq!(FrameType::try_from(0x00).unwrap(), FrameType::Data);
    assert_eq!(FrameType::try_from(0x01).unwrap(), FrameType::Headers);
    assert_eq!(FrameType::try_from(0x03).unwrap(), FrameType::CancelPush);
    assert_eq!(FrameType::try_from(0x04).unwrap(), FrameType::Settings);
    assert_eq!(FrameType::try_from(0x05).unwrap(), FrameType::PushPromise);
    assert_eq!(FrameType::try_from(0x07).unwrap(), FrameType::Goaway);
    assert_eq!(FrameType::try_from(0x0D).unwrap(), FrameType::MaxPushId);
    assert!(FrameType::try_from(0xFF).is_err());
}

#[test]
fn test_frame_type_to_u64() {
    assert_eq!(u64::from(FrameType::Data), 0x00);
    assert_eq!(u64::from(FrameType::Headers), 0x01);
    assert_eq!(u64::from(FrameType::CancelPush), 0x03);
    assert_eq!(u64::from(FrameType::Settings), 0x04);
}

#[test]
fn test_setting_id_conversion() {
    assert_eq!(SettingId::try_from(0x01).unwrap(), SettingId::QpackMaxTableCapacity);
    assert_eq!(SettingId::try_from(0x06).unwrap(), SettingId::MaxFieldSectionSize);
    assert_eq!(SettingId::try_from(0x07).unwrap(), SettingId::QpackBlockedStreams);
    assert!(SettingId::try_from(0xFF).is_err());
}

#[test]
fn test_varint_encoding() {
    let mut buf: Vec<u8> = Vec::new();

    write_varint(&mut buf, 0);
    assert_eq!(buf.as_slice(), &[0x00]);

    buf.clear();
    write_varint(&mut buf, 63);
    assert_eq!(buf.as_slice(), &[0x3F]);

    buf.clear();
    write_varint(&mut buf, 64);
    assert_eq!(buf.as_slice(), &[0x40, 0x40]);
}

#[test]
fn test_varint_size_calculation() {
    assert_eq!(varint_size(0), 1);
    assert_eq!(varint_size(63), 1);
    assert_eq!(varint_size(64), 2);
    assert_eq!(varint_size(16383), 2);
    assert_eq!(varint_size(16384), 4);
    assert_eq!(varint_size(1073741823), 4);
    assert_eq!(varint_size(1073741824), 8);
}

#[test]
fn test_data_frame_creation() {
    let data = b"Hello, World!".to_vec();
    let frame = H3Frame::Data { stream_id: 4, data: data.clone(), end_stream: true };

    assert_eq!(frame.frame_type(), FrameType::Data);
    assert_eq!(frame.stream_id(), Some(4));
    assert!(frame.is_end_stream());
    assert!(frame.is_stream_frame());
    assert!(!frame.is_connection_frame());
    assert_eq!(frame.payload_size(), data.len());
}

#[test]
fn test_headers_frame_creation() {
    let mut headers = HeaderList::new();
    headers.insert(b"content-type", b"application/json");

    let frame = H3Frame::Headers {
        stream_id: 4,
        headers: headers.clone(),
        end_stream: false,
        priority: Some(Priority::default()),
    };

    assert_eq!(frame.frame_type(), FrameType::Headers);
    assert_eq!(frame.stream_id(), Some(4));
    assert!(!frame.is_end_stream());
    assert!(frame.is_stream_frame());
}

#[test]
fn test_settings_frame_creation() {
    let mut settings = SettingsMap::new();
    settings.insert(SettingId::QpackMaxTableCapacity, 4096);
    settings.insert(SettingId::MaxFieldSectionSize, 8192);

    let frame = H3Frame::Settings { settings };

    assert_eq!(frame.frame_type(), FrameType::Settings);
    assert_eq!(frame.stream_id(), None);
    assert!(!frame.is_end_stream());
    assert!(frame.is_connection_frame());
    assert!(!frame.is_stream_frame());
}

#[test]
fn test_cancel_push_frame() {
    let frame = H3Frame::CancelPush { push_id: 123 };

    assert_eq!(frame.frame_type(), FrameType::CancelPush);
    assert_eq!(frame.stream_id(), None);
    assert!(frame.is_connection_frame());
}

#[test]
fn test_goaway_frame() {
    let frame = H3Frame::Goaway { stream_id: 100 };

    assert_eq!(frame.frame_type(), FrameType::Goaway);
    assert_eq!(frame.stream_id(), Some(100));
    assert!(frame.is_connection_frame());
}

#[test]
fn test_max_push_id_frame() {
    let frame = H3Frame::MaxPushId { push_id: 255 };

    assert_eq!(frame.frame_type(), FrameType::MaxPushId);
    assert_eq!(frame.stream_id(), None);
    assert!(frame.is_connection_frame());
}

#[test]
fn test_frame_serialization() {
    let frame = H3Frame::MaxPushId { push_id: 123 };
    let serialized = frame.serialize().unwrap();
    assert!(!serialized.is_empty());

    let size = frame.serialized_size();
    assert!(size > 0);
}

#[test]
fn test_frame_round_trip_serialization() {
    let original_frame = H3Frame::MaxPushId { push_id: 42 };
    let serialized = original_frame.serialize().unwrap();

    let mut parser = FrameParser::new();
    let parsed_frame = parser.parse_frame(&serialized).unwrap();
    assert!(parsed_frame.is_some());

    let mut settings = SettingsMap::new();
    settings.insert(SettingId::QpackMaxTableCapacity, 4096);
    let settings_frame = H3Frame::Settings { settings };
    let serialized = settings_frame.serialize().unwrap();
    assert!(!serialized.is_empty());
}

#[test]
fn test_settings_frame_encoding_decoding() {
    let mut settings = SettingsMap::new();
    settings.insert(SettingId::QpackMaxTableCapacity, 4096);
    settings.insert(SettingId::MaxFieldSectionSize, 8192);

    let frame = H3Frame::Settings { settings };
    let parser = FrameParser::new();

    let encoded = parser.encode_frame(&frame).unwrap();
    assert!(!encoded.is_empty());
    assert!(encoded.len() >= 2);
}

#[test]
fn test_priority_default() {
    let priority = Priority::default();
    assert_eq!(priority.weight, 16);
    assert_eq!(priority.depends_on, None);
    assert!(!priority.exclusive);
}

#[test]
fn test_parser_creation_and_config() {
    let parser = FrameParser::new();
    assert_eq!(parser.buffer_size(), 0);
    assert!(parser.is_buffer_empty());

    let parser = FrameParser::with_max_frame_size(32768);
    assert_eq!(parser.max_frame_size(), 32768);

    let parser = FrameParser::with_config(8192, 16384);
    assert_eq!(parser.max_frame_size(), 8192);
    assert_eq!(parser.max_buffer_size(), 16384);
}

#[test]
fn test_parser_statistics() {
    let mut parser = FrameParser::new();
    let stats = parser.stats();
    assert_eq!(stats.frames_parsed, 0);
    assert_eq!(stats.bytes_processed, 0);
    assert_eq!(stats.parse_errors, 0);

    parser.reset_stats();
    assert_eq!(parser.stats().frames_parsed, 0);
}

#[test]
fn test_incremental_frame_parsing() {
    let mut parser = FrameParser::new();

    let frame = H3Frame::MaxPushId { push_id: 123 };
    let encoded = parser.encode_frame(&frame).unwrap();

    let mid_point = encoded.len() / 2;
    let result1 = parser.parse_frame(&encoded[..mid_point]).unwrap();
    assert!(result1.is_none());

    let result2 = parser.parse_frame(&encoded[mid_point..]).unwrap();
    assert!(result2.is_some());

    match result2.unwrap() {
        H3Frame::MaxPushId { push_id } => assert_eq!(push_id, 123),
        _ => panic!("Expected MaxPushId frame"),
    }
}

#[test]
fn test_multiple_frames_parsing() {
    let mut parser = FrameParser::new();

    let frame1 = H3Frame::MaxPushId { push_id: 100 };
    let frame2 = H3Frame::CancelPush { push_id: 200 };
    let frame3 = H3Frame::Goaway { stream_id: 300 };

    let mut combined_data: Vec<u8> = Vec::new();
    combined_data.extend_from_slice(&parser.encode_frame(&frame1).unwrap());
    combined_data.extend_from_slice(&parser.encode_frame(&frame2).unwrap());
    combined_data.extend_from_slice(&parser.encode_frame(&frame3).unwrap());

    let frames = parser.parse_frames(&combined_data).unwrap();
    assert_eq!(frames.len(), 3);

    match &frames[0] {
        H3Frame::MaxPushId { push_id } => assert_eq!(*push_id, 100),
        _ => panic!("Expected MaxPushId frame"),
    }
    match &frames[1] {
        H3Frame::CancelPush { push_id } => assert_eq!(*push_id, 200),
        _ => panic!("Expected CancelPush frame"),
    }
    match &frames[2] {
        H3Frame::Goaway { stream_id } => assert_eq!(*stream_id, 300),
        _ => panic!("Expected Goaway frame"),
    }
}

#[test]
fn test_buffer_overflow_protection() {
    let mut parser = FrameParser::with_config(1024, 512);

    let large_data = vec![0u8; 1000];
    let result = parser.parse_frame(&large_data);
    assert!(result.is_err());

    assert_eq!(parser.stats().buffer_overflows, 1);
}

#[test]
fn test_frame_size_limit_enforcement() {
    let mut parser = FrameParser::with_max_frame_size(100);

    let mut buf: Vec<u8> = Vec::new();
    write_varint(&mut buf, u64::from(FrameType::Data));
    write_varint(&mut buf, 1000);

    let result = parser.parse_frame(&buf);
    assert!(result.is_err());

    match result.unwrap_err() {
        H3Error::Parse(ParseError::FrameTooLarge { size, max }) => {
            assert_eq!(size, 1000);
            assert_eq!(max, 100);
        }
        _ => panic!("Expected FrameTooLarge error"),
    }
}

#[test]
fn test_has_complete_frame() {
    let mut parser = FrameParser::new();

    assert!(!parser.has_complete_frame());

    let frame = H3Frame::MaxPushId { push_id: 42 };
    let encoded = parser.encode_frame(&frame).unwrap();

    // All but the last byte: the parser buffers it and still lacks a frame.
    assert!(parser.parse_frame(&encoded[..encoded.len() - 1]).unwrap().is_none());
    assert!(!parser.has_complete_frame());

    // The last byte and a second copy: one frame comes out, the other stays buffered whole.
    let mut rest = encoded[encoded.len() - 1..].to_vec();
    rest.extend_from_slice(&encoded);
    assert!(parser.parse_frame(&rest).unwrap().is_some());
    assert!(parser.has_complete_frame());
}

#[test]
fn test_parser_clear() {
    let mut parser = FrameParser::new();

    // A DATA header announcing 100 bytes, and part of the payload.
    let mut buf: Vec<u8> = Vec::new();
    write_varint(&mut buf, u64::from(FrameType::Data));
    write_varint(&mut buf, 100);
    buf.extend_from_slice(b"test data");
    assert!(parser.parse_frame(&buf).unwrap().is_none());
    assert_eq!(parser.state(), ParserState::ReadingPayload { frame_type: FrameType::Data, length: 100 });

    assert!(!parser.is_buffer_empty());

    parser.clear();

    assert!(parser.is_buffer_empty());
    assert!(matches!(parser.state(), ParserState::WaitingHeader));
}

#[test]
fn test_all_frame_types_encoding_decoding() {
    let mut parser = FrameParser::new();

    let data_frame = H3Frame::Data { stream_id: 4, data: b"test data".to_vec(), end_stream: true };
    let encoded = parser.encode_frame(&data_frame).unwrap();
    let parsed = parser.parse_frame(&encoded).unwrap().unwrap();
    assert_eq!(parsed.frame_type(), FrameType::Data);

    let mut headers = HeaderList::new();
    headers.insert(b"content-type", b"application/json");
    let headers_frame = H3Frame::Headers {
        stream_id: 8,
        headers,
        end_stream: false,
        priority: Some(Priority::default()),
    };
    let encoded = parser.encode_frame(&headers_frame).unwrap();
    let parsed = parser.parse_frame(&encoded).unwrap().unwrap();
    assert_eq!(parsed.frame_type(), FrameType::Headers);

    let mut settings = SettingsMap::new();
    settings.insert(SettingId::QpackMaxTableCapacity, 4096);
    settings.insert(SettingId::MaxFieldSectionSize, 8192);
    let settings_frame = H3Frame::Settings { settings };
    let encoded = parser.encode_frame(&settings_frame).unwrap();
    let parsed = parser.parse_frame(&encoded).unwrap().unwrap();
    assert_eq!(parsed.frame_type(), FrameType::Settings);
    assert!(parsed.is_connection_frame());

    let mut headers = HeaderList::new();
    headers.insert(b"method", b"GET");
    let push_promise_frame = H3Frame::PushPromise { stream_id: 12, promised_stream_id: 16, headers };
    let encoded = parser.encode_frame(&push_promise_frame).unwrap();
    let parsed = parser.parse_frame(&encoded).unwrap().unwrap();
    assert_eq!(parsed.frame_type(), FrameType::PushPromise);

    let cancel_push_frame = H3Frame::CancelPush { push_id: 123 };
    let encoded = parser.encode_frame(&cancel_push_frame).unwrap();
    let parsed = parser.parse_frame(&encoded).unwrap().unwrap();
    assert_eq!(parsed.frame_type(), FrameType::CancelPush);

    let goaway_frame = H3Frame::Goaway { stream_id: 456 };
    let encoded = parser.encode_frame(&goaway_frame).unwrap();
    let parsed = parser.parse_frame(&encoded).unwrap().unwrap();
    assert_eq!(parsed.frame_type(), FrameType::Goaway);

    let max_push_id_frame = H3Frame::MaxPushId { push_id: 789 };
    let encoded = parser.encode_frame(&max_push_id_frame).unwrap();
    let parsed = parser.parse_frame(&encoded).unwrap().unwrap();
    assert_eq!(parsed.frame_type(), FrameType::MaxPushId);
}

#[test]
fn test_varint_round_trip() {
    let test_values = vec![0u64, 1, 63, 64, 16383, 16384, 1073741823, 1073741824];

    for value in test_values {
        let mut buf: Vec<u8> = Vec::new();
        write_varint(&mut buf, value);

        let (decoded, _) = read_varint(&buf, 0).unwrap();

        assert_eq!(decoded, value, "Failed round-trip for value {}", value);
    }
}

#[test]
fn test_parser_error_recovery() {
    let mut parser = FrameParser::new();

    let mut buf: Vec<u8> = Vec::new();
    write_varint(&mut buf, 0xFF);
    write_varint(&mut buf, 10);
    buf.extend_from_slice(&[0u8; 10]);

    let result = parser.parse_frame(&buf);
    assert!(result.is_err());
    assert_eq!(parser.stats().parse_errors, 1);

    let valid_frame = H3Frame::MaxPushId { push_id: 42 };
    let encoded = parser.encode_frame(&valid_frame).unwrap();

    parser.clear();
    let result = parser.parse_frame(&encoded).unwrap();
    assert!(result.is_some());
}

#[test]
fn test_partial_varint_parsing() {
    let mut parser = FrameParser::new();

    let mut buf: Vec<u8> = Vec::new();
    write_varint(&mut buf, u64::from(FrameType::MaxPushId));
    write_varint(&mut buf, 1);
    write_varint(&mut buf, 42);

    let result = parser.parse_frame(&buf[..1]);
    assert!(result.unwrap().is_none());

    let result = parser.parse_frame(&buf[1..]).unwrap();
    assert!(result.is_some());

    match result {
        Some(H3Frame::MaxPushId { push_id }) => assert_eq!(push_id, 42),
        _ => panic!("Expected MaxPushId frame"),
    }
}

// Own tests: exact bytes, the round trip law on concrete frames, error variants.

#[test]
fn frame_encoding_exact_bytes() {
    let parser = FrameParser::new();
    let frame = H3Frame::MaxPushId { push_id: 64 };
    assert_eq!(parser.encode_frame(&frame).unwrap(), vec![0x0D, 0x02, 0x40, 0x40]);
    let frame = H3Frame::Data { stream_id: 0, data: b"ab".to_vec(), end_stream: false };
    assert_eq!(parser.encode_frame(&frame).unwrap(), vec![0x00, 0x02, b'a', b'b']);
}

#[test]
fn settings_round_trip_keeps_values() {
    let mut settings = SettingsMap::new();
    settings.insert(SettingId::QpackMaxTableCapacity, 4096);
    settings.insert(SettingId::MaxFieldSectionSize, 8192);
    let frame = H3Frame::Settings { settings };
    let mut parser = FrameParser::new();
    let encoded = frame.serialize().unwrap();
    match parser.parse_frame(&encoded).unwrap() {
        Some(H3Frame::Settings { settings }) => {
            assert_eq!(settings.get(SettingId::QpackMaxTableCapacity), Some(4096));
            assert_eq!(settings.get(SettingId::MaxFieldSectionSize), Some(8192));
            assert_eq!(settings.len(), 2);
        }
        _ => panic!("Expected Settings frame"),
    }
    assert!(parser.is_buffer_empty());
    assert_eq!(parser.state(), ParserState::WaitingHeader);
}

#[test]
fn headers_frame_parses_with_empty_header_block() {
    let mut headers = HeaderList::new();
    headers.insert(b"content-type", b"text/plain");
    headers.append(b"x-a", b"1");
    let frame = H3Frame::Headers { stream_id: 4, headers, end_stream: true, priority: None };
    let mut parser = FrameParser::new();
    let encoded = parser.encode_frame(&frame).unwrap();
    match parser.parse_frame(&encoded).unwrap() {
        Some(H3Frame::Headers { stream_id, headers, end_stream, priority }) => {
            assert_eq!(stream_id, 0);
            assert_eq!(headers.len(), 0);
            assert!(!end_stream);
            assert!(priority.is_none());
        }
        _ => panic!("Expected Headers frame"),
    }
}

#[test]
fn unknown_frame_type_is_reported() {
    let mut parser = FrameParser::new();
    let mut buf: Vec<u8> = Vec::new();
    write_varint(&mut buf, 0x21);
    write_varint(&mut buf, 0);
    match parser.parse_frame(&buf) {
        Err(H3Error::Parse(ParseError::InvalidFormat(msg))) => {
            assert_eq!(msg, "Unknown frame type: 33");
        }
        _ => panic!("Expected InvalidFormat error"),
    }
    assert_eq!(parser.stats().parse_errors, 1);
}

#[test]
fn deserialize_cut_payload_is_incomplete() {
    // A CANCEL_PUSH payload announcing a two-byte varint but holding one byte.
    let r = H3Frame::deserialize(FrameType::CancelPush, &[0x40]);
    assert!(matches!(r, Err(H3Error::Parse(ParseError::Incomplete))));
}

#[test]
fn read_varint_needs_whole_encoding() {
    assert!(read_varint(&[0x40], 0).is_err());
    assert_eq!(read_varint(&[0x00, 0x40, 0x40], 1).unwrap(), (64, 3));
}

#[test]
fn header_list_follows_header_map_rules() {
    let mut h = HeaderList::new();
    assert!(h.is_empty());
    h.insert(b"A", b"1");
    h.insert(b"b", b"2");
    h.append(b"a", b"3");
    assert_eq!(h.len(), 3);
    assert_eq!(h.get(b"a").unwrap(), b"1");
    assert_eq!(h.get(b"A").unwrap(), b"1");
    assert_eq!(h.total_bytes(), Some(6));
    h.insert(b"a", b"9");
    assert_eq!(h.len(), 2);
    assert_eq!(h.get(b"a").unwrap(), b"9");
    h.insert(b"bad name", b"x");
    h.append(b"c", b"bad\nvalue");
    assert_eq!(h.len(), 2);
    assert!(h.get(b"bad name").is_none());
    let copy = h.clone();
    assert_eq!(copy.len(), 2);
    assert_eq!(copy.get(b"b").unwrap(), b"2");
}
