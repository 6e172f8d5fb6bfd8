use bytes::BytesMut;
use fcgi_client::error::IoFailure;
use fcgi_client::framer::{
    decode_content, decode_header, encode_chunks, encode_empty_record, encode_record,
    encode_stream,
};
use fcgi_client::meta::{Header, RequestType, HEADER_LEN, MAX_LENGTH, VERSION_1};

fn read_records(bytes: &[u8]) -> Vec<(Header, Vec<u8>)> {
    let mut reader = BytesMut::from(bytes);
    let mut records = Vec::new();
    while !reader.is_empty() {
        let header = decode_header(&mut reader).unwrap();
        let content = decode_content(&header, &mut reader).unwrap();
        records.push((header, content.to_vec()));
    }
    records
}

fn patterned(len: usize) -> Vec<u8> {
    (0..len).map(|i| (i % 251) as u8).collect()
}

#[test]
fn round_trip_header() {
    let mut writer = BytesMut::new();
    assert_eq!(encode_record(RequestType::Stdout, 1, b"hi", &mut writer), Ok(()));
    assert_eq!(
        &writer[..],
        &[0x01, 0x06, 0x00, 0x01, 0x00, 0x02, 0x06, 0x00, b'h', b'i', 0, 0, 0, 0, 0, 0][..]
    );

    let mut reader = writer;
    let header = decode_header(&mut reader).unwrap();
    assert_eq!(header.version, 1);
    assert_eq!(header.record_type, RequestType::Stdout);
    assert_eq!(header.request_id, 1);
    assert_eq!(header.content_length, 2);
    assert_eq!(header.padding_length, 6);
    assert_eq!(header.reserved, 0);
    assert_eq!(reader.len(), 8);

    let content = decode_content(&header, &mut reader).unwrap();
    assert_eq!(&content[..], b"hi");
    assert!(reader.is_empty());
}

#[test]
fn empty_terminator() {
    let mut writer = BytesMut::new();
    encode_stream(RequestType::Params, 1, &[], &mut writer);
    assert_eq!(&writer[..], &[0x01, 0x04, 0x00, 0x01, 0x00, 0x00, 0x00, 0x00][..]);
}

#[test]
fn encode_record_appends_to_what_the_writer_holds() {
    let mut writer = BytesMut::from(&b"xy"[..]);
    assert_eq!(encode_record(RequestType::Stdin, 0x1234, b"12345678", &mut writer), Ok(()));
    assert_eq!(
        &writer[..],
        &[b'x', b'y', 1, 5, 0x12, 0x34, 0, 8, 0, 0, b'1', b'2', b'3', b'4', b'5', b'6', b'7', b'8']
            [..]
    );
}

#[test]
fn encode_record_rejects_content_over_max_length() {
    let content = vec![7u8; MAX_LENGTH + 1];
    let mut writer = BytesMut::from(&b"kept"[..]);
    assert_eq!(
        encode_record(RequestType::Stdin, 1, &content, &mut writer),
        Err(IoFailure::InvalidInput)
    );
    assert_eq!(&writer[..], b"kept");
}

#[test]
fn encode_record_accepts_content_of_max_length() {
    let content = vec![7u8; MAX_LENGTH];
    let mut writer = BytesMut::new();
    assert_eq!(encode_record(RequestType::Stdin, 1, &content, &mut writer), Ok(()));
    assert_eq!(writer.len(), 8 + 65535 + 1);
    assert_eq!(&writer[..8], &[1, 5, 0, 1, 0xff, 0xff, 1, 0][..]);
    assert_eq!(writer[8 + 65535], 0);
}

#[test]
fn every_record_is_aligned_to_eight_bytes() {
    for len in 0usize..=40 {
        let content = patterned(len);
        let mut writer = BytesMut::new();
        assert_eq!(encode_record(RequestType::Stdout, 9, &content, &mut writer), Ok(()));
        let padding = writer[6] as usize;
        assert!(padding <= 7);
        assert_eq!(padding, (8 - len % 8) % 8);
        assert_eq!((HEADER_LEN + len + padding) % 8, 0);
        assert_eq!(writer.len(), HEADER_LEN + len + padding);
        assert_eq!(&writer[8..8 + len], &content[..]);
        assert!(writer[8 + len..].iter().all(|b| *b == 0));
    }
}

#[test]
fn header_write_to_stream_rejects_a_content_of_another_length() {
    let header = Header::new(RequestType::Stdout, 1, b"abc");
    let mut writer = BytesMut::new();
    assert_eq!(header.write_to_stream(&mut writer, b"abcd"), Err(IoFailure::InvalidInput));
    assert!(writer.is_empty());
    assert_eq!(header.write_to_stream(&mut writer, b"abc"), Ok(()));
    assert_eq!(&writer[..], &[1, 6, 0, 1, 0, 3, 5, 0, b'a', b'b', b'c', 0, 0, 0, 0, 0][..]);
}

#[test]
fn stream_of_an_empty_source_is_one_terminator() {
    let mut writer = BytesMut::new();
    encode_stream(RequestType::Stdin, 3, &[], &mut writer);
    let records = read_records(&writer);
    assert_eq!(records.len(), 1);
    assert_eq!(records[0].0.record_type, RequestType::Stdin);
    assert_eq!(records[0].0.content_length, 0);
    assert_eq!(records[0].0.padding_length, 0);
    assert_eq!(writer.len(), 8);
}

#[test]
fn stream_of_exactly_max_length() {
    let body = patterned(65535);
    let mut writer = BytesMut::new();
    encode_stream(RequestType::Stdin, 3, &body, &mut writer);
    let records = read_records(&writer);
    assert_eq!(records.len(), 2);
    assert_eq!(records[0].0.content_length, 65535);
    assert_eq!(records[0].1, body);
    assert_eq!(records[1].0.content_length, 0);
}

#[test]
fn stream_of_max_length_plus_one() {
    let body = patterned(65536);
    let mut writer = BytesMut::new();
    encode_stream(RequestType::Stdin, 3, &body, &mut writer);
    let records = read_records(&writer);
    assert_eq!(records.len(), 3);
    assert_eq!(records[0].0.content_length, 65535);
    assert_eq!(records[0].1, &body[..65535]);
    assert_eq!(records[1].0.content_length, 1);
    assert_eq!(records[1].1, &body[65535..]);
    assert_eq!(records[2].0.content_length, 0);
}

#[test]
fn stream_contents_concatenate_to_the_source() {
    let body = patterned(150_000);
    let mut writer = BytesMut::new();
    encode_stream(RequestType::Stdin, 0xfffe, &body, &mut writer);
    let records = read_records(&writer);
    assert_eq!(records.len(), 4);
    let mut joined = Vec::new();
    for (i, (header, content)) in records.iter().enumerate() {
        assert_eq!(header.version, VERSION_1);
        assert_eq!(header.record_type, RequestType::Stdin);
        assert_eq!(header.request_id, 0xfffe);
        assert_eq!(header.content_length as usize, content.len());
        if i + 1 < records.len() {
            assert!(1 <= content.len() && content.len() <= 65535);
        } else {
            assert_eq!(content.len(), 0);
        }
        joined.extend_from_slice(content);
    }
    assert_eq!(joined, body);
}

#[test]
fn encode_chunks_writes_no_terminator() {
    let mut writer = BytesMut::new();
    encode_chunks(RequestType::Stdin, 1, &[], &mut writer);
    assert!(writer.is_empty());
    encode_chunks(RequestType::Stdin, 1, b"abc", &mut writer);
    let records = read_records(&writer);
    assert_eq!(records.len(), 1);
    assert_eq!(records[0].1, b"abc");
    encode_empty_record(RequestType::Stdin, 1, &mut writer);
    let mut whole = BytesMut::new();
    encode_stream(RequestType::Stdin, 1, b"abc", &mut whole);
    assert_eq!(writer, whole);
}

#[test]
fn decode_header_fails_on_a_truncated_header() {
    let mut reader = BytesMut::from(&[1u8, 6, 0, 1][..]);
    assert_eq!(decode_header(&mut reader), Err(IoFailure::UnexpectedEof));
    assert_eq!(&reader[..], &[1u8, 6, 0, 1][..]);
    let mut empty = BytesMut::new();
    assert_eq!(decode_header(&mut empty), Err(IoFailure::UnexpectedEof));
}

#[test]
fn decode_header_takes_exactly_eight_bytes() {
    let mut reader = BytesMut::from(&[1u8, 7, 0xab, 0xcd, 0x01, 0x02, 3, 4, 99, 98][..]);
    let header = decode_header(&mut reader).unwrap();
    assert_eq!(
        header,
        Header {
            version: 1,
            record_type: RequestType::Stderr,
            request_id: 0xabcd,
            content_length: 0x0102,
            padding_length: 3,
            reserved: 4,
        }
    );
    assert_eq!(&reader[..], &[99u8, 98][..]);
}

#[test]
fn decode_content_fails_on_truncated_content_or_padding() {
    let header = Header::new(RequestType::Stdout, 1, b"hello");
    assert_eq!(header.padding_length, 3);
    let mut short_content = BytesMut::from(&b"hel"[..]);
    assert_eq!(
        decode_content(&header, &mut short_content).map(|b| b.to_vec()),
        Err(IoFailure::UnexpectedEof)
    );
    assert_eq!(&short_content[..], b"hel");
    let mut short_padding = BytesMut::from(&b"hello\0\0"[..]);
    assert_eq!(
        decode_content(&header, &mut short_padding).map(|b| b.to_vec()),
        Err(IoFailure::UnexpectedEof)
    );
}

#[test]
fn decode_content_does_not_validate_padding() {
    let header = Header::new(RequestType::Stdout, 1, b"hello");
    let mut reader = BytesMut::from(&b"hello\x01\x02\x03next"[..]);
    let content = decode_content(&header, &mut reader).unwrap();
    assert_eq!(&content[..], b"hello");
    assert_eq!(&reader[..], b"next");
}

#[test]
fn header_decoded_and_encoded_again_is_unchanged() {
    for code in 1u8..=11 {
        let bytes = [1u8, code, 0x12, 0x34, 0xab, 0xcd, 5, 9];
        let header = Header::from(BytesMut::from(&bytes[..]));
        assert_eq!(&header.to_bytes()[..], &bytes[..]);
    }
}

#[test]
fn header_with_unknown_type_code_is_normalized() {
    let bytes = [1u8, 200, 0, 1, 0, 0, 0, 0];
    let header = Header::from(BytesMut::from(&bytes[..]));
    assert_eq!(header.record_type, RequestType::UnknownType);
    assert_eq!(&header.to_bytes()[..], &[1u8, 11, 0, 1, 0, 0, 0, 0][..]);
    let zero = Header::from(BytesMut::from(&[1u8, 0, 0, 1, 0, 0, 0, 0][..]));
    assert_eq!(zero.record_type, RequestType::UnknownType);
}

#[test]
fn header_encoded_and_decoded_again_is_unchanged() {
    let header = Header {
        version: 1,
        record_type: RequestType::EndRequest,
        request_id: 0xbeef,
        content_length: 0x0807,
        padding_length: 1,
        reserved: 0,
    };
    let bytes = header.to_bytes();
    assert_eq!(&bytes[..], &[1u8, 3, 0xbe, 0xef, 0x08, 0x07, 1, 0][..]);
    assert_eq!(Header::from(BytesMut::from(&bytes[..])), header);
}
