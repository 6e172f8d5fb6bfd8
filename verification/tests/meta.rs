use bytes::BytesMut;
use fcgi_client::error::ClientError;
use fcgi_client::meta::{
    decode_length, decode_pair, BeginRequest, BeginRequestRec, EndRequest, EndRequestRec, Header,
    ParamLength, ParamPair, ParamPairs, ProtocolStatus, RequestType, Role, MAX_LENGTH,
};
use fcgi_client::params::Params;

#[test]
fn request_type_from_u8_knows_every_code() {
    let kinds = [
        RequestType::BeginRequest,
        RequestType::AbortRequest,
        RequestType::EndRequest,
        RequestType::Params,
        RequestType::Stdin,
        RequestType::Stdout,
        RequestType::Stderr,
        RequestType::Data,
        RequestType::GetValues,
        RequestType::GetValuesResult,
        RequestType::UnknownType,
    ];
    for (i, kind) in kinds.iter().enumerate() {
        let code = (i + 1) as u8;
        assert_eq!(RequestType::from_u8(code), *kind);
        assert_eq!(kind.code(), code);
    }
    assert_eq!(RequestType::from_u8(0), RequestType::UnknownType);
    assert_eq!(RequestType::from_u8(12), RequestType::UnknownType);
    assert_eq!(RequestType::from_u8(255), RequestType::UnknownType);
}

#[test]
fn request_type_is_shown_as_its_code() {
    assert_eq!(RequestType::BeginRequest.to_string(), "1");
    assert_eq!(RequestType::Stdout.to_string(), "6");
    assert_eq!(RequestType::GetValuesResult.to_string(), "10");
    assert_eq!(RequestType::UnknownType.to_string(), "11");
    for code in 1u8..=11 {
        assert_eq!(RequestType::from_u8(code).to_string(), code.to_string());
    }
}

#[test]
fn role_codes() {
    assert_eq!(Role::Responder.code(), 1);
    assert_eq!(Role::Authorizer.code(), 2);
    assert_eq!(Role::Filter.code(), 3);
}

#[test]
fn protocol_status_from_u8_normalizes_unknown_codes() {
    assert_eq!(ProtocolStatus::from_u8(0), ProtocolStatus::RequestComplete);
    assert_eq!(ProtocolStatus::from_u8(1), ProtocolStatus::CantMpxConn);
    assert_eq!(ProtocolStatus::from_u8(2), ProtocolStatus::Overloaded);
    assert_eq!(ProtocolStatus::from_u8(3), ProtocolStatus::UnknownRole);
    assert_eq!(ProtocolStatus::from_u8(4), ProtocolStatus::UnknownRole);
    assert_eq!(ProtocolStatus::from_u8(255), ProtocolStatus::UnknownRole);
}

#[test]
fn protocol_status_converts_to_client_result() {
    assert_eq!(ProtocolStatus::RequestComplete.convert_to_client_result(17), Ok(()));
    assert_eq!(
        ProtocolStatus::CantMpxConn.convert_to_client_result(1),
        Err(ClientError::EndRequestWithProtocolStatus(ProtocolStatus::CantMpxConn, 1))
    );
    assert_eq!(
        ProtocolStatus::Overloaded.convert_to_client_result(2),
        Err(ClientError::EndRequestWithProtocolStatus(ProtocolStatus::Overloaded, 2))
    );
    assert_eq!(
        ProtocolStatus::UnknownRole.convert_to_client_result(0),
        Err(ClientError::EndRequestWithProtocolStatus(ProtocolStatus::UnknownRole, 0))
    );
}

#[test]
fn header_new_sets_length_and_padding() {
    let header = Header::new(RequestType::Params, 7, b"abcde");
    assert_eq!(
        header,
        Header {
            version: 1,
            record_type: RequestType::Params,
            request_id: 7,
            content_length: 5,
            padding_length: 3,
            reserved: 0,
        }
    );
    assert_eq!(Header::new(RequestType::Params, 7, b"").padding_length, 0);
    assert_eq!(Header::new(RequestType::Params, 7, b"12345678").padding_length, 0);
    assert_eq!(Header::new(RequestType::Params, 7, b"1").padding_length, 7);
}

#[test]
fn header_new_takes_content_of_max_length() {
    let content = vec![0u8; MAX_LENGTH];
    let header = Header::new(RequestType::Stdin, 1, &content);
    assert_eq!(header.content_length, 65535);
    assert_eq!(header.padding_length, 1);
}

#[test]
fn begin_request_content() {
    let keep = BeginRequest::new(Role::Responder, true);
    assert_eq!(keep.flags, 1);
    assert_eq!(keep.reserved, [0u8; 5]);
    assert_eq!(&keep.to_content()[..], &[0u8, 1, 1, 0, 0, 0, 0, 0][..]);
    let close = BeginRequest::new(Role::Filter, false);
    assert_eq!(close.flags, 0);
    assert_eq!(&close.to_content()[..], &[0u8, 3, 0, 0, 0, 0, 0, 0][..]);
}

#[test]
fn begin_request_record() {
    let rec = BeginRequestRec::new(0x0102, Role::Responder, true);
    assert_eq!(rec.header.record_type, RequestType::BeginRequest);
    assert_eq!(rec.header.request_id, 0x0102);
    assert_eq!(rec.header.content_length, 8);
    assert_eq!(rec.header.padding_length, 0);
    assert_eq!(&rec.content[..], &[0u8, 1, 1, 0, 0, 0, 0, 0][..]);
    let mut writer = BytesMut::new();
    assert_eq!(rec.write_to_stream(&mut writer), Ok(()));
    assert_eq!(&writer[..], &[1u8, 1, 1, 2, 0, 8, 0, 0, 0, 1, 1, 0, 0, 0, 0, 0][..]);
}

#[test]
fn end_request_from_bytes() {
    let end = EndRequest::from(BytesMut::from(&[1u8, 2, 3, 4, 2, 7, 8, 9][..]));
    assert_eq!(end.app_status, 0x01020304);
    assert_eq!(end.protocol_status, ProtocolStatus::Overloaded);
    assert_eq!(end.reserved, [7u8, 8, 9]);
    let unknown = EndRequest::from(BytesMut::from(&[0u8, 0, 0, 0, 9, 0, 0, 0, 55][..]));
    assert_eq!(unknown.app_status, 0);
    assert_eq!(unknown.protocol_status, ProtocolStatus::UnknownRole);
}

#[test]
fn end_request_record_from_buf() {
    let header = Header::new(RequestType::EndRequest, 5, &[0u8; 8]);
    let rec = EndRequestRec::new_from_buf(
        header,
        BytesMut::from(&[0xffu8, 0xff, 0xff, 0xff, 0, 0, 0, 0][..]),
    );
    assert_eq!(rec.header, header);
    assert_eq!(rec.end_request.app_status, u32::MAX);
    assert_eq!(rec.end_request.protocol_status, ProtocolStatus::RequestComplete);
}

#[test]
fn param_length_short_and_long() {
    assert_eq!(ParamLength::new(0), ParamLength::Short(0));
    assert_eq!(ParamLength::new(127), ParamLength::Short(127));
    assert_eq!(ParamLength::new(128), ParamLength::Long(0x8000_0080));
    assert_eq!(ParamLength::new(200), ParamLength::Long(0x8000_00c8));
    assert_eq!(ParamLength::new(0x7fff_ffff), ParamLength::Long(0xffff_ffff));
    assert_eq!(&ParamLength::new(5).content()[..], &[5u8][..]);
    assert_eq!(&ParamLength::new(200).content()[..], &[0x80u8, 0, 0, 0xc8][..]);
    assert_eq!(&ParamLength::Long(0x8102_0304).content()[..], &[0x81u8, 2, 3, 4][..]);
}

#[test]
fn param_length_of_two_to_the_31_or_more_has_no_form() {
    assert_eq!(ParamLength::try_new(0), Some(ParamLength::Short(0)));
    assert_eq!(ParamLength::try_new(127), Some(ParamLength::Short(127)));
    assert_eq!(ParamLength::try_new(128), Some(ParamLength::Long(0x8000_0080)));
    assert_eq!(ParamLength::try_new(0x7fff_ffff), Some(ParamLength::Long(0xffff_ffff)));
    assert_eq!(ParamLength::try_new(0x8000_0000), None);
    assert_eq!(ParamLength::try_new(0x8000_0001), None);
    assert_eq!(ParamLength::try_new(usize::MAX), None);
}

#[test]
fn param_pair_try_new_tests_the_lengths() {
    let pair = ParamPair::try_new(b"name".to_vec(), b"value".to_vec()).unwrap();
    assert_eq!(pair.name(), b"name");
    assert_eq!(pair.value(), b"value");
    assert_eq!(pair.name_length(), ParamLength::Short(4));
    let too_long = vec![0u8; 1usize << 31];
    assert!(ParamPair::try_new(too_long, b"v".to_vec()).is_none());
    let too_long = vec![0u8; 1usize << 31];
    assert!(ParamPair::try_new(b"n".to_vec(), too_long).is_none());
}

#[test]
fn param_short_and_long() {
    let long_value = "v".repeat(200);
    let params = Params::new().custom("A", "b").custom("HTTP_X", &long_value);
    let content = ParamPairs::new(params).to_content();
    assert_eq!(&content[..4], &[0x01u8, 0x01, 0x41, 0x62][..]);
    assert_eq!(&content[4..9], &[0x06u8, 0x80, 0x00, 0x00, 0xc8][..]);
    assert_eq!(&content[9..15], b"HTTP_X");
    assert_eq!(&content[15..], long_value.as_bytes());
    assert_eq!(content.len(), 4 + 5 + 6 + 200);
}

#[test]
fn param_name_of_127_and_128_bytes() {
    let name127 = vec![b'n'; 127];
    let mut buf = BytesMut::new();
    ParamPair::new(name127.clone(), b"v".to_vec()).write_to_buf(&mut buf);
    assert_eq!(&buf[..2], &[127u8, 1][..]);
    assert_eq!(buf.len(), 2 + 127 + 1);

    let name128 = vec![b'n'; 128];
    let mut buf = BytesMut::new();
    let pair = ParamPair::new(name128.clone(), b"v".to_vec());
    assert_eq!(pair.name_length(), ParamLength::Long(0x8000_0080));
    assert_eq!(pair.value_length(), ParamLength::Short(1));
    pair.write_to_buf(&mut buf);
    assert_eq!(&buf[..5], &[0x80u8, 0, 0, 128, 1][..]);
    assert_eq!(&buf[5..133], &name128[..]);
    assert_eq!(buf.len(), 5 + 128 + 1);
}

#[test]
fn param_pair_write_appends() {
    let mut buf = BytesMut::from(&b"##"[..]);
    ParamPair::new(b"KEY".to_vec(), b"".to_vec()).write_to_buf(&mut buf);
    assert_eq!(&buf[..], b"##\x03\x00KEY");
}

#[test]
fn params_decode_after_encode_gives_the_same_pairs() {
    let long_name = "N".repeat(300);
    let long_value = "x".repeat(70_000);
    let params = Params::new()
        .request_method("GET")
        .script_name("/i.php")
        .custom(&long_name, "short")
        .custom("EMPTY", "")
        .custom("BIG", &long_value);
    let expected: Vec<(Vec<u8>, Vec<u8>)> = vec![
        (b"REQUEST_METHOD".to_vec(), b"GET".to_vec()),
        (b"SCRIPT_NAME".to_vec(), b"/i.php".to_vec()),
        (long_name.clone().into_bytes(), b"short".to_vec()),
        (b"EMPTY".to_vec(), b"".to_vec()),
        (b"BIG".to_vec(), long_value.clone().into_bytes()),
    ];
    let content = ParamPairs::new(params).to_content();
    let decoded = ParamPairs::from_content(&content).unwrap();
    assert_eq!(decoded.len(), expected.len());
    for (i, (name, value)) in expected.iter().enumerate() {
        assert_eq!(decoded.get(i).name(), &name[..]);
        assert_eq!(decoded.get(i).value(), &value[..]);
    }
    let back = decoded.into_params();
    assert_eq!(back.len(), 5);
    assert_eq!(back.get(b"REQUEST_METHOD"), Some(&b"GET"[..]));
    assert_eq!(back.get(b"SCRIPT_NAME"), Some(&b"/i.php"[..]));
    assert_eq!(back.get(long_name.as_bytes()), Some(&b"short"[..]));
    assert_eq!(back.get(b"EMPTY"), Some(&b""[..]));
    assert_eq!(back.get(b"BIG"), Some(long_value.as_bytes()));
    assert_eq!(&ParamPairs::new(back).to_content()[..], &content[..]);
}

#[test]
fn params_decode_of_nothing_is_no_pair() {
    let decoded = ParamPairs::from_content(&[]).unwrap();
    assert_eq!(decoded.len(), 0);
    assert_eq!(ParamPairs::new(Params::new()).to_content().len(), 0);
}

#[test]
fn params_decode_fails_in_the_middle_of_a_pair() {
    let whole = b"\x03\x02abcde";
    assert!(ParamPairs::from_content(whole).is_ok());
    for cut in 1..whole.len() {
        assert_eq!(
            ParamPairs::from_content(&whole[..cut]).err(),
            Some(ClientError::MalformedParams),
            "cut at {}",
            cut
        );
    }
    assert_eq!(
        ParamPairs::from_content(b"\x80\x00\x00").err(),
        Some(ClientError::MalformedParams)
    );
    assert_eq!(
        ParamPairs::from_content(b"\x01\x80\x00\x00").err(),
        Some(ClientError::MalformedParams)
    );
    assert_eq!(
        ParamPairs::from_content(b"\x01\x01ab\x01").err(),
        Some(ClientError::MalformedParams)
    );
}

#[test]
fn params_decode_masks_the_high_bit_of_a_long_length() {
    let decoded = ParamPairs::from_content(b"\x80\x00\x00\x02\x01abc").unwrap();
    assert_eq!(decoded.len(), 1);
    assert_eq!(decoded.get(0).name(), b"ab");
    assert_eq!(decoded.get(0).value(), b"c");
    assert_eq!(decode_length(b"\xff\x00\x01\x02", 0), Some((0x7f00_0102, 4)));
    assert_eq!(decode_length(b"xx\x7f", 2), Some((127, 3)));
    assert_eq!(decode_length(b"xx", 2), None);
}

#[test]
fn decode_pair_reads_one_pair_at_a_position() {
    let content = b"??\x01\x02kvvrest";
    let (pair, next) = decode_pair(content, 2).unwrap();
    assert_eq!(pair.name(), b"k");
    assert_eq!(pair.value(), b"vv");
    assert_eq!(next, 7);
    assert!(decode_pair(b"\x05\x00abc", 0).is_none());
}

#[test]
fn pairs_into_params_lets_the_later_pair_win() {
    let decoded = ParamPairs::from_content(b"\x01\x01a1\x01\x01b2\x01\x01a3").unwrap();
    assert_eq!(decoded.len(), 3);
    let params = decoded.into_params();
    assert_eq!(params.len(), 2);
    assert_eq!(params.get(b"a"), Some(&b"3"[..]));
    assert_eq!(params.get(b"b"), Some(&b"2"[..]));
    assert_eq!(params.entry(0), (&b"a"[..], &b"3"[..]));
    assert_eq!(params.entry(1), (&b"b"[..], &b"2"[..]));
}
