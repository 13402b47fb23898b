use getman::proto::{
    encode_file_containing_symbol_request, encode_list_services_request, encode_string_field,
    encode_varint, parse_file_descriptor_response_msg, parse_list_service_response,
    parse_list_services_response, ProtoReader,
};

#[test]
fn varint_round_trip() {
    for value in [0u64, 1, 127, 128, 300, 16384, u64::MAX] {
        let mut buf: Vec<u8> = Vec::new();
        encode_varint(value, &mut buf);
        let mut reader = ProtoReader::new(&buf);
        assert_eq!(reader.read_varint().unwrap(), value);
        assert!(!reader.remaining());
    }
}

#[test]
fn varint_encoding_is_little_endian_base_128() {
    let mut buf: Vec<u8> = Vec::new();
    encode_varint(300, &mut buf);
    assert_eq!(buf, vec![0xAC, 0x02]);
}

#[test]
fn truncated_varint_is_rejected() {
    let data = [0x80u8, 0x80];
    let mut reader = ProtoReader::new(&data);
    assert!(reader.read_varint().is_err());
}

#[test]
fn tags_and_length_delimited_fields_read_back() {
    let mut buf: Vec<u8> = Vec::new();
    encode_string_field(1, "svc.Echo", &mut buf);
    encode_string_field(2, "ignored", &mut buf);

    let mut reader = ProtoReader::new(&buf);
    let (field, wire) = reader.read_tag().unwrap();
    assert_eq!((field, wire), (1, 2));
    let name = reader.read_string().unwrap();
    assert_eq!(name, "svc.Echo");

    let (field, wire) = reader.read_tag().unwrap();
    assert_eq!((field, wire), (2, 2));
    reader.skip_field(wire).unwrap();
    assert!(!reader.remaining());
}

#[test]
fn reflection_requests_have_the_fixed_shapes() {
    // field 7, wire type 2, empty payload: the list_services request
    assert_eq!(encode_list_services_request(), vec![58u8, 0u8]);

    let req = encode_file_containing_symbol_request("svc.Echo");
    // field 4, wire type 2, then the length and the symbol bytes
    assert_eq!(req[0], 34);
    assert_eq!(req[1], 8);
    assert_eq!(&req[2..], b"svc.Echo");

    assert!(encode_file_containing_symbol_request("").is_empty());
}

#[test]
fn unknown_wire_types_are_rejected() {
    let data = [0x00u8];
    let mut reader = ProtoReader::new(&data);
    assert!(reader.skip_field(3).is_err());
    assert!(reader.skip_field(7).is_err());
}

fn length_delimited(field: u32, payload: &[u8]) -> Vec<u8> {
    let mut buf: Vec<u8> = Vec::new();
    encode_varint((field as u64) * 8 + 2, &mut buf);
    encode_varint(payload.len() as u64, &mut buf);
    buf.extend_from_slice(payload);
    buf
}

#[test]
fn list_services_response_round_trip() {
    // two service entries, each with its name in field one
    let entry_a = length_delimited(1, b"svc.Alpha");
    let entry_b = length_delimited(1, b"svc.Beta");
    let mut list = length_delimited(1, &entry_a);
    list.extend_from_slice(&length_delimited(1, &entry_b));
    // the response carries the list under field six
    let response = length_delimited(6, &list);

    let names = parse_list_services_response(&response).unwrap();
    assert_eq!(names, vec!["svc.Alpha".to_string(), "svc.Beta".to_string()]);
}

#[test]
fn reflection_error_response_is_reported() {
    // field seven carries the error response; its field two is the text
    let error_body = length_delimited(2, b"boom");
    let response = length_delimited(7, &error_body);
    let err = parse_list_services_response(&response).unwrap_err();
    assert_eq!(err, "Reflection error: boom");
}

#[test]
fn missing_reflection_fields_are_reported() {
    assert_eq!(
        parse_list_services_response(&[]).unwrap_err(),
        "No list_services_response found in reflection response"
    );
    assert_eq!(
        parse_file_descriptor_response_msg(&[]).unwrap_err(),
        "No file_descriptor_response found in reflection response"
    );
}

#[test]
fn file_descriptor_response_round_trip() {
    let fd_one = b"first descriptor".to_vec();
    let fd_two = b"second".to_vec();
    let mut body = length_delimited(1, &fd_one);
    body.extend_from_slice(&length_delimited(1, &fd_two));
    let response = length_delimited(4, &body);

    let descriptors = parse_file_descriptor_response_msg(&response).unwrap();
    assert_eq!(descriptors, vec![fd_one, fd_two]);
}

#[test]
fn malformed_and_invalid_names_are_rejected() {
    // a truncated varint inside the message
    let truncated = [0x0A, 0x80];
    assert!(parse_list_service_response(&truncated).is_err());

    // a name that is not valid UTF-8
    let entry = length_delimited(1, &[0x61, 0xFF]);
    let list = length_delimited(1, &entry);
    assert!(parse_list_service_response(&list).is_err());
}
