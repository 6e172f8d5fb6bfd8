use fcgi_client::params::{bytes_eq, decimal, Params};

#[test]
fn new_params_are_empty() {
    let params = Params::new();
    assert_eq!(params.len(), 0);
    assert_eq!(params.get(b"REQUEST_METHOD"), None);
    assert_eq!(Params::default().len(), 0);
}

#[test]
fn insert_keeps_each_name_once() {
    let mut params = Params::new();
    params.insert(b"A".to_vec(), b"1".to_vec());
    params.insert(b"B".to_vec(), b"2".to_vec());
    params.insert(b"A".to_vec(), b"3".to_vec());
    assert_eq!(params.len(), 2);
    assert_eq!(params.entry(0), (&b"A"[..], &b"3"[..]));
    assert_eq!(params.entry(1), (&b"B"[..], &b"2"[..]));
    assert_eq!(params.position(b"B"), Some(1));
    assert_eq!(params.position(b"C"), None);
    assert_eq!(params.get(b"A"), Some(&b"3"[..]));
    assert_eq!(params.get(b"C"), None);
}

#[test]
fn with_is_insert_by_value() {
    let params = Params::new().with(b"K".to_vec(), b"v".to_vec()).with(b"K".to_vec(), b"w".to_vec());
    assert_eq!(params.len(), 1);
    assert_eq!(params.get(b"K"), Some(&b"w"[..]));
}

#[test]
fn try_with_rejects_what_cannot_be_written() {
    let params = Params::new().with(b"A".to_vec(), b"1".to_vec());
    let params = params.try_with(b"B".to_vec(), b"2".to_vec()).unwrap();
    assert_eq!(params.len(), 2);

    let too_long = vec![0u8; 1usize << 31];
    let kept = params.try_with(too_long, b"3".to_vec()).unwrap_err();
    assert_eq!(kept.len(), 2);
    assert_eq!(kept.entry(0), (&b"A"[..], &b"1"[..]));
    assert_eq!(kept.entry(1), (&b"B"[..], &b"2"[..]));

    let too_long = vec![0u8; 1usize << 31];
    let kept = kept.try_with(b"A".to_vec(), too_long).unwrap_err();
    assert_eq!(kept.get(b"A"), Some(&b"1"[..]));
    assert_eq!(kept.len(), 2);
}

#[test]
fn try_insert_rejects_what_cannot_be_written() {
    let mut params = Params::new();
    assert!(params.try_insert(b"A".to_vec(), b"1".to_vec()));
    assert!(params.try_insert(b"A".to_vec(), b"2".to_vec()));
    assert!(!params.try_insert(vec![0u8; 1usize << 31], b"3".to_vec()));
    assert!(!params.try_insert(b"A".to_vec(), vec![0u8; 1usize << 31]));
    assert_eq!(params.len(), 1);
    assert_eq!(params.get(b"A"), Some(&b"2"[..]));
}

#[test]
fn try_custom_rejects_what_cannot_be_written() {
    let params = Params::new().try_custom("HTTP_HOST", "example.org").unwrap();
    assert_eq!(params.get(b"HTTP_HOST"), Some(&b"example.org"[..]));
    let too_long = String::from_utf8(vec![0u8; 1usize << 31]).unwrap();
    let kept = params.try_custom("HTTP_BIG", &too_long).unwrap_err();
    assert_eq!(kept.len(), 1);
    assert_eq!(kept.get(b"HTTP_BIG"), None);
    let kept = kept.try_custom(&too_long, "v").unwrap_err();
    assert_eq!(kept.len(), 1);
}

#[test]
fn setters_use_the_well_known_names() {
    let params = Params::new()
        .gateway_interface("FastCGI/1.0")
        .server_protocol("HTTP/1.1")
        .request_method("POST")
        .script_filename("/srv/index.php")
        .script_name("/index.php")
        .request_uri("/index.php?a=1")
        .document_root("/srv")
        .document_uri("/index.php")
        .remote_addr("127.0.0.1")
        .remote_port(12345)
        .server_addr("10.0.0.1")
        .server_port(80)
        .server_name("localhost")
        .content_type("text/plain")
        .content_length(0)
        .custom("HTTP_HOST", "example.org");
    let expected: [(&str, &str); 16] = [
        ("GATEWAY_INTERFACE", "FastCGI/1.0"),
        ("SERVER_PROTOCOL", "HTTP/1.1"),
        ("REQUEST_METHOD", "POST"),
        ("SCRIPT_FILENAME", "/srv/index.php"),
        ("SCRIPT_NAME", "/index.php"),
        ("REQUEST_URI", "/index.php?a=1"),
        ("DOCUMENT_ROOT", "/srv"),
        ("DOCUMENT_URI", "/index.php"),
        ("REMOTE_ADDR", "127.0.0.1"),
        ("REMOTE_PORT", "12345"),
        ("SERVER_ADDR", "10.0.0.1"),
        ("SERVER_PORT", "80"),
        ("SERVER_NAME", "localhost"),
        ("CONTENT_TYPE", "text/plain"),
        ("CONTENT_LENGTH", "0"),
        ("HTTP_HOST", "example.org"),
    ];
    assert_eq!(params.len(), expected.len());
    for (i, (name, value)) in expected.iter().enumerate() {
        assert_eq!(params.entry(i), (name.as_bytes(), value.as_bytes()));
    }
}

#[test]
fn a_setter_called_twice_replaces_the_value() {
    let params = Params::new().request_method("GET").script_name("/a").request_method("HEAD");
    assert_eq!(params.len(), 2);
    assert_eq!(params.entry(0), (&b"REQUEST_METHOD"[..], &b"HEAD"[..]));
    assert_eq!(params.entry(1), (&b"SCRIPT_NAME"[..], &b"/a"[..]));
}

#[test]
fn custom_stores_utf8_bytes() {
    let params = Params::new().custom("HTTP_X_NAME", "Zo\u{eb}");
    assert_eq!(params.get(b"HTTP_X_NAME"), Some(&[b'Z', b'o', 0xc3, 0xab][..]));
}

#[test]
fn into_entries_hands_out_the_pairs_in_order() {
    let entries = Params::new().custom("b", "1").custom("a", "2").into_entries();
    assert_eq!(entries, vec![(b"b".to_vec(), b"1".to_vec()), (b"a".to_vec(), b"2".to_vec())]);
}

#[test]
fn decimal_digits() {
    assert_eq!(decimal(0), b"0".to_vec());
    assert_eq!(decimal(9), b"9".to_vec());
    assert_eq!(decimal(10), b"10".to_vec());
    assert_eq!(decimal(65535), b"65535".to_vec());
    assert_eq!(decimal(1_000_000), b"1000000".to_vec());
    assert_eq!(decimal(usize::MAX), usize::MAX.to_string().into_bytes());
}

#[test]
fn bytes_eq_compares_contents() {
    assert!(bytes_eq(b"", b""));
    assert!(bytes_eq(b"abc", b"abc"));
    assert!(!bytes_eq(b"abc", b"abd"));
    assert!(!bytes_eq(b"abc", b"ab"));
}
