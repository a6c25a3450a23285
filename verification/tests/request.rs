use appleloc::{
    build_header, encode_request, ClientConfig, Error, MacAddress, Request, WifiRequestEntry,
};

fn stock_header() -> Vec<u8> {
    let mut header = vec![0x00, 0x01, 0x00, 0x05];
    header.extend_from_slice(b"en_US");
    header.extend_from_slice(&[0x00, 0x13]);
    header.extend_from_slice(b"com.apple.locationd");
    header.extend_from_slice(&[0x00, 0x0a]);
    header.extend_from_slice(b"17.5.21F79");
    header.extend_from_slice(&[0x00, 0x00, 0x00, 0x01, 0x00, 0x00]);
    header
}

fn entry(octets: [u8; 6]) -> WifiRequestEntry {
    WifiRequestEntry { bssid: MacAddress { octets }, signal: None }
}

fn config_with(locale: &str, identifier: &str, version: &str) -> ClientConfig {
    ClientConfig {
        locale: locale.to_string(),
        identifier: identifier.to_string(),
        version: version.to_string(),
        user_agent: String::new(),
    }
}

#[test]
fn default_config_names_the_stock_client() {
    let config = ClientConfig::default();
    assert_eq!(config.locale, "en_US");
    assert_eq!(config.identifier, "com.apple.locationd");
    assert_eq!(config.version, "17.5.21F79");
    assert_eq!(config.user_agent, "locationd/1756.1.15 CFNetwork/711.5.6 Darwin/14.0.0");
}

#[test]
fn header_of_default_config() {
    assert_eq!(build_header(&ClientConfig::default()), Ok(stock_header()));
}

#[test]
fn header_of_empty_strings() {
    let header = build_header(&config_with("", "", "")).unwrap();
    assert_eq!(header, vec![0, 1, 0, 0, 0, 0, 0, 0, 0, 0, 0, 1, 0, 0]);
}

#[test]
fn header_counts_utf8_bytes() {
    let header = build_header(&config_with("\u{e9}", "a", "\u{20ac}")).unwrap();
    assert_eq!(
        header,
        vec![0, 1, 0, 2, 0xc3, 0xa9, 0, 1, b'a', 0, 3, 0xe2, 0x82, 0xac, 0, 0, 0, 1, 0, 0]
    );
}

#[test]
fn header_length_is_big_endian() {
    let locale = "x".repeat(0x0102);
    let header = build_header(&config_with(&locale, "", "")).unwrap();
    assert_eq!(&header[..4], &[0, 1, 0x01, 0x02]);
    assert_eq!(header.len(), 2 + 2 + 0x0102 + 2 + 2 + 6);
}

#[test]
fn header_accepts_the_longest_string() {
    let identifier = "y".repeat(65535);
    let header = build_header(&config_with("", &identifier, "")).unwrap();
    assert_eq!(&header[..6], &[0, 1, 0, 0, 0xff, 0xff]);
    assert_eq!(header.len(), 2 + 2 + 2 + 65535 + 2 + 6);
}

#[test]
fn header_refuses_a_string_too_long() {
    let long = "z".repeat(65536);
    assert_eq!(build_header(&config_with(&long, "", "")), Err(Error::EncodeError));
    assert_eq!(build_header(&config_with("", &long, "")), Err(Error::EncodeError));
    assert_eq!(build_header(&config_with("", "", &long)), Err(Error::EncodeError));
}

#[test]
fn frame_starts_with_version_and_locale_length() {
    let frame = encode_request(
        &["aa:bb:cc:dd:ee:ff"],
        Some(100),
        Some(0),
        &ClientConfig::default(),
    )
    .unwrap();
    assert_eq!(frame[0], 0x00);
    assert_eq!(frame[1], 0x01);
    assert_eq!(frame[2], 0x00);
    assert_eq!(frame[3] as usize, "en_US".len());
}

#[test]
fn frame_for_one_bssid_is_exact() {
    let frame = encode_request(
        &["aa:bb:cc:dd:ee:ff"],
        Some(100),
        Some(0),
        &ClientConfig::default(),
    )
    .unwrap();
    let mut expected = stock_header();
    expected.extend_from_slice(&[0x00, 0x19]);
    expected.extend_from_slice(&[0x12, 0x13, 0x0a, 0x11]);
    expected.extend_from_slice(b"aa:bb:cc:dd:ee:ff");
    expected.extend_from_slice(&[0x18, 0x00, 0x20, 0x64]);
    assert_eq!(frame, expected);
}

#[test]
fn frame_writes_the_canonical_text_of_each_bssid() {
    let frame = encode_request(&["A:B:C:D:E:F"], None, None, &config_with("", "", "")).unwrap();
    let mut expected = vec![0, 1, 0, 0, 0, 0, 0, 0, 0, 0, 0, 1, 0, 0];
    expected.extend_from_slice(&[0x00, 0x15]);
    expected.extend_from_slice(&[0x12, 0x13, 0x0a, 0x11]);
    expected.extend_from_slice(b"0a:0b:0c:0d:0e:0f");
    assert_eq!(frame, expected);
}

#[test]
fn frame_keeps_the_order_of_the_bssids() {
    let frame = encode_request(
        &["00:00:00:00:00:01", "000000000002", "0:0:0:0:0:3"],
        None,
        None,
        &config_with("", "", ""),
    )
    .unwrap();
    let mut expected = vec![0, 1, 0, 0, 0, 0, 0, 0, 0, 0, 0, 1, 0, 0];
    expected.extend_from_slice(&[0x00, 63]);
    for text in ["00:00:00:00:00:01", "00:00:00:00:00:02", "00:00:00:00:00:03"] {
        expected.extend_from_slice(&[0x12, 0x13, 0x0a, 0x11]);
        expected.extend_from_slice(text.as_bytes());
    }
    assert_eq!(frame, expected);
}

#[test]
fn frame_for_no_bssid_has_an_empty_list() {
    let frame = encode_request(&[], Some(100), Some(0), &config_with("", "", "")).unwrap();
    assert_eq!(
        frame,
        vec![0, 1, 0, 0, 0, 0, 0, 0, 0, 0, 0, 1, 0, 0, 0, 4, 0x18, 0x00, 0x20, 0x64]
    );
}

#[test]
fn absent_parameters_are_left_out() {
    let frame = encode_request(&[], None, None, &config_with("", "", "")).unwrap();
    assert_eq!(frame, vec![0, 1, 0, 0, 0, 0, 0, 0, 0, 0, 0, 1, 0, 0, 0, 0]);
    let frame = encode_request(&[], Some(7), None, &config_with("", "", "")).unwrap();
    assert_eq!(frame[14..], [0, 2, 0x20, 0x07]);
    let frame = encode_request(&[], None, Some(7), &config_with("", "", "")).unwrap();
    assert_eq!(frame[14..], [0, 2, 0x18, 0x07]);
}

#[test]
fn numbers_of_two_bytes_and_more() {
    let request = Request { wifis: vec![], signal: Some(300), noise: Some(128), source: None };
    assert_eq!(request.encode(), vec![0x18, 0x80, 0x01, 0x20, 0xac, 0x02]);
    let request = Request { wifis: vec![], signal: Some(i32::MAX), noise: None, source: None };
    assert_eq!(request.encode(), vec![0x20, 0xff, 0xff, 0xff, 0xff, 0x07]);
}

#[test]
fn negative_numbers_are_sign_extended() {
    let request = Request { wifis: vec![], signal: Some(-1), noise: None, source: None };
    assert_eq!(
        request.encode(),
        vec![0x20, 0xff, 0xff, 0xff, 0xff, 0xff, 0xff, 0xff, 0xff, 0xff, 0x01]
    );
    let request = Request { wifis: vec![], signal: None, noise: Some(i32::MIN), source: None };
    assert_eq!(
        request.encode(),
        vec![0x18, 0x80, 0x80, 0x80, 0x80, 0xf8, 0xff, 0xff, 0xff, 0xff, 0x01]
    );
    let request = Request { wifis: vec![], signal: None, noise: Some(-100), source: None };
    assert_eq!(
        request.encode(),
        vec![0x18, 0x9c, 0xff, 0xff, 0xff, 0xff, 0xff, 0xff, 0xff, 0xff, 0x01]
    );
}

#[test]
fn source_is_written_last() {
    let request = Request {
        wifis: vec![entry([1, 2, 3, 4, 5, 6])],
        signal: Some(100),
        noise: Some(0),
        source: Some("abc".to_string()),
    };
    let mut expected = vec![0x12, 0x13, 0x0a, 0x11];
    expected.extend_from_slice(b"01:02:03:04:05:06");
    expected.extend_from_slice(&[0x18, 0x00, 0x20, 0x64, 0x2a, 0x03, b'a', b'b', b'c']);
    assert_eq!(request.encode(), expected);
}

#[test]
fn empty_source_is_still_written() {
    let request =
        Request { wifis: vec![], signal: None, noise: None, source: Some(String::new()) };
    assert_eq!(request.encode(), vec![0x2a, 0x00]);
}

#[test]
fn entry_signal_is_not_sent() {
    let with = Request {
        wifis: vec![WifiRequestEntry { bssid: MacAddress { octets: [1; 6] }, signal: Some(-40) }],
        signal: None,
        noise: None,
        source: None,
    };
    let without = Request { wifis: vec![entry([1; 6])], signal: None, noise: None, source: None };
    assert_eq!(with.encode(), without.encode());
}

#[test]
fn to_frame_puts_header_length_and_message_together() {
    let request = Request {
        wifis: vec![entry([0xde, 0xad, 0xbe, 0xef, 0x00, 0x01])],
        signal: None,
        noise: None,
        source: None,
    };
    let config = ClientConfig::default();
    let message = request.encode();
    let mut expected = build_header(&config).unwrap();
    expected.push(0);
    expected.push(message.len() as u8);
    expected.extend_from_slice(&message);
    assert_eq!(request.to_frame(&config), Ok(expected));
}

#[test]
fn message_length_is_big_endian() {
    // Thirteen entries of 21 bytes each: 273 bytes, 0x0111.
    let wifis: Vec<WifiRequestEntry> = (0..13).map(|i| entry([i; 6])).collect();
    let request = Request { wifis, signal: None, noise: None, source: None };
    let frame = request.to_frame(&config_with("", "", "")).unwrap();
    assert_eq!(frame[14..16], [0x01, 0x11]);
    assert_eq!(frame.len(), 14 + 2 + 273);
    assert_eq!(frame[16..], request.encode()[..]);
}

#[test]
fn long_source_has_a_two_byte_length() {
    let request = Request {
        wifis: vec![],
        signal: None,
        noise: None,
        source: Some("s".repeat(200)),
    };
    let message = request.encode();
    assert_eq!(message[..3], [0x2a, 0xc8, 0x01]);
    assert_eq!(message.len(), 203);
}

#[test]
fn message_of_the_longest_length_is_framed() {
    // 4 bytes of key and length, then 65531 bytes of text: 65535 in all.
    let request = Request {
        wifis: vec![],
        signal: None,
        noise: None,
        source: Some("s".repeat(65531)),
    };
    assert_eq!(request.encode().len(), 65535);
    let frame = request.to_frame(&config_with("", "", "")).unwrap();
    assert_eq!(frame[14..16], [0xff, 0xff]);
    assert_eq!(frame.len(), 14 + 2 + 65535);
}

#[test]
fn message_too_long_is_refused() {
    let request = Request {
        wifis: vec![],
        signal: None,
        noise: None,
        source: Some("s".repeat(65532)),
    };
    assert_eq!(request.encode().len(), 65536);
    assert_eq!(request.to_frame(&config_with("", "", "")), Err(Error::EncodeError));
}

#[test]
fn too_many_bssids_are_refused() {
    let texts: Vec<String> = (0..3121u32)
        .map(|i| format!("00:00:00:00:{:02x}:{:02x}", i / 256, i % 256))
        .collect();
    let refs: Vec<&str> = texts.iter().map(|s| s.as_str()).collect();
    // 3120 entries of 21 bytes fit; one more does not.
    assert!(encode_request(&refs[..3120], None, None, &config_with("", "", "")).is_ok());
    assert_eq!(
        encode_request(&refs, None, None, &config_with("", "", "")),
        Err(Error::EncodeError)
    );
}

#[test]
fn invalid_bssid_is_reported_with_its_text() {
    assert_eq!(
        encode_request(&["invalid-mac"], Some(100), Some(0), &ClientConfig::default()),
        Err(Error::InvalidInput("invalid-mac".to_string()))
    );
}

#[test]
fn first_invalid_bssid_is_the_one_reported() {
    assert_eq!(
        encode_request(
            &["aa:bb:cc:dd:ee:ff", "first", "11:22:33:44:55:66", "second"],
            None,
            None,
            &ClientConfig::default()
        ),
        Err(Error::InvalidInput("first".to_string()))
    );
}

#[test]
fn invalid_bssid_is_reported_before_a_config_too_long() {
    let long = "z".repeat(70000);
    assert_eq!(
        encode_request(&["nope"], None, None, &config_with(&long, "", "")),
        Err(Error::InvalidInput("nope".to_string()))
    );
    assert_eq!(
        encode_request(&["aa:bb:cc:dd:ee:ff"], None, None, &config_with(&long, "", "")),
        Err(Error::EncodeError)
    );
}

#[test]
fn bssid_outside_ascii_is_invalid_input() {
    assert_eq!(
        encode_request(&["a\u{e9}\u{e9}\u{e9}\u{e9}\u{e9}b"], None, None, &ClientConfig::default()),
        Err(Error::InvalidInput("a\u{e9}\u{e9}\u{e9}\u{e9}\u{e9}b".to_string()))
    );
}

#[test]
fn bssid_field_of_the_frame_parses_back_to_the_address() {
    for text in ["aa:bb:cc:dd:ee:ff", "1:2:3:a:b:c", "123456789ABC"] {
        let address = MacAddress::parse(text).unwrap();
        let frame = encode_request(&[text], None, None, &config_with("", "", "")).unwrap();
        // Preamble of 14 bytes, length of 2, keys and lengths of 4, then the text.
        let field = std::str::from_utf8(&frame[20..37]).unwrap();
        assert_eq!(frame.len(), 37);
        assert_eq!(MacAddress::parse(field), Some(address));
    }
}
