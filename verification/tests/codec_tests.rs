use service_store::codec::{decode, encode, Service};

fn record(id: u64, updated_at: Option<u64>) -> Service {
    Service {
        id,
        customer_name: "Alice".to_string(),
        device_model: "Model-X".to_string(),
        issue_description: "Screen cracked".to_string(),
        status: "open".to_string(),
        created_at: 1_700_000_000_000_000_000,
        updated_at,
    }
}

#[test]
fn encode_decode_round_trip() {
    for r in [record(1, None), record(42, Some(9)), record(u64::MAX, Some(u64::MAX))] {
        let bytes = encode(&r).expect("small record fits");
        assert!(bytes.len() <= 1024);
        assert_eq!(decode(&bytes), Some(r));
    }
}

#[test]
fn decode_encode_round_trip() {
    let bytes = encode(&record(7, Some(11))).expect("small record fits");
    let back = decode(&bytes).expect("bytes came from encode");
    assert_eq!(encode(&back), Ok(bytes));
}

#[test]
fn round_trip_keeps_non_ascii_text() {
    let r = Service {
        id: 3,
        customer_name: "Ålice Ñoño".to_string(),
        device_model: "Modèle–X ✓".to_string(),
        issue_description: "écran cassé 画面割れ".to_string(),
        status: "åpen".to_string(),
        created_at: 5,
        updated_at: None,
    };
    let bytes = encode(&r).expect("short text fits");
    assert_eq!(decode(&bytes), Some(r));
}

#[test]
fn encode_layout_is_fixed_little_endian() {
    let r = Service {
        id: 0x0102030405060708,
        customer_name: "A".to_string(),
        device_model: String::new(),
        issue_description: String::new(),
        status: String::new(),
        created_at: 0x1122334455667788,
        updated_at: None,
    };
    let bytes = encode(&r).expect("tiny record fits");
    let expected: Vec<u8> = vec![
        0x08, 0x07, 0x06, 0x05, 0x04, 0x03, 0x02, 0x01, // id
        0x88, 0x77, 0x66, 0x55, 0x44, 0x33, 0x22, 0x11, // created_at
        0x00, // no update timestamp
        0x01, 0x00, b'A', // customer_name
        0x00, 0x00, // device_model
        0x00, 0x00, // issue_description
        0x00, 0x00, // status
    ];
    assert_eq!(bytes, expected);
}

#[test]
fn oversize_record_is_refused() {
    let mut r = record(1, None);
    r.issue_description = "y".repeat(1_025);
    assert!(encode(&r).is_err());
    // One byte under the limit for the whole record still encodes.
    let mut small = record(1, None);
    small.issue_description = "y".repeat(960);
    assert!(encode(&small).is_ok());
}

#[test]
fn decode_refuses_bytes_that_are_not_a_record() {
    assert_eq!(decode(&vec![]), None);
    assert_eq!(decode(&vec![0u8; 10]), None); // too short for the header
    let good = encode(&record(1, Some(2))).unwrap();
    // A bad update-timestamp tag.
    let mut bad_tag = good.clone();
    bad_tag[16] = 9;
    assert_eq!(decode(&bad_tag), None);
    // Trailing garbage after a well-formed record.
    let mut trailing = good.clone();
    trailing.push(0);
    assert_eq!(decode(&trailing), None);
    // A field length prefix pointing past the end.
    let mut truncated = good.clone();
    truncated.truncate(good.len() - 1);
    assert_eq!(decode(&truncated), None);
    // A field that is not valid UTF-8.
    let r = record(1, None);
    let mut bytes = encode(&r).unwrap();
    bytes[19] = 0xff; // first byte of customer_name
    assert_eq!(decode(&bytes), None);
}
