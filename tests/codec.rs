use waterflow::codec::{get_input_strings, pack_into_output, CodecError, Communication};

fn inputs(v: &[&str]) -> Communication {
    Communication::Inputs(v.iter().map(|s| s.to_string()).collect())
}

#[test]
fn output_has_exact_bytes() {
    let bytes = Communication::Output("y, x".to_string()).to_bytes();
    assert_eq!(bytes, [1, 4, 0, 0, 0, b'y', b',', b' ', b'x']);
}

#[test]
fn inputs_have_exact_bytes() {
    let bytes = inputs(&["x", "yz"]).to_bytes();
    assert_eq!(
        bytes,
        [0, 2, 0, 0, 0, 1, 0, 0, 0, b'x', 2, 0, 0, 0, b'y', b'z']
    );
}

#[test]
fn length_prefix_is_little_endian() {
    let long = "a".repeat(300);
    let bytes = Communication::Output(long.clone()).to_bytes();
    assert_eq!(&bytes[..5], &[1, 44, 1, 0, 0]);
    assert_eq!(bytes.len(), 305);
}

#[test]
fn round_trip_inputs_with_unicode() {
    let given = ["", "héllo", "日本語", "emoji 🚀"];
    let bytes = inputs(&given).to_bytes();
    match Communication::from_bytes(&bytes) {
        Ok(Communication::Inputs(v)) => assert_eq!(v, given),
        _ => panic!("round trip failed"),
    }
}

#[test]
fn round_trip_output() {
    let bytes = Communication::Output("ünïcode ✓".to_string()).to_bytes();
    match Communication::from_bytes(&bytes) {
        Ok(Communication::Output(s)) => assert_eq!(s, "ünïcode ✓"),
        _ => panic!("round trip failed"),
    }
}

#[test]
fn round_trip_empty_inputs() {
    let bytes = inputs(&[]).to_bytes();
    assert_eq!(bytes, [0, 0, 0, 0, 0]);
    match Communication::from_bytes(&bytes) {
        Ok(Communication::Inputs(v)) => assert!(v.is_empty()),
        _ => panic!("round trip failed"),
    }
}

#[test]
fn trailing_bytes_are_not_read() {
    let mut bytes = Communication::Output("ok".to_string()).to_bytes();
    bytes.extend_from_slice(&[9, 9, 9]);
    match Communication::from_bytes(&bytes) {
        Ok(Communication::Output(s)) => assert_eq!(s, "ok"),
        _ => panic!("decode failed"),
    }
}

#[test]
fn empty_buffer_is_truncated() {
    assert!(matches!(Communication::from_bytes(&[]), Err(CodecError::Truncated)));
}

#[test]
fn unknown_tag_is_rejected() {
    assert!(matches!(
        Communication::from_bytes(&[7, 0, 0, 0, 0]),
        Err(CodecError::UnknownTag { tag: 7 })
    ));
}

#[test]
fn length_beyond_buffer_is_truncated() {
    assert!(matches!(
        Communication::from_bytes(&[1, 5, 0, 0, 0, b'a']),
        Err(CodecError::Truncated)
    ));
    assert!(matches!(
        Communication::from_bytes(&[0, 2, 0, 0, 0, 1, 0, 0, 0, b'a']),
        Err(CodecError::Truncated)
    ));
    assert!(matches!(Communication::from_bytes(&[0, 1, 0]), Err(CodecError::Truncated)));
}

#[test]
fn malformed_utf8_is_rejected() {
    assert!(matches!(
        Communication::from_bytes(&[1, 2, 0, 0, 0, 0xC3, 0x28]),
        Err(CodecError::InvalidUtf8)
    ));
}

#[test]
fn plugin_side_helpers() {
    let bytes = inputs(&["x", "y"]).to_bytes();
    assert_eq!(get_input_strings(&bytes), Some(vec!["x".to_string(), "y".to_string()]));
    let out = pack_into_output("y, x".to_string());
    assert_eq!(get_input_strings(&out), None);
    assert_eq!(out, Communication::Output("y, x".to_string()).to_bytes());
}
