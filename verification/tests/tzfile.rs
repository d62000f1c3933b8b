use datetime::DecodeError;
use datetime::TimeZone;

/// Builds a version-1 table: three counts of interest, big-endian fields.
fn tz_bytes(
    timestamps: &[i64],
    type_indices: &[u8],
    types: &[(i32, u8, u8)],
    chars: &[u8],
) -> Vec<u8> {
    let mut data = Vec::new();
    data.extend_from_slice(b"TZif");
    data.push(0);
    data.extend_from_slice(&[0u8; 15]);
    data.extend_from_slice(&0u32.to_be_bytes());
    data.extend_from_slice(&0u32.to_be_bytes());
    data.extend_from_slice(&0u32.to_be_bytes());
    data.extend_from_slice(&(timestamps.len() as u32).to_be_bytes());
    data.extend_from_slice(&(types.len() as u32).to_be_bytes());
    data.extend_from_slice(&(chars.len() as u32).to_be_bytes());
    for ts in timestamps {
        data.extend_from_slice(&(*ts as i32).to_be_bytes());
    }
    data.extend_from_slice(type_indices);
    for (offset, dst, idx) in types {
        data.extend_from_slice(&offset.to_be_bytes());
        data.push(*dst);
        data.push(*idx);
    }
    data.extend_from_slice(chars);
    data
}

#[test]
fn load_sorts_descending() {
    // Transitions arrive in arbitrary file order.
    let data = tz_bytes(
        &[100, 300, 200],
        &[0, 0, 0],
        &[(3600, 1, 0)],
        b"CET\0",
    );
    let zone = TimeZone::from_tz_data(&data).unwrap();
    match zone {
        TimeZone::VariableOffset { transitions } => {
            assert_eq!(transitions.len(), 3);
            assert_eq!(transitions[0].timestamp, 300);
            assert_eq!(transitions[1].timestamp, 200);
            assert_eq!(transitions[2].timestamp, 100);
            for t in &transitions {
                assert_eq!(t.offset_seconds, 3600);
                assert!(t.is_dst);
                assert_eq!(t.designation, b"CET".to_vec());
            }
        }
        _ => panic!("expected a variable-offset zone"),
    }
}

#[test]
fn load_decodes_records() {
    let data = tz_bytes(
        &[-1, 50],
        &[1, 0],
        &[(-7200, 0, 0), (3600, 1, 4)],
        b"EST\0EDT\0",
    );
    let zone = TimeZone::from_tz_data(&data).unwrap();
    match zone {
        TimeZone::VariableOffset { transitions } => {
            assert_eq!(transitions.len(), 2);
            // Sorted descending: 50 before -1.
            assert_eq!(transitions[0].timestamp, 50);
            assert_eq!(transitions[0].offset_seconds, -7200);
            assert!(!transitions[0].is_dst);
            assert_eq!(transitions[0].designation, b"EST".to_vec());
            assert_eq!(transitions[1].timestamp, -1);
            assert_eq!(transitions[1].offset_seconds, 3600);
            assert!(transitions[1].is_dst);
            assert_eq!(transitions[1].designation, b"EDT".to_vec());
        }
        _ => panic!("expected a variable-offset zone"),
    }
}

#[test]
fn load_empty_table() {
    let data = tz_bytes(&[], &[], &[], b"");
    let zone = TimeZone::from_tz_data(&data).unwrap();
    match zone {
        TimeZone::VariableOffset { transitions } => assert_eq!(transitions.len(), 0),
        _ => panic!("expected a variable-offset zone"),
    }
}

#[test]
fn load_trailing_bytes_ignored() {
    let mut data = tz_bytes(&[100], &[0], &[(60, 0, 0)], b"X\0");
    data.extend_from_slice(&[9u8; 32]);
    assert!(TimeZone::from_tz_data(&data).is_ok());
}

#[test]
fn load_rejects_short_buffer() {
    let data = vec![0x54, 0x5a, 0x69, 0x66, 0];
    assert_eq!(TimeZone::from_tz_data(&data).unwrap_err(), DecodeError::Truncated);
}

#[test]
fn load_rejects_bad_magic() {
    let mut data = tz_bytes(&[100], &[0], &[(60, 0, 0)], b"X\0");
    data[0] = b'X';
    assert_eq!(TimeZone::from_tz_data(&data).unwrap_err(), DecodeError::BadMagic);
}

#[test]
fn load_rejects_truncated_body() {
    let mut data = tz_bytes(&[100], &[0], &[(60, 0, 0)], b"X\0");
    data.truncate(data.len() - 4);
    assert_eq!(TimeZone::from_tz_data(&data).unwrap_err(), DecodeError::Truncated);
}

#[test]
fn load_rejects_bad_type_index() {
    let data = tz_bytes(&[100], &[7], &[(60, 0, 0)], b"X\0");
    assert_eq!(TimeZone::from_tz_data(&data).unwrap_err(), DecodeError::BadIndex);
}

#[test]
fn load_rejects_bad_designation_index() {
    let data = tz_bytes(&[100], &[0], &[(60, 0, 9)], b"X\0");
    assert_eq!(TimeZone::from_tz_data(&data).unwrap_err(), DecodeError::BadIndex);
}

#[test]
fn load_rejects_unterminated_designation() {
    let data = tz_bytes(&[100], &[0], &[(60, 0, 0)], b"XY");
    assert_eq!(TimeZone::from_tz_data(&data).unwrap_err(), DecodeError::BadIndex);
}
