use dp_regression::loader::{check_layout, LoadError, PairView, RECORD_ALIGNMENT, RECORD_SIZE};

fn buffer(pairs: &[(i64, i64)]) -> Vec<u8> {
    let mut bytes = Vec::new();
    for (x, y) in pairs {
        bytes.extend_from_slice(&x.to_le_bytes());
        bytes.extend_from_slice(&y.to_le_bytes());
    }
    bytes
}

#[test]
fn record_layout() {
    assert_eq!(RECORD_SIZE, 16);
    assert_eq!(RECORD_ALIGNMENT, 8);
}

#[test]
fn check_layout_accepts_an_exact_aligned_buffer() {
    assert_eq!(check_layout(22400, 1024, 1400), Ok(()));
    assert_eq!(check_layout(0, 0, 0), Ok(()));
    assert_eq!(check_layout(16, 8, 1), Ok(()));
}

#[test]
fn check_layout_refuses_a_ragged_length() {
    assert_eq!(check_layout(22399, 1024, 1400), Err(LoadError::LengthMismatch));
    assert_eq!(check_layout(17, 1024, 1), Err(LoadError::LengthMismatch));
    assert_eq!(check_layout(8, 1024, 0), Err(LoadError::LengthMismatch));
}

#[test]
fn check_layout_refuses_another_number_of_records() {
    assert_eq!(check_layout(22400, 1024, 1399), Err(LoadError::LengthMismatch));
    assert_eq!(check_layout(32, 1024, 3), Err(LoadError::LengthMismatch));
    assert_eq!(check_layout(0, 1024, usize::MAX), Err(LoadError::LengthMismatch));
}

#[test]
fn check_layout_refuses_a_misaligned_address() {
    assert_eq!(check_layout(22400, 1028, 1400), Err(LoadError::Misaligned));
    assert_eq!(check_layout(16, 1, 1), Err(LoadError::Misaligned));
    assert_eq!(check_layout(16, usize::MAX, 1), Err(LoadError::Misaligned));
}

#[test]
fn check_layout_looks_at_the_length_first() {
    assert_eq!(check_layout(15, 3, 1), Err(LoadError::LengthMismatch));
}

#[test]
fn view_reads_records_in_place() {
    let pairs = [(10000, 20000), (-1, 1), (i64::MIN, i64::MAX), (0, -20000)];
    let bytes = buffer(&pairs);
    let view = PairView::new(&bytes, 4096, 4).unwrap();
    assert_eq!(view.len(), 4);
    for (index, pair) in pairs.iter().enumerate() {
        assert_eq!(view.get(index), *pair);
    }
}

#[test]
fn view_decodes_least_significant_byte_first() {
    let bytes: [u8; 16] = [0x01, 0x02, 0, 0, 0, 0, 0, 0, 0xfe, 0xff, 0xff, 0xff, 0xff, 0xff, 0xff, 0xff];
    let view = PairView::new(&bytes, 0, 1).unwrap();
    assert_eq!(view.get(0), (0x0201, -2));
}

#[test]
fn view_of_an_empty_buffer() {
    let bytes: [u8; 0] = [];
    let view = PairView::new(&bytes, 64, 0).unwrap();
    assert_eq!(view.len(), 0);
}

#[test]
fn view_refuses_a_bad_buffer() {
    let bytes = buffer(&[(1, 2), (3, 4)]);
    assert!(matches!(PairView::new(&bytes[..31], 64, 2), Err(LoadError::LengthMismatch)));
    assert!(matches!(PairView::new(&bytes, 64, 3), Err(LoadError::LengthMismatch)));
    assert!(matches!(PairView::new(&bytes, 66, 2), Err(LoadError::Misaligned)));
    assert!(matches!(PairView::new(&bytes[1..], 65, 2), Err(LoadError::LengthMismatch)));
}
