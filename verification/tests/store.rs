use scull::ScullDevData;
use scull::ScullError;

const ITEM_SPAN: u64 = 4000 * 1000;

#[test]
fn round_trip_small_write() {
    let mut s = ScullDevData::new();
    let data = b"hello".to_vec();
    assert_eq!(s.write(0, &data), Ok(5));
    assert_eq!(s.read(0, 5), Ok(data));
}

#[test]
fn round_trip_mid_quantum() {
    let mut s = ScullDevData::new();
    let data = vec![1u8, 2, 3, 4, 5, 6, 7];
    assert_eq!(s.write(1234, &data), Ok(7));
    assert_eq!(s.read(1234, 7), Ok(data));
}

#[test]
fn reset_clears_store() {
    let mut s = ScullDevData::new();
    assert_eq!(s.write(0, &b"abc".to_vec()), Ok(3));
    assert_eq!(s.write(ITEM_SPAN, &b"def".to_vec()), Ok(3));
    s.reset();
    assert_eq!(s.logical_size(), 0);
    assert_eq!(s.chain_nodes(), 0);
    assert_eq!(s.read(0, 1), Ok(Vec::new()));
}

#[test]
fn write_clamped_at_quantum_boundary() {
    let mut s = ScullDevData::new();
    let big = vec![0xABu8; 10000];
    assert_eq!(s.write(0, &big), Ok(4000));
    assert_eq!(s.logical_size(), 4000);
    // Starting one byte before the quantum's end, only one byte fits.
    let two = vec![1u8, 2];
    assert_eq!(s.write(3999, &two), Ok(1));
    assert_eq!(s.read(3999, 2), Ok(vec![1u8]));
}

#[test]
fn read_past_logical_size_no_allocation() {
    let mut s = ScullDevData::new();
    assert_eq!(s.read(0, 1), Ok(Vec::new()));
    assert_eq!(s.chain_nodes(), 0);
    assert_eq!(s.write(0, &b"xy".to_vec()), Ok(2));
    let nodes = s.chain_nodes();
    assert_eq!(s.read(2, 10), Ok(Vec::new()));
    assert_eq!(s.read(7_000_000_000, 10), Ok(Vec::new()));
    assert_eq!(s.chain_nodes(), nodes);
}

#[test]
fn hole_in_item_one_reads_empty() {
    let mut s = ScullDevData::new();
    // Write only into slot 1 of item 1; slot 0 of item 1 stays a hole.
    assert_eq!(s.write(ITEM_SPAN + 4000, &b"Z".to_vec()), Ok(1));
    assert_eq!(s.logical_size(), ITEM_SPAN + 4001);
    assert!(ITEM_SPAN < s.logical_size());
    assert_eq!(s.read(ITEM_SPAN, 1), Ok(Vec::new()));
}

#[test]
fn defaults_scenario() {
    let mut s = ScullDevData::new();
    assert_eq!(s.quantum_size(), 4000);
    assert_eq!(s.qset_capacity(), 1000);
    assert_eq!(s.write(0, &b"hello".to_vec()), Ok(5));
    assert_eq!(s.logical_size(), 5);
    assert_eq!(s.read(0, 100), Ok(b"hello".to_vec()));
    assert_eq!(s.read(5, 100), Ok(Vec::new()));
    assert_eq!(s.write(4000, &b"X".to_vec()), Ok(1));
    assert_eq!(s.read(4000, 1), Ok(b"X".to_vec()));
    s.reset();
    assert_eq!(s.read(0, 1), Ok(Vec::new()));
}

#[test]
fn reset_twice_equals_once() {
    let mut s = ScullDevData::new();
    assert_eq!(s.write(123, &b"payload".to_vec()), Ok(7));
    s.reset();
    let size1 = s.logical_size();
    let nodes1 = s.chain_nodes();
    let q1 = s.quantum_size();
    let c1 = s.qset_capacity();
    let r1 = s.read(0, 1);
    s.reset();
    assert_eq!(s.logical_size(), size1);
    assert_eq!(s.chain_nodes(), nodes1);
    assert_eq!(s.quantum_size(), q1);
    assert_eq!(s.qset_capacity(), c1);
    assert_eq!(s.read(0, 1), r1);
}

#[test]
fn configure_zero_rejected() {
    let mut s = ScullDevData::new();
    assert_eq!(s.configure(0, 10), Err(ScullError::ConfigurationError));
    assert_eq!(s.configure(10, 0), Err(ScullError::ConfigurationError));
    // The store is still usable with its defaults.
    assert_eq!(s.quantum_size(), 4000);
    assert_eq!(s.qset_capacity(), 1000);
    assert_eq!(s.write(0, &b"ok".to_vec()), Ok(2));
}

#[test]
fn configure_small_quantum() {
    let mut s = ScullDevData::new();
    assert_eq!(s.configure(8, 4), Ok(()));
    let data = vec![9u8; 10];
    assert_eq!(s.write(0, &data), Ok(8));
    assert_eq!(s.read(0, 10), Ok(vec![9u8; 8]));
    // Offset 8 is slot 1 of item 0 under this configuration.
    assert_eq!(s.write(8, &b"Q".to_vec()), Ok(1));
    assert_eq!(s.read(8, 1), Ok(b"Q".to_vec()));
}

#[test]
fn command_zero_resets() {
    let mut s = ScullDevData::new();
    assert_eq!(s.write(0, &b"data".to_vec()), Ok(4));
    assert_eq!(s.command(0), Ok(0));
    assert_eq!(s.logical_size(), 0);
    assert_eq!(s.read(0, 1), Ok(Vec::new()));
}

#[test]
fn command_unknown_rejected() {
    let mut s = ScullDevData::new();
    assert_eq!(s.write(0, &b"data".to_vec()), Ok(4));
    assert_eq!(s.command(7), Err(ScullError::UnsupportedCommand));
    // Nothing changed.
    assert_eq!(s.logical_size(), 4);
    assert_eq!(s.read(0, 4), Ok(b"data".to_vec()));
}

#[test]
fn overwrite_within_quantum() {
    let mut s = ScullDevData::new();
    assert_eq!(s.write(0, &vec![1u8, 2, 3]), Ok(3));
    assert_eq!(s.write(1, &vec![9u8, 9]), Ok(2));
    assert_eq!(s.read(0, 3), Ok(vec![1u8, 9, 9]));
}

#[test]
fn zero_fill_within_allocated_quantum() {
    let mut s = ScullDevData::new();
    // The write materializes the whole quantum zero-initialized; the bytes
    // below the written range read back as zeros (they are below the
    // logical size and share the allocated quantum).
    assert_eq!(s.write(2, &vec![7u8]), Ok(1));
    assert_eq!(s.logical_size(), 3);
    assert_eq!(s.read(0, 3), Ok(vec![0u8, 0, 7]));
}

#[test]
fn read_clamped_by_logical_size() {
    let mut s = ScullDevData::new();
    assert_eq!(s.write(0, &b"hello".to_vec()), Ok(5));
    assert_eq!(s.read(2, 100), Ok(b"llo".to_vec()));
}

#[test]
fn chain_grows_contiguously() {
    let mut s = ScullDevData::new();
    assert_eq!(s.write(2 * ITEM_SPAN, &b"far".to_vec()), Ok(3));
    // Reaching item 2 allocates nodes 0 and 1 on the way (unallocated rows).
    assert_eq!(s.chain_nodes(), 3);
    // Their items read as holes.
    assert_eq!(s.read(0, 1), Ok(Vec::new()));
    assert_eq!(s.read(ITEM_SPAN, 1), Ok(Vec::new()));
    assert_eq!(s.read(2 * ITEM_SPAN, 3), Ok(b"far".to_vec()));
}
