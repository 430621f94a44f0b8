use fixed_collections::{EmptyCollectionError, FullCollectionError, RingBuffer};

#[test]
fn empty_collection_error_shows_its_name() {
    assert_eq!(EmptyCollectionError.to_string(), "EmptyCollectionError");
    assert_eq!(format!("{:?}", EmptyCollectionError), "EmptyCollectionError");
}

#[test]
fn full_collection_error_shows_its_name() {
    assert_eq!(FullCollectionError.to_string(), "FullCollectionError");
    assert_eq!(format!("{:?}", FullCollectionError), "FullCollectionError");
}

#[test]
fn empty_buffer_reports_the_empty_error() {
    let mut ring: RingBuffer<u8, 2> = RingBuffer::new();
    let error = ring.pop_front().unwrap_err();
    assert_eq!(error.to_string(), "EmptyCollectionError");
    let error = ring.pop_back().unwrap_err();
    assert_eq!(error.to_string(), "EmptyCollectionError");
}

#[test]
fn full_buffer_reports_the_full_error() {
    let mut ring = RingBuffer::from([1u8, 2]);
    let error = ring.push_back(3).unwrap_err();
    assert_eq!(error.to_string(), "FullCollectionError");
    let error = ring.push_front(0).unwrap_err();
    assert_eq!(error.to_string(), "FullCollectionError");
}
