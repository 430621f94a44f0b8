use fixed_collections::RingBuffer;

#[test]
fn new_buffer_is_empty() {
    let ring: RingBuffer<u32, 16> = RingBuffer::new();
    assert!(ring.is_empty());
    assert!(!ring.is_full());
    assert_eq!(ring.len(), 0);
}

#[test]
fn new_buffer_has_every_slot_vacant() {
    let ring: RingBuffer<u8, 3> = RingBuffer::new();
    assert_eq!(
        format!("{:?}", ring),
        "RingBuffer { head: 0, len: 0, buffer: [None, None, None] }"
    );
}

#[test]
fn new_buffer_of_a_type_that_cannot_be_copied() {
    let mut ring: RingBuffer<String, 2> = RingBuffer::new();
    assert_eq!(ring.push_back(String::from("left")).unwrap(), 1);
    assert_eq!(ring.push_back(String::from("right")).unwrap(), 2);
    assert_eq!(ring.pop_front().unwrap(), "left");
    assert_eq!(ring.pop_front().unwrap(), "right");
}

#[test]
fn default_buffer_is_empty_and_holds_sixteen() {
    let mut ring: RingBuffer<u32, 16> = RingBuffer::default();
    assert!(ring.is_empty());
    for value in 0..16u32 {
        assert_eq!(ring.push_back(value).unwrap(), value as usize + 1);
    }
    assert!(ring.is_full());
    assert!(ring.push_back(16).is_err());
    assert_eq!(ring.len(), 16);
}

#[test]
fn from_values_is_full_and_keeps_the_order() {
    let mut ring = RingBuffer::from([10u8, 20, 30]);
    assert!(ring.is_full());
    assert_eq!(ring.len(), 3);
    assert_eq!(
        format!("{:?}", ring),
        "RingBuffer { head: 0, len: 3, buffer: [Some(10), Some(20), Some(30)] }"
    );
    assert!(ring.push_back(40).is_err());
    assert_eq!(ring.pop_front().unwrap(), 10);
    assert_eq!(ring.pop_front().unwrap(), 20);
    assert_eq!(ring.pop_front().unwrap(), 30);
    assert!(ring.is_empty());
}

#[test]
fn from_values_wraps_each_value_once() {
    let ring = RingBuffer::from([Some(1u8), None]);
    assert_eq!(ring.get(0), Some(&1));
    assert_eq!(ring.get(1), None);
    let nested: RingBuffer<Option<u8>, 2> = RingBuffer::from([Some(1u8), None]);
    assert_eq!(nested.get(0), Some(&Some(1)));
    assert_eq!(nested.get(1), Some(&None));
}

#[test]
fn from_slots_takes_them_as_they_are() {
    let ring: RingBuffer<u8, 4> = RingBuffer::from([Some(1u8), None, Some(3), None]);
    assert!(ring.is_full());
    assert_eq!(ring.len(), 4);
    assert_eq!(
        format!("{:?}", ring),
        "RingBuffer { head: 0, len: 4, buffer: [Some(1), None, Some(3), None] }"
    );
}

#[test]
fn from_slots_counts_vacant_slots_as_in_use() {
    let mut ring: RingBuffer<u8, 3> = RingBuffer::from([Some(1u8), None, Some(3)]);
    assert!(ring.push_back(4).is_err());
    assert!(ring.push_front(0).is_err());
    assert_eq!(ring.pop_front().unwrap(), 1);
    assert_eq!(ring.pop_back().unwrap(), 3);
    assert_eq!(ring.len(), 1);
    assert!(!ring.is_empty());
    assert_eq!(ring.get(0), None);
}

#[test]
fn into_builds_the_same_buffer_as_from() {
    let ring: RingBuffer<u8, 2> = [5u8, 6].into();
    assert_eq!(
        format!("{:?}", ring),
        format!("{:?}", RingBuffer::from([5u8, 6]))
    );
}

#[test]
fn buffer_without_slots_is_empty_and_full() {
    let mut ring: RingBuffer<u8, 0> = RingBuffer::new();
    assert!(ring.is_empty());
    assert!(ring.is_full());
    assert_eq!(ring.len(), 0);
    assert!(ring.push_back(1).is_err());
    assert!(ring.push_front(1).is_err());
    assert!(ring.pop_front().is_err());
    assert!(ring.pop_back().is_err());
    ring.clear();
    assert_eq!(format!("{:?}", ring), "RingBuffer { head: 0, len: 0, buffer: [] }");
    let empty: [u8; 0] = [];
    let built = RingBuffer::from(empty);
    assert!(built.is_empty());
}
