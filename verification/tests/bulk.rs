use fixed_collections::RingBuffer;

#[test]
fn clear_empties_the_buffer() {
    let mut ring = RingBuffer::from([1u8, 2, 3]);
    ring.clear();
    assert_eq!(ring.len(), 0);
    assert!(ring.is_empty());
    assert!(ring.pop_front().is_err());
    assert_eq!(
        format!("{:?}", ring),
        "RingBuffer { head: 0, len: 0, buffer: [None, None, None] }"
    );
}

#[test]
fn clear_then_push_behaves_like_a_new_buffer() {
    let mut ring: RingBuffer<u8, 3> = RingBuffer::new();
    ring.push_back(1).unwrap();
    ring.push_back(2).unwrap();
    ring.pop_front().unwrap();
    ring.clear();
    let mut fresh: RingBuffer<u8, 3> = RingBuffer::new();
    for value in [7u8, 8, 9] {
        assert_eq!(ring.push_back(value).unwrap(), fresh.push_back(value).unwrap());
    }
    assert!(ring.push_back(10).is_err());
    assert!(fresh.push_back(10).is_err());
    while !fresh.is_empty() {
        assert_eq!(ring.pop_front().unwrap(), fresh.pop_front().unwrap());
    }
    assert!(ring.is_empty());
}

#[test]
fn clear_of_an_empty_buffer_changes_nothing() {
    let mut ring: RingBuffer<u8, 2> = RingBuffer::new();
    ring.clear();
    assert!(ring.is_empty());
    assert_eq!(ring.push_front(1).unwrap(), 1);
}

#[test]
fn clear_drops_every_element() {
    let shared = std::rc::Rc::new(0u8);
    let mut ring: RingBuffer<std::rc::Rc<u8>, 4> = RingBuffer::new();
    ring.push_back(shared.clone()).unwrap();
    ring.push_front(shared.clone()).unwrap();
    ring.push_back(shared.clone()).unwrap();
    assert_eq!(std::rc::Rc::strong_count(&shared), 4);
    ring.clear();
    assert_eq!(std::rc::Rc::strong_count(&shared), 1);
}

#[test]
fn clear_passes_over_vacant_slots() {
    let mut ring: RingBuffer<u8, 3> = RingBuffer::from([None, Some(2u8), None]);
    ring.clear();
    assert!(ring.is_empty());
    assert_eq!(ring.push_back(1).unwrap(), 1);
    assert_eq!(ring.pop_front().unwrap(), 1);
}

#[test]
fn append_moves_everything_in_order() {
    let mut ring: RingBuffer<u8, 5> = RingBuffer::new();
    ring.push_back(1).unwrap();
    ring.push_back(2).unwrap();
    let mut other = RingBuffer::from([3u8, 4, 5]);
    assert_eq!(ring.append(&mut other), Ok(3));
    assert_eq!(ring.len(), 5);
    assert!(other.is_empty());
    assert_eq!(other.len(), 0);
    for expected in 1..=5u8 {
        assert_eq!(ring.pop_front().unwrap(), expected);
    }
    assert!(ring.is_empty());
}

#[test]
fn append_that_does_not_fit_changes_nothing() {
    let mut ring: RingBuffer<u8, 3> = RingBuffer::new();
    ring.push_back(1).unwrap();
    ring.push_back(2).unwrap();
    let mut other: RingBuffer<u8, 4> = RingBuffer::new();
    other.push_back(3).unwrap();
    other.push_back(4).unwrap();
    let ring_before = format!("{:?}", ring);
    let other_before = format!("{:?}", other);
    assert_eq!(ring.append(&mut other), Err(()));
    assert_eq!(format!("{:?}", ring), ring_before);
    assert_eq!(format!("{:?}", other), other_before);
    assert_eq!(ring.len(), 2);
    assert_eq!(other.len(), 2);
    assert_eq!(ring.pop_front().unwrap(), 1);
    assert_eq!(ring.pop_front().unwrap(), 2);
    assert_eq!(other.pop_front().unwrap(), 3);
    assert_eq!(other.pop_front().unwrap(), 4);
}

#[test]
fn append_fills_the_free_slots_exactly() {
    let mut ring: RingBuffer<u8, 3> = RingBuffer::new();
    ring.push_back(1).unwrap();
    let mut other = RingBuffer::from([2u8, 3]);
    assert_eq!(ring.append(&mut other), Ok(2));
    assert!(ring.is_full());
    assert!(other.is_empty());
}

#[test]
fn append_of_an_empty_buffer_moves_nothing() {
    let mut ring = RingBuffer::from([1u8, 2]);
    let mut other: RingBuffer<u8, 7> = RingBuffer::new();
    assert_eq!(ring.append(&mut other), Ok(0));
    assert_eq!(ring.len(), 2);
    assert!(other.is_empty());
}

#[test]
fn append_across_the_end_of_both_storages() {
    let mut ring: RingBuffer<u8, 4> = RingBuffer::new();
    ring.push_front(1).unwrap();
    let mut other: RingBuffer<u8, 3> = RingBuffer::new();
    other.push_front(3).unwrap();
    other.push_front(2).unwrap();
    other.push_back(4).unwrap();
    assert_eq!(ring.append(&mut other), Ok(3));
    assert_eq!(
        format!("{:?}", other),
        "RingBuffer { head: 1, len: 0, buffer: [None, None, None] }"
    );
    assert_eq!(ring.pop_front().unwrap(), 1);
    assert_eq!(ring.pop_front().unwrap(), 2);
    assert_eq!(ring.pop_front().unwrap(), 3);
    assert_eq!(ring.pop_front().unwrap(), 4);
}

#[test]
fn append_moves_vacant_slots_as_they_are() {
    let mut ring: RingBuffer<u8, 4> = RingBuffer::new();
    ring.push_back(1).unwrap();
    let mut other: RingBuffer<u8, 3> = RingBuffer::from([Some(2u8), None, Some(4)]);
    assert_eq!(ring.append(&mut other), Ok(3));
    assert!(ring.is_full());
    assert!(other.is_empty());
    assert_eq!(ring.get(0), Some(&1));
    assert_eq!(ring.get(1), Some(&2));
    assert_eq!(ring.get(2), None);
    assert_eq!(ring.get(3), Some(&4));
}

#[test]
fn append_hands_the_values_over() {
    let shared = std::rc::Rc::new(0u8);
    let mut ring: RingBuffer<std::rc::Rc<u8>, 2> = RingBuffer::new();
    let mut other = RingBuffer::from([shared.clone(), shared.clone()]);
    assert_eq!(ring.append(&mut other), Ok(2));
    assert_eq!(std::rc::Rc::strong_count(&shared), 3);
    drop(other);
    assert_eq!(std::rc::Rc::strong_count(&shared), 3);
    drop(ring);
    assert_eq!(std::rc::Rc::strong_count(&shared), 1);
}
