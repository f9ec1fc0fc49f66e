use hyprhalo::shm::{pool_layout, BufferSlots, PIXEL};

#[test]
fn pool_is_sliced_into_equal_buffers() {
    let l = pool_layout(100, 50, 2);
    assert_eq!(PIXEL, 4);
    assert_eq!(l.stride, 400);
    assert_eq!(l.buf_size, 400 * 50);
    assert_eq!(l.pool_size, 2 * 400 * 50);
    assert_eq!(l.offsets, vec![0, 20000]);
    let one = pool_layout(3, 3, 1);
    assert_eq!(one.offsets, vec![0]);
    assert!(pool_layout(10, 10, 0).offsets.is_empty());
}

#[test]
fn fresh_slots_are_all_released() {
    let s = BufferSlots::new(vec![7, 8]);
    assert_eq!(s.current, 0);
    assert_eq!(s.released, vec![true, true]);
    assert_eq!(s.ids, vec![7, 8]);
}

#[test]
fn double_buffering_alternates() {
    let mut s = BufferSlots::new(vec![7, 8]);
    // the slot after the current one (0) is slot 1
    assert_eq!(s.next_writeable(), Some(1));
    assert_eq!(s.released, vec![true, false]);
    assert_eq!(s.next_writeable(), Some(0));
    assert_eq!(s.released, vec![false, false]);
    // both held by the compositor: wait
    assert_eq!(s.next_writeable(), None);
    assert_eq!(s.current, 0);
}

#[test]
fn release_then_write() {
    let mut s = BufferSlots::new(vec![7, 8]);
    assert_eq!(s.next_writeable(), Some(1));
    assert_eq!(s.next_writeable(), Some(0));
    assert_eq!(s.next_writeable(), None);
    // the compositor lets go of buffer 8 (slot 1), the next one
    s.mark_released(8);
    assert_eq!(s.released, vec![false, true]);
    assert_eq!(s.next_writeable(), Some(1));
    // buffer 7 comes back too: slot 0 is next
    s.mark_released(7);
    assert_eq!(s.next_writeable(), Some(0));
}

#[test]
fn unknown_buffers_change_nothing() {
    let mut s = BufferSlots::new(vec![7, 8]);
    s.next_writeable();
    s.mark_released(99);
    assert_eq!(s.released, vec![true, false]);
}

#[test]
fn single_buffer_waits_for_its_release() {
    let mut s = BufferSlots::new(vec![3]);
    assert_eq!(s.next_writeable(), Some(0));
    assert_eq!(s.next_writeable(), None);
    s.mark_released(3);
    assert_eq!(s.next_writeable(), Some(0));
}
