use contiguous::list::iter::RawValIter;
use contiguous::list::raw_list::RawList;

fn filled(vals: &[i32], cap_steps: usize) -> RawList<i32> {
    let mut buf = RawList::new();
    for _ in 0..cap_steps {
        buf.grow();
    }
    for (i, v) in vals.iter().enumerate() {
        buf.write(i, *v);
    }
    buf
}

#[test]
fn new_buffer_has_no_slot() {
    let buf: RawList<String> = RawList::new();
    assert_eq!(buf.cap(), 0);
}

#[test]
fn grow_goes_from_nothing_to_one_and_then_doubles() {
    let mut buf: RawList<u8> = RawList::new();
    buf.grow();
    assert_eq!(buf.cap(), 1);
    buf.grow();
    assert_eq!(buf.cap(), 2);
    buf.grow();
    assert_eq!(buf.cap(), 4);
    buf.grow();
    assert_eq!(buf.cap(), 8);
    buf.grow();
    assert_eq!(buf.cap(), 16);
}

#[test]
fn grow_keeps_the_slots_in_place() {
    let mut buf = filled(&[10, 20], 2);
    assert_eq!(buf.cap(), 2);
    buf.grow();
    assert_eq!(buf.cap(), 4);
    assert_eq!(*buf.peek(0), 10);
    assert_eq!(*buf.peek(1), 20);
    buf.write(2, 30);
    buf.write(3, 40);
    assert_eq!(*buf.peek(2), 30);
    assert_eq!(*buf.peek(3), 40);
}

#[test]
fn read_moves_the_value_out_and_the_slot_can_be_written_again() {
    let mut buf: RawList<String> = RawList::new();
    buf.grow();
    buf.write(0, String::from("a"));
    assert_eq!(buf.peek(0), "a");
    assert_eq!(buf.read(0), String::from("a"));
    buf.write(0, String::from("b"));
    assert_eq!(buf.read(0), String::from("b"));
}

#[test]
fn peek_mut_changes_the_value_in_place() {
    let mut buf = filled(&[1, 2], 2);
    *buf.peek_mut(1) += 40;
    assert_eq!(*buf.peek(0), 1);
    assert_eq!(*buf.peek(1), 42);
}

#[test]
fn copy_towards_the_end_with_overlap() {
    // [1, 2, 3, _] -> [_, 1, 2, 3]
    let mut buf = filled(&[1, 2, 3], 3);
    assert_eq!(buf.cap(), 4);
    buf.copy(0, 1, 3);
    assert_eq!(*buf.peek(1), 1);
    assert_eq!(*buf.peek(2), 2);
    assert_eq!(*buf.peek(3), 3);
    buf.write(0, 0);
    assert_eq!(*buf.peek(0), 0);
}

#[test]
fn copy_towards_the_front_with_overlap() {
    // [_, 1, 2, 3] -> [1, 2, 3, _]
    let mut buf = filled(&[9, 1, 2, 3], 3);
    assert_eq!(buf.read(0), 9);
    buf.copy(1, 0, 3);
    assert_eq!(*buf.peek(0), 1);
    assert_eq!(*buf.peek(1), 2);
    assert_eq!(*buf.peek(2), 3);
    buf.write(3, 4);
    assert_eq!(*buf.peek(3), 4);
}

#[test]
fn copy_between_disjoint_blocks() {
    // [1, 2, _, _, _, _, _, _] -> [_, _, _, _, _, 1, 2, _]
    let mut buf = filled(&[1, 2], 4);
    assert_eq!(buf.cap(), 8);
    buf.copy(0, 5, 2);
    assert_eq!(*buf.peek(5), 1);
    assert_eq!(*buf.peek(6), 2);
    buf.write(0, 7);
    buf.write(1, 8);
    assert_eq!(*buf.peek(0), 7);
    assert_eq!(*buf.peek(1), 8);
}

#[test]
fn copy_of_nothing_or_onto_itself_changes_nothing() {
    let mut buf = filled(&[1, 2, 3], 3);
    buf.copy(1, 1, 2);
    buf.copy(0, 3, 0);
    assert_eq!(*buf.peek(0), 1);
    assert_eq!(*buf.peek(1), 2);
    assert_eq!(*buf.peek(2), 3);
    buf.write(3, 4);
}

#[test]
fn release_gives_the_slots_back() {
    let mut buf = filled(&[1, 2, 3], 3);
    buf.release();
    assert_eq!(buf.cap(), 0);
    buf.release();
    assert_eq!(buf.cap(), 0);
    buf.grow();
    assert_eq!(buf.cap(), 1);
    buf.write(0, 5);
    assert_eq!(*buf.peek(0), 5);
}

#[test]
fn element_types_of_size_zero_are_stored_like_any_other() {
    let mut buf: RawList<()> = RawList::new();
    buf.grow();
    buf.grow();
    assert_eq!(buf.cap(), 2);
    buf.write(1, ());
    assert_eq!(buf.read(1), ());
}

#[test]
fn cursors_take_values_from_both_ends_of_a_buffer() {
    let mut buf = filled(&[1, 2, 3, 4], 3);
    let mut cursors = RawValIter::new(&buf, 4);
    assert_eq!(cursors.size_hint(&buf), (4, Some(4)));
    assert_eq!(cursors.next(&mut buf), Some(1));
    assert_eq!(cursors.next_back(&mut buf), Some(4));
    assert_eq!(cursors.next_back(&mut buf), Some(3));
    assert_eq!(cursors.size_hint(&buf), (1, Some(1)));
    assert_eq!(cursors.next(&mut buf), Some(2));
    assert_eq!(cursors.size_hint(&buf), (0, Some(0)));
    assert_eq!(cursors.next(&mut buf), None);
    assert_eq!(cursors.next_back(&mut buf), None);
    // every slot has been vacated
    for i in 0..4 {
        buf.write(i, 0);
    }
}

#[test]
fn cursors_vacate_only_the_slot_they_read() {
    // values in slots 0..3, and one more in slot 3 that the cursors do not cover
    let mut buf = filled(&[1, 2, 3, 4], 3);
    let mut cursors = RawValIter::new(&buf, 3);
    assert_eq!(cursors.next(&mut buf), Some(1));
    // slot 0 is vacant now, slots 1..4 hold what they held
    buf.write(0, 10);
    assert_eq!(*buf.peek(1), 2);
    assert_eq!(*buf.peek(2), 3);
    assert_eq!(*buf.peek(3), 4);
    assert_eq!(cursors.next_back(&mut buf), Some(3));
    buf.write(2, 30);
    assert_eq!(*buf.peek(0), 10);
    assert_eq!(*buf.peek(1), 2);
    assert_eq!(*buf.peek(3), 4);
    assert_eq!(cursors.size_hint(&buf), (1, Some(1)));
    assert_eq!(cursors.next_back(&mut buf), Some(2));
    assert_eq!(cursors.next(&mut buf), None);
    assert_eq!(cursors.next_back(&mut buf), None);
    assert_eq!(*buf.peek(0), 10);
    assert_eq!(*buf.peek(2), 30);
    assert_eq!(*buf.peek(3), 4);
}
