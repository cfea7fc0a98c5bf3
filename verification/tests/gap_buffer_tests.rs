use gap_buffer::gap::GapBuffer;
use std::cell::Cell;
use std::rc::Rc;

fn chars_of(s: &str) -> Vec<char> {
    s.chars().collect()
}

fn read_back(buf: &GapBuffer<char>) -> String {
    let mut out = String::new();
    for i in 0..buf.len() {
        out.push(*buf.get(i).unwrap());
    }
    out
}

#[test]
fn scenario_insert_then_edit_mid_buffer() {
    let mut buf = GapBuffer::new();
    buf.insert_iter(chars_of("Lord of the Rings"));
    buf.set_position(12);
    buf.insert_iter(chars_of("Onion "));
    assert_eq!(read_back(&buf), "Lord of the Onion Rings");
    assert_eq!(buf.position(), 18);
}

#[test]
fn scenario_remove_consumes_suffix_in_order() {
    let mut buf = GapBuffer::new();
    buf.insert_iter(chars_of("Lord of the Rings"));
    buf.set_position(12);
    buf.insert_iter(chars_of("Onion "));
    assert_eq!(buf.remove(), Some('R'));
    assert_eq!(buf.remove(), Some('i'));
    assert_eq!(buf.remove(), Some('n'));
    assert_eq!(buf.remove(), Some('g'));
    assert_eq!(buf.remove(), Some('s'));
    assert_eq!(read_back(&buf), "Lord of the Onion ");
}

#[test]
fn scenario_get_at_cursor_and_len_absent_at_end() {
    let mut buf = GapBuffer::new();
    buf.insert_iter(chars_of("Lord of the Rings"));
    buf.set_position(12);
    buf.insert_iter(chars_of("Onion "));
    for _ in 0..5 {
        buf.remove();
    }
    assert_eq!(buf.get(buf.position()), None);
    assert_eq!(buf.get(buf.len()), None);
    assert_eq!(buf.remove(), None);
}

#[test]
fn scenario_growth_from_zero_to_four_to_eight() {
    let mut buf = GapBuffer::new();
    assert_eq!(buf.capacity(), 0);
    buf.insert('a');
    assert_eq!(buf.capacity(), 4);
    buf.insert('b');
    buf.insert('c');
    buf.insert('d');
    assert_eq!(buf.capacity(), 4);
    buf.insert('e');
    assert_eq!(buf.capacity(), 8);
    assert_eq!(read_back(&buf), "abcde");
}

#[test]
fn length_tracks_net_edits() {
    let mut buf = GapBuffer::new();
    assert_eq!(buf.len(), 0);
    buf.insert(1u32);
    buf.insert(2u32);
    buf.insert(3u32);
    assert_eq!(buf.len(), 3);
    buf.set_position(1);
    assert_eq!(buf.remove(), Some(2u32));
    assert_eq!(buf.len(), 2);
    assert_eq!(buf.remove(), Some(3u32));
    assert_eq!(buf.len(), 1);
    // The cursor now sits at the end: this removal fails and costs nothing.
    assert_eq!(buf.remove(), None);
    assert_eq!(buf.len(), 1);
    buf.insert(4u32);
    assert_eq!(buf.len(), 2);
}

#[test]
fn cursor_lands_where_asked_and_content_stays() {
    let mut buf = GapBuffer::new();
    buf.insert_iter(chars_of("abcdef"));
    for pos in [0, 6, 3, 3, 1, 5] {
        buf.set_position(pos);
        assert_eq!(buf.position(), pos);
        assert_eq!(read_back(&buf), "abcdef");
    }
}

#[test]
fn every_index_reads_the_logical_order() {
    let mut buf = GapBuffer::new();
    buf.insert_iter(vec![10u32, 20, 30, 40]);
    buf.set_position(2);
    buf.insert_iter(vec![25u32]);
    let expected = [10u32, 20, 25, 30, 40];
    assert_eq!(buf.len(), expected.len());
    for (i, want) in expected.iter().enumerate() {
        assert_eq!(buf.get(i), Some(want));
    }
    assert_eq!(buf.get(expected.len()), None);
}

#[test]
fn growth_never_loses_duplicates_or_reorders() {
    let mut buf = GapBuffer::new();
    let mut caps = Vec::new();
    for i in 0..20u32 {
        buf.insert(i);
        caps.push(buf.capacity());
    }
    // Past-capacity insertions grew the buffer several times ...
    assert!(buf.capacity() >= 20);
    // ... the capacity never decreased ...
    for w in caps.windows(2) {
        assert!(w[0] <= w[1]);
    }
    // ... and every element is still there, once, in insertion order.
    for i in 0..20u32 {
        assert_eq!(buf.get(i as usize), Some(&i));
    }
    assert_eq!(buf.len(), 20);
}

#[test]
fn empty_buffer_observers() {
    let buf: GapBuffer<char> = GapBuffer::new();
    assert_eq!(buf.len(), 0);
    assert_eq!(buf.capacity(), 0);
    assert_eq!(buf.position(), 0);
    assert_eq!(buf.get(0), None);
}

#[test]
fn insert_iter_of_nothing_changes_nothing() {
    let mut buf = GapBuffer::new();
    buf.insert_iter(chars_of("xy"));
    buf.insert_iter(Vec::new());
    assert_eq!(buf.len(), 2);
    assert_eq!(buf.position(), 2);
    assert_eq!(read_back(&buf), "xy");
}

/// An element that counts, in a shared tally, how many times it is released.
struct Counted {
    tally: Rc<Cell<usize>>,
}

impl Drop for Counted {
    fn drop(&mut self) {
        self.tally.set(self.tally.get() + 1);
    }
}

#[test]
fn destruction_releases_every_element_exactly_once() {
    let tally = Rc::new(Cell::new(0usize));
    {
        let mut buf = GapBuffer::new();
        // Ten insertions force several growths (0 -> 4 -> 8 -> 16) ...
        for _ in 0..10 {
            buf.insert(Counted { tally: Rc::clone(&tally) });
        }
        // ... and cursor moves slide elements across the gap.
        buf.set_position(2);
        buf.set_position(9);
        buf.set_position(0);
        assert_eq!(tally.get(), 0);
        // Elements consumed by `remove` are released by their new owner.
        let taken = buf.remove();
        drop(taken);
        assert_eq!(tally.get(), 1);
        // Dropping the buffer releases exactly the nine still inside.
    }
    assert_eq!(tally.get(), 10);
}
