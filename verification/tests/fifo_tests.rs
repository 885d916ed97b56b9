use hvcore::fifo::Fifo;

#[test]
fn new_fifo_is_empty_and_not_full() {
    let fifo = Fifo::<32>::new();
    assert!(fifo.is_empty());
    assert!(!fifo.is_full());
}

#[test]
fn bytes_come_out_in_the_order_they_went_in() {
    let mut fifo = Fifo::<32>::new();
    for b in 0..32u8 {
        assert!(!fifo.is_full());
        fifo.push(b.wrapping_mul(7));
    }
    assert!(fifo.is_full());
    for b in 0..32u8 {
        assert!(!fifo.is_empty());
        assert_eq!(fifo.pop(), b.wrapping_mul(7));
    }
    assert!(fifo.is_empty());
}

#[test]
fn order_holds_across_the_end_of_the_buffer() {
    let mut fifo = Fifo::<4>::new();
    fifo.push(1);
    fifo.push(2);
    fifo.push(3);
    assert_eq!(fifo.pop(), 1);
    assert_eq!(fifo.pop(), 2);
    fifo.push(4);
    fifo.push(5);
    fifo.push(6);
    assert!(fifo.is_full());
    assert_eq!(fifo.pop(), 3);
    assert_eq!(fifo.pop(), 4);
    assert_eq!(fifo.pop(), 5);
    assert_eq!(fifo.pop(), 6);
    assert!(fifo.is_empty());
}

#[test]
fn fifo_of_one_byte() {
    let mut fifo = Fifo::<1>::new();
    for round in 0..5u8 {
        fifo.push(round);
        assert!(fifo.is_full());
        assert_eq!(fifo.pop(), round);
        assert!(fifo.is_empty());
    }
}

#[test]
fn fifo_without_room_is_empty_and_full() {
    let fifo = Fifo::<0>::new();
    assert!(fifo.is_empty());
    assert!(fifo.is_full());
}
