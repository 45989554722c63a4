use db_link::fifo::{Error, Fifo};

#[test]
fn test_simple_write() {
    let mut buffer = [0u8; 20];
    let mut fifo = Fifo::new(&mut buffer);
    assert_eq!(fifo.len(), 0);
    fifo.write(&[0xF1]).unwrap();
    assert_eq!(fifo.len(), 1);
    let b = fifo.read().unwrap();
    assert_eq!(b, 0xF1);
    assert_eq!(fifo.read(), None);
}

/// we can't fill the buffer due to full check being head == tail so full - 1
#[test]
fn test_full() {
    let mut buffer = [0u8; 20];
    let write_buffer = [11u8; 19];
    let mut read_buffer = [0u8; 19];

    let mut fifo = Fifo::new(&mut buffer);
    fifo.write(&write_buffer).unwrap();
    assert_eq!(fifo.len(), 19);
    assert_eq!(fifo.read_to_buffer(&mut read_buffer), 19);
    assert_eq!(read_buffer, write_buffer);
}

#[test]
fn test_overflow() {
    let mut buffer = [0u8; 20];
    let write_buffer = [11u8; 20];

    let mut fifo = Fifo::new(&mut buffer);
    assert_eq!(fifo.write(&write_buffer), Err(Error::OutOfSpace));
}

#[test]
fn test_wrap_around() {
    let mut buffer = [0u8; 20];
    let mut read_buffer = [0u8; 19];
    let mut fifo = Fifo::new(&mut buffer);
    fifo.write(&[1]).unwrap();

    let b = fifo.read().unwrap();
    assert_eq!(b, 1);
    assert_eq!(fifo.read(), None);

    fifo.write(&[2; 19]).unwrap();
    assert_eq!(fifo.len(), 19);
    assert_eq!(fifo.read_to_buffer(&mut read_buffer), 19);
    assert_eq!(read_buffer, [2; 19]);
}

#[test]
fn fill_to_size_then_one_more_fails() {
    let buffer = [0u8; 8];
    let mut fifo = Fifo::new(&buffer);
    assert_eq!(fifo.size(), 7);
    assert_eq!(fifo.write(&[1, 2, 3, 4, 5, 6, 7]), Ok(()));
    assert_eq!(fifo.remaining(), 0);
    assert_eq!(fifo.write(&[8]), Err(Error::OutOfSpace));
    assert_eq!(fifo.len(), 7);
    assert_eq!(fifo.read(), Some(1));
    assert_eq!(fifo.write(&[8]), Ok(()));
    assert_eq!(fifo.write(&[9]), Err(Error::OutOfSpace));
}

#[test]
fn failed_write_leaves_contents() {
    let buffer = [0u8; 5];
    let mut fifo = Fifo::new(&buffer);
    fifo.write(&[1, 2]).unwrap();
    assert_eq!(fifo.write(&[3, 4, 5]), Err(Error::OutOfSpace));
    assert_eq!(fifo.len(), 2);
    assert_eq!(fifo.read(), Some(1));
    assert_eq!(fifo.read(), Some(2));
    assert_eq!(fifo.read(), None);
}

#[test]
fn len_and_remaining_add_up_to_size() {
    let buffer = [0u8; 6];
    let mut fifo = Fifo::new(&buffer);
    let mut next = 0u8;
    for round in 0..12 {
        let n = round % 4;
        let chunk: Vec<u8> = (0..n).map(|k| next.wrapping_add(k)).collect();
        if fifo.write(&chunk).is_ok() {
            next = next.wrapping_add(n);
        }
        assert_eq!(fifo.len() + fifo.remaining(), fifo.size());
        if round % 3 == 0 {
            fifo.read();
        }
        assert_eq!(fifo.len() + fifo.remaining(), fifo.size());
    }
}

#[test]
fn order_is_kept_across_the_wrap() {
    let buffer = [0u8; 4];
    let mut fifo = Fifo::new(&buffer);
    fifo.write(&[1, 2]).unwrap();
    assert_eq!(fifo.read(), Some(1));
    assert_eq!(fifo.read(), Some(2));
    fifo.write(&[3, 4, 5]).unwrap();
    assert_eq!(fifo.peek(), Some(3));
    assert_eq!(fifo.read(), Some(3));
    assert_eq!(fifo.read(), Some(4));
    assert_eq!(fifo.read(), Some(5));
    assert_eq!(fifo.peek(), None);
}

#[test]
fn read_to_buffer_stops_when_empty() {
    let buffer = [0u8; 10];
    let mut fifo = Fifo::new(&buffer);
    fifo.write(&[7, 8, 9]).unwrap();
    let mut out = [0u8; 5];
    assert_eq!(fifo.read_to_buffer(&mut out), 3);
    assert_eq!(out, [7, 8, 9, 0, 0]);
    assert_eq!(fifo.len(), 0);
}

#[test]
fn read_to_buffer_stops_when_full() {
    let buffer = [0u8; 10];
    let mut fifo = Fifo::new(&buffer);
    fifo.write(&[1, 2, 3, 4]).unwrap();
    let mut out = [0u8; 2];
    assert_eq!(fifo.read_to_buffer(&mut out), 2);
    assert_eq!(out, [1, 2]);
    assert_eq!(fifo.len(), 2);
    assert_eq!(fifo.read(), Some(3));
}

#[test]
fn clear_drops_everything() {
    let buffer = [0u32; 3];
    let mut fifo = Fifo::new(&buffer);
    fifo.write(&[100_000, 200_000]).unwrap();
    fifo.clear();
    assert_eq!(fifo.len(), 0);
    assert_eq!(fifo.read(), None);
    assert_eq!(fifo.remaining(), 2);
}

#[test]
fn single_slot_holds_nothing() {
    let buffer = [0u8; 1];
    let mut fifo = Fifo::new(&buffer);
    assert_eq!(fifo.size(), 0);
    assert_eq!(fifo.write(&[]), Ok(()));
    assert_eq!(fifo.write(&[1]), Err(Error::OutOfSpace));
}
