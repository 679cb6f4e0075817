use ion_monitor::ring::RingBuffer;

fn ordered(buffer: &RingBuffer) -> Vec<u64> {
    let mut out = vec![99, 98, 97];
    buffer.write_ordered(&mut out);
    out
}

#[test]
fn new_buffer_reads_zeros() {
    let buffer = RingBuffer::new(4);
    assert_eq!(ordered(&buffer), vec![0, 0, 0, 0]);
}

#[test]
fn partial_buffer_reads_samples_then_zeros() {
    let mut buffer = RingBuffer::new(4);
    buffer.push(5);
    buffer.push(7);
    assert_eq!(ordered(&buffer), vec![5, 7, 0, 0]);
}

#[test]
fn exactly_full_buffer_reads_in_order() {
    let mut buffer = RingBuffer::new(3);
    for v in [1, 2, 3] {
        buffer.push(v);
    }
    assert_eq!(ordered(&buffer), vec![1, 2, 3]);
}

#[test]
fn wrapped_buffer_keeps_latest_oldest_first() {
    let mut buffer = RingBuffer::new(3);
    for v in 1..=8 {
        buffer.push(v);
    }
    assert_eq!(ordered(&buffer), vec![6, 7, 8]);
}

#[test]
fn zero_capacity_buffer_ignores_pushes() {
    let mut buffer = RingBuffer::new(0);
    buffer.push(3);
    buffer.push(4);
    assert_eq!(ordered(&buffer), Vec::<u64>::new());
}

#[test]
fn read_out_length_is_capacity() {
    for cap in 0..6usize {
        let mut buffer = RingBuffer::new(cap);
        for v in 0..13 {
            buffer.push(v);
            assert_eq!(ordered(&buffer).len(), cap);
        }
    }
}
