use dgxtop::history::{bucket_rotation, BucketRotation, RingBuffer};

#[test]
fn push_within_capacity_stores_all_values() {
    let mut buf = RingBuffer::new(5);
    buf.push(1.0);
    buf.push(2.0);
    buf.push(3.0);
    assert_eq!(buf.len(), 3);
    assert_eq!(buf.to_vec(), vec![1.0, 2.0, 3.0]);
}

#[test]
fn push_beyond_capacity_evicts_oldest() {
    let mut buf = RingBuffer::new(3);
    for i in 1..=5 {
        buf.push(i as f64);
    }
    assert_eq!(buf.len(), 3);
    assert_eq!(buf.to_vec(), vec![3.0, 4.0, 5.0]);
}

#[test]
fn ring_buffer_latest_last_and_clear() {
    let mut buf: RingBuffer<u64> = RingBuffer::new(4);
    assert!(buf.is_empty());
    assert_eq!(buf.last(), None);
    for v in [10, 20, 30, 40, 50] {
        buf.push(v);
    }
    assert_eq!(buf.capacity(), 4);
    assert_eq!(buf.to_vec(), vec![20, 30, 40, 50]);
    assert_eq!(buf.latest(2), vec![40, 50]);
    assert_eq!(buf.latest(10), vec![20, 30, 40, 50]);
    assert_eq!(buf.last(), Some(50));
    let (a, b) = buf.as_slice_pair();
    let mut joined = a.to_vec();
    joined.extend_from_slice(b);
    assert_eq!(joined, vec![20, 30, 40, 50]);
    buf.clear();
    assert!(buf.is_empty());
    assert_eq!(buf.capacity(), 4);
}

#[test]
fn ring_buffer_of_capacity_zero_keeps_newest() {
    let mut buf: RingBuffer<u32> = RingBuffer::new(0);
    buf.push(1);
    buf.push(2);
    assert_eq!(buf.to_vec(), vec![2]);
}

#[test]
fn bucket_rotation_decisions() {
    assert_eq!(bucket_rotation(0, 0, 30), BucketRotation::Stay);
    assert_eq!(bucket_rotation(0, 5, 59), BucketRotation::Stay);
    assert_eq!(bucket_rotation(0, 5, 61), BucketRotation::Finalize { minute: 1 });
    assert_eq!(bucket_rotation(0, 0, 125), BucketRotation::Relabel { minute: 2 });
    assert_eq!(bucket_rotation(3, 4, 200), BucketRotation::Relabel { minute: 3 });
}

#[test]
fn any_number_of_pushes_keeps_the_latest() {
    for cap in 1..6usize {
        for n in 0..12u32 {
            let mut buf: RingBuffer<u32> = RingBuffer::new(cap);
            for v in 1..=n {
                buf.push(v);
            }
            let len = (n as usize).min(cap);
            let expected: Vec<u32> = ((n - len as u32 + 1)..=n).collect();
            assert_eq!(buf.capacity(), cap);
            assert_eq!(buf.len(), len);
            assert_eq!(buf.to_vec(), expected);
            assert_eq!(buf.last(), if n > 0 { Some(n) } else { None });
            assert_eq!(buf.is_empty(), n == 0);
        }
    }
}
