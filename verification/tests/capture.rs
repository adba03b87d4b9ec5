use jonotune::capture::sample_queue;
use jonotune::capture::RING_CAPACITY;
use ringbuf::traits::Producer;

#[test]
fn queue_hands_out_samples_in_order() {
    let (mut sink, mut queue) = sample_queue(8);
    for sample in [10u32, 20, 30, 40, 50] {
        assert!(sink.producer.try_push(sample).is_ok());
    }
    let mut buf = [0u32; 3];
    assert_eq!(queue.read_samples(&mut buf), 3);
    assert_eq!(buf, [10, 20, 30]);
    let mut rest = [7u32; 4];
    assert_eq!(queue.read_samples(&mut rest), 2);
    assert_eq!(rest, [40, 50, 7, 7]);
    assert_eq!(queue.read_samples(&mut rest), 0);
    assert_eq!(rest, [40, 50, 7, 7]);
}

#[test]
fn full_queue_drops_new_samples() {
    let (mut sink, mut queue) = sample_queue(2);
    assert!(sink.producer.try_push(1).is_ok());
    assert!(sink.producer.try_push(2).is_ok());
    assert!(sink.producer.try_push(3).is_err());
    let mut buf = [0u32; 4];
    assert_eq!(queue.read_samples(&mut buf), 2);
    assert_eq!(buf, [1, 2, 0, 0]);
}

#[test]
fn samples_survive_as_bit_patterns() {
    let (mut sink, mut queue) = sample_queue(RING_CAPACITY);
    let samples = [0.25f32, -1.0, 0.0, 0.999];
    for sample in samples {
        assert!(sink.producer.try_push(sample.to_bits()).is_ok());
    }
    let mut buf = vec![0u32; 2048];
    let n = queue.read_samples(&mut buf);
    assert_eq!(n, 4);
    let back: Vec<f32> = buf[..n].iter().map(|b| f32::from_bits(*b)).collect();
    assert_eq!(back, samples.to_vec());
}

#[test]
fn empty_buffer_reads_nothing() {
    let (mut sink, mut queue) = sample_queue(4);
    assert!(sink.producer.try_push(5).is_ok());
    let mut none: [u32; 0] = [];
    assert_eq!(queue.read_samples(&mut none), 0);
    let mut one = [0u32; 1];
    assert_eq!(queue.read_samples(&mut one), 1);
    assert_eq!(one, [5]);
}

#[test]
fn capture_queue_holds_ring_capacity_samples() {
    let (mut sink, mut queue) = sample_queue(RING_CAPACITY);
    for sample in 0..RING_CAPACITY as u32 {
        assert!(sink.producer.try_push(sample).is_ok());
    }
    assert!(sink.producer.try_push(u32::MAX).is_err());
    let mut buf = vec![0u32; RING_CAPACITY + 1];
    assert_eq!(queue.read_samples(&mut buf), RING_CAPACITY);
    assert_eq!(buf[RING_CAPACITY - 1], RING_CAPACITY as u32 - 1);
}
