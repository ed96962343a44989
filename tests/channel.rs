use memmap::MmapMut;
use shm_mpi::{ChannelError, Payload, Receiver, TransferBuffer, RECEIVER, SENDER};

#[derive(Debug, Copy, Clone, PartialEq)]
struct Test {
    a: usize,
    b: i32,
    c: f64,
}

impl Test {
    fn new(a: usize, b: i32, c: f64) -> Test {
        Test { a, b, c }
    }

    fn to_parts(self) -> (usize, i32, u64) {
        (self.a, self.b, self.c.to_bits())
    }

    fn from_parts(p: (usize, i32, u64)) -> Test {
        Test { a: p.0, b: p.1, c: f64::from_bits(p.2) }
    }
}

fn transfer_scenario() {
    let mut receiver1 = Receiver::<usize>::new().unwrap();
    let mut receiver2 = Receiver::<[i32; 20]>::new().unwrap();
    let data2 = [
        1, 2, 3, 4, 5, 6, 7, 8, 9, 10, -10, -9, -8, -7, -6, -5, -4, -3, -2, -1,
    ];
    let mut receiver3 = Receiver::<(usize, i32, u64)>::new().unwrap();
    let data3 = Test::new(420, -69, 3.14);

    assert!(receiver1.new_sender().try_send(&123));
    assert_eq!(receiver1.try_recv(), Some(123));
    assert!(receiver1.new_sender().try_send(&456));
    assert_eq!(receiver1.try_recv(), Some(456));
    assert!(receiver2.new_sender().try_send(&data2));
    assert_eq!(receiver2.try_recv(), Some(data2));
    assert!(receiver3.new_sender().try_send(&data3.to_parts()));
    assert_eq!(receiver3.try_recv().map(Test::from_parts), Some(data3));
}

#[test]
fn lib4_simple_transfer() {
    transfer_scenario();
}

#[test]
fn lib_simple_transfer() {
    transfer_scenario();
}

#[test]
fn send_leaves_slot_to_receiver_and_recv_gives_it_back() {
    let mut rx = Receiver::<u64>::new().unwrap();
    assert_eq!(rx.try_recv(), None);
    assert!(rx.new_sender().try_send(&7));
    // The flag now names the receiver: a second send must wait.
    assert!(!rx.new_sender().try_send(&8));
    assert_eq!(rx.try_recv(), Some(7));
    // The flag names the sender again: nothing more to receive.
    assert_eq!(rx.try_recv(), None);
    assert!(rx.new_sender().try_send(&8));
    assert_eq!(rx.try_recv(), Some(8));
}

#[test]
fn single_byte_round_trip() {
    let mut rx = Receiver::<u8>::new().unwrap();
    assert!(rx.new_sender().try_send(&0xA5));
    assert_eq!(rx.try_recv(), Some(0xA5));
}

#[test]
fn full_slot_round_trip() {
    let mut rx = Receiver::<[u64; 4]>::new().unwrap();
    let data = [u64::MAX, 0, 0x0102_0304_0506_0708, 42];
    assert!(rx.new_sender().try_send(&data));
    assert_eq!(rx.try_recv(), Some(data));
}

#[test]
fn back_to_back_sequence_in_order() {
    let mut rx = Receiver::<u64>::new().unwrap();
    let mut received = Vec::new();
    for i in 0..1000u64 {
        assert!(rx.new_sender().try_send(&i));
        received.push(rx.try_recv().unwrap());
    }
    assert_eq!(received, (0..1000u64).collect::<Vec<_>>());
}

#[test]
fn large_array_sent_repeatedly() {
    let mut rx = Receiver::<[u8; 4096]>::new().unwrap();
    for round in 0..8u8 {
        let mut data = [0u8; 4096];
        for (k, b) in data.iter_mut().enumerate() {
            *b = (k as u8).wrapping_mul(31).wrapping_add(round);
        }
        assert!(rx.new_sender().try_send(&data));
        let got = rx.try_recv().unwrap();
        assert!(got.iter().zip(data.iter()).all(|(x, y)| x == y));
    }
}

#[test]
fn raw_bytes_go_through_the_slot() {
    let mut rx = Receiver::<[u8; 8]>::new().unwrap();
    assert_eq!(rx.try_read(), None);
    assert!(rx.new_sender().try_write(&[9, 8, 7]));
    assert!(!rx.new_sender().try_write(&[1]));
    let got = rx.try_read().unwrap();
    assert_eq!(got.len(), 8);
    assert_eq!(&got[..3], &[9, 8, 7]);
    assert_eq!(rx.try_read(), None);
}

#[test]
fn buffer_flag_follows_the_stores() {
    let mut buf = TransferBuffer::new(16, RECEIVER).unwrap();
    assert_eq!(buf.size(), 16);
    assert_eq!(buf.current_owner(), RECEIVER);
    buf.write_owner(SENDER);
    assert_eq!(buf.current_owner(), SENDER);
    buf.write(&[1, 2, 3]);
    let bytes = buf.read();
    assert_eq!(bytes.len(), 16);
    assert_eq!(&bytes[..3], &[1, 2, 3]);
    assert_eq!(buf.current_owner(), SENDER);
}

#[test]
fn zero_sized_payload_keeps_only_the_flag() {
    let mut buf = TransferBuffer::new(0, SENDER).unwrap();
    assert_eq!(buf.size(), 0);
    assert_eq!(buf.read().len(), 0);
    buf.write_owner(RECEIVER);
    assert_eq!(buf.current_owner(), RECEIVER);
}

#[test]
fn mapping_too_large_is_resource_exhausted() {
    let r = TransferBuffer::new(usize::MAX - 1, SENDER);
    assert!(matches!(r, Err(ChannelError::ResourceExhausted)));
}

#[test]
fn integer_images_are_little_endian() {
    assert_eq!(0x0102_0304u32.encode(), vec![4, 3, 2, 1]);
    assert_eq!((-1i32).encode(), vec![255, 255, 255, 255]);
    assert_eq!((-69i32).encode(), vec![187, 255, 255, 255]);
    assert_eq!(0x0102_0304_0506_0708u64.encode(), vec![8, 7, 6, 5, 4, 3, 2, 1]);
    assert_eq!(420usize.encode(), vec![164, 1, 0, 0, 0, 0, 0, 0]);
    assert_eq!(7u8.encode(), vec![7]);
}

#[test]
fn widths_match_images() {
    assert_eq!(<u8 as Payload>::byte_width(), 1);
    assert_eq!(<i32 as Payload>::byte_width(), 4);
    assert_eq!(<usize as Payload>::byte_width(), 8);
    assert_eq!(<[i32; 20] as Payload>::byte_width(), 80);
    assert_eq!(<[u8; 0] as Payload>::byte_width(), 0);
    assert_eq!(<(usize, i32, u64) as Payload>::byte_width(), 20);
}

#[test]
fn composite_images_concatenate_parts() {
    assert_eq!([1u32, 2u32].encode(), vec![1, 0, 0, 0, 2, 0, 0, 0]);
    assert_eq!((1u8, -1i32, 2u8).encode(), vec![1, 255, 255, 255, 255, 2]);
    assert_eq!(<(u8, i32, u8)>::decode(&[1, 255, 255, 255, 255, 2]), (1u8, -1i32, 2u8));
    assert_eq!(<[u32; 2]>::decode(&[1, 0, 0, 0, 2, 0, 0, 0]), [1u32, 2u32]);
    assert_eq!(i32::decode(&[187, 255, 255, 255]), -69);
    assert_eq!(usize::decode(&[164, 1, 0, 0, 0, 0, 0, 0]), 420);
}

#[test]
fn steps_follow_the_given_flag() {
    let mut rx = Receiver::<u32>::new().unwrap();
    // A flag naming the receiver stops the sender, whatever the slot holds.
    assert!(!rx.new_sender().send_if_owner(RECEIVER, &5));
    assert!(!rx.new_sender().write_if_owner(RECEIVER, &[1]));
    assert_eq!(rx.try_recv(), None);
    // A flag naming the sender stops the receiver.
    assert_eq!(rx.recv_if_owner(SENDER), None);
    assert_eq!(rx.read_if_owner(SENDER), None);
    assert!(rx.new_sender().send_if_owner(SENDER, &0xDEAD_BEEF));
    assert_eq!(rx.recv_if_owner(RECEIVER), Some(0xDEAD_BEEF));
    assert!(rx.new_sender().write_if_owner(SENDER, &[1, 2]));
    assert_eq!(rx.read_if_owner(RECEIVER), Some(vec![1, 2, 0xAD, 0xDE]));
}

#[test]
fn buffer_built_on_a_mapping_or_its_failure() {
    let mut buf = TransferBuffer::from_mapping(MmapMut::map_anon(9), 8, RECEIVER).unwrap();
    assert_eq!(buf.size(), 8);
    assert_eq!(buf.current_owner(), RECEIVER);
    assert_eq!(buf.read().len(), 8);
    let failed = std::io::Error::new(std::io::ErrorKind::Other, "no memory");
    let r = TransferBuffer::from_mapping(Err(failed), 8, SENDER);
    assert!(matches!(r, Err(ChannelError::ResourceExhausted)));
}

#[test]
fn receiver_built_on_a_buffer_or_its_failure() {
    let mut rx = Receiver::<u64>::from_buffer(TransferBuffer::new(8, SENDER)).unwrap();
    assert!(rx.new_sender().try_send(&99));
    assert_eq!(rx.try_recv(), Some(99));
    let r = Receiver::<u64>::from_buffer(Err(ChannelError::ResourceExhausted));
    assert!(matches!(r, Err(ChannelError::ResourceExhausted)));
}
