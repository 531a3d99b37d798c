use srcds::error::Error;
use srcds::query::transport::{Fragment, Reassembly, Step, Transfer};

/// Plays the part of the socket: `datagrams` are what the server sent, in the
/// order in which they arrive.
fn run(datagrams: &[Vec<u8>]) -> Result<Vec<u8>, Error> {
    let mut next = 0;
    let mut step = Transfer::start();
    loop {
        step = match step {
            Step::Peek(transfer, n) => {
                let datagram = &datagrams[next];
                let n = n.min(datagram.len());
                transfer.advance(&datagram[..n])?
            }
            Step::Receive(transfer, n) => {
                let datagram = &datagrams[next];
                next += 1;
                let n = n.min(datagram.len());
                transfer.advance(&datagram[..n])?
            }
            Step::Deliver(payload) => {
                assert_eq!(next, datagrams.len());
                return Ok(payload);
            }
        };
    }
}

fn single(payload: &[u8]) -> Vec<u8> {
    let mut bytes = vec![0xFF, 0xFF, 0xFF, 0xFF];
    bytes.extend_from_slice(payload);
    bytes
}

fn fragment(id: i32, total: u8, number: u8, payload: &[u8]) -> Vec<u8> {
    let mut bytes = vec![0xFE, 0xFF, 0xFF, 0xFF];
    bytes.extend_from_slice(&id.to_le_bytes());
    bytes.push(total);
    bytes.push(0);
    bytes.push(number);
    bytes.push(0x05);
    bytes.extend_from_slice(payload);
    bytes
}

fn three(id: i32) -> Vec<Vec<u8>> {
    vec![
        fragment(id, 3, 0, &[0xFF, 0xFF, 0xFF, 0xFF, 0x45, 1]),
        fragment(id, 3, 1, &[0, b'a', 0]),
        fragment(id, 3, 2, &[b'b', 0]),
    ]
}

#[test]
fn start_peeks_the_frame_header() {
    match Transfer::start() {
        Step::Peek(Transfer::Header, 4) => {}
        _ => panic!("the first step looks at four bytes"),
    }
}

#[test]
fn single_packet_loses_four_bytes() {
    assert_eq!(run(&[single(&[0x49, 1, 2, 3])]), Ok(vec![0x49, 1, 2, 3]));
    assert_eq!(run(&[single(&[])]), Ok(vec![]));
    assert_eq!(run(&[single(&[0xFF, 0xFF, 0xFF, 0xFF])]), Ok(vec![0xFF, 0xFF, 0xFF, 0xFF]));
}

#[test]
fn single_packet_is_received_whole() {
    match Transfer::Header.advance(&[0xFF, 0xFF, 0xFF, 0xFF]) {
        Ok(Step::Receive(Transfer::Single, 1400)) => {}
        _ => panic!("a single packet is received in a buffer of 1400 bytes"),
    }
    let datagram = single(&[7; 1396]);
    assert_eq!(datagram.len(), 1400);
    assert_eq!(run(&[datagram]), Ok(vec![7; 1396]));
}

#[test]
fn single_packet_shorter_than_its_header_is_truncated() {
    match Transfer::Single.advance(&[0xFF, 0xFF, 0xFF]) {
        Err(Error::Truncated) => {}
        _ => panic!("three bytes hold no frame header"),
    }
}

#[test]
fn unknown_header_is_refused() {
    assert_eq!(run(&[vec![0xFD, 0xFF, 0xFF, 0xFF, 1, 2]]), Err(Error::UnknownPacketHeader));
    assert_eq!(run(&[vec![0, 0, 0, 0]]), Err(Error::UnknownPacketHeader));
    assert_eq!(run(&[vec![0xFF, 0xFF, 0xFF]]), Err(Error::UnknownPacketHeader));
    assert_eq!(run(&[vec![]]), Err(Error::UnknownPacketHeader));
    assert_eq!(run(&[vec![0xFF, 0xFF, 0xFF, 0x7F]]), Err(Error::UnknownPacketHeader));
}

#[test]
fn multi_packet_in_order() {
    assert_eq!(run(&three(77)), Ok(vec![0x45, 1, 0, b'a', 0, b'b', 0]));
}

#[test]
fn multi_packet_out_of_order_is_the_same() {
    let in_order = three(-5);
    let expected = run(&in_order);
    assert_eq!(expected, Ok(vec![0x45, 1, 0, b'a', 0, b'b', 0]));
    let orders: [[usize; 3]; 5] = [[0, 2, 1], [1, 0, 2], [1, 2, 0], [2, 0, 1], [2, 1, 0]];
    for order in orders.iter() {
        let arrived: Vec<Vec<u8>> = order.iter().map(|&i| in_order[i].clone()).collect();
        assert_eq!(run(&arrived), expected);
    }
}

#[test]
fn multi_packet_header_step() {
    match Transfer::Header.advance(&[0xFE, 0xFF, 0xFF, 0xFF]) {
        Ok(Step::Peek(Transfer::MultiHeader, 12)) => {}
        _ => panic!("a split reply is looked at for twelve bytes"),
    }
    let first = fragment(9, 2, 0x10, &[1, 2, 3]);
    match Transfer::MultiHeader.advance(&first[..12]) {
        Ok(Step::Receive(Transfer::Fragments(reassembly), size)) => {
            assert_eq!(size, 0x0510);
            assert_eq!(reassembly.fragment_size(), 0x0510);
            assert!(!reassembly.is_complete());
        }
        _ => panic!("the fragments are received next"),
    }
}

#[test]
fn multi_packet_mismatched_identifier_is_refused() {
    let mut datagrams = three(77);
    datagrams[1] = fragment(78, 3, 1, &[0, b'a', 0]);
    assert_eq!(run(&datagrams), Err(Error::FragmentMismatch));
    let mut datagrams = three(77);
    datagrams[2] = fragment(-77, 3, 2, &[b'b', 0]);
    assert_eq!(run(&datagrams), Err(Error::FragmentMismatch));
    let mut datagrams = three(77);
    datagrams[2] = vec![0xFE, 0xFF, 0xFF, 0xFF, 1, 0, 0, 0, 3];
    assert_eq!(run(&datagrams), Err(Error::FragmentMismatch));
}

#[test]
fn multi_packet_duplicate_number_is_refused() {
    let mut datagrams = three(77);
    datagrams[2] = fragment(77, 3, 1, &[b'b', 0]);
    assert_eq!(run(&datagrams), Err(Error::DuplicateFragment));
    let mut datagrams = three(77);
    datagrams[1] = datagrams[0].clone();
    assert_eq!(run(&datagrams), Err(Error::DuplicateFragment));
}

#[test]
fn multi_packet_duplicate_is_refused_only_when_all_are_in() {
    let first = fragment(77, 3, 0, &[0xFF, 0xFF, 0xFF, 0xFF, 0x45]);
    let reassembly = Reassembly::begin(&first[..12]).unwrap();
    let reassembly = reassembly.accept(&first).unwrap();
    match Transfer::Fragments(reassembly).advance(&first) {
        Ok(Step::Receive(Transfer::Fragments(reassembly), _)) => {
            assert!(!reassembly.is_complete());
            assert_eq!(reassembly.finish(), Err(Error::DuplicateFragment));
        }
        _ => panic!("a repeated number does not end the transfer on arrival"),
    }
}

#[test]
fn multi_packet_mismatch_after_a_duplicate_is_a_mismatch() {
    let mut datagrams = three(77);
    datagrams[1] = datagrams[0].clone();
    datagrams[2] = fragment(78, 3, 2, &[b'b', 0]);
    assert_eq!(run(&datagrams), Err(Error::FragmentMismatch));
    let datagrams = vec![
        fragment(5, 4, 1, &[0xFF, 0xFF, 0xFF, 0xFF]),
        fragment(5, 4, 1, &[1]),
        fragment(5, 4, 1, &[2]),
        fragment(6, 4, 1, &[3]),
    ];
    assert_eq!(run(&datagrams), Err(Error::FragmentMismatch));
}

#[test]
fn multi_packet_mismatch_on_every_later_fragment() {
    for k in 1..3 {
        let mut datagrams = three(1000);
        datagrams[k][4] ^= 0x01;
        assert_eq!(run(&datagrams[..k + 1].to_vec()), Err(Error::FragmentMismatch));
    }
    for k in 1..3 {
        let mut datagrams = three(1000);
        datagrams[k][7] ^= 0x80;
        assert_eq!(run(&datagrams[..k + 1].to_vec()), Err(Error::FragmentMismatch));
    }
}

#[test]
fn multi_packet_short_fragment_is_truncated() {
    let mut datagrams = three(77);
    datagrams[1].truncate(11);
    assert_eq!(run(&datagrams), Err(Error::Truncated));
    let mut datagrams = three(77);
    datagrams[1].truncate(7);
    assert_eq!(run(&datagrams), Err(Error::Truncated));
    let mut datagrams = three(77);
    datagrams[0].truncate(11);
    assert_eq!(run(&datagrams), Err(Error::Truncated));
}

#[test]
fn multi_packet_negative_size_is_refused() {
    let mut first = fragment(1, 1, 0, &[0xFF, 0xFF, 0xFF, 0xFF, 1]);
    first[11] = 0x80;
    assert_eq!(run(&[first]), Err(Error::InvalidResponse));
}

#[test]
fn multi_packet_of_no_fragments_is_truncated() {
    assert_eq!(run(&[fragment(1, 0, 0, &[1, 2, 3, 4, 5])]).err(), Some(Error::Truncated));
}

#[test]
fn multi_packet_with_less_than_a_header_is_truncated() {
    let datagrams = vec![fragment(1, 2, 0, &[1, 2]), fragment(1, 2, 1, &[3])];
    assert_eq!(run(&datagrams), Err(Error::Truncated));
    let datagrams = vec![fragment(1, 2, 0, &[1, 2]), fragment(1, 2, 1, &[3, 4])];
    assert_eq!(run(&datagrams), Ok(vec![]));
}

#[test]
fn multi_packet_fragments_are_cut_at_the_announced_size() {
    let mut first = fragment(1, 1, 16, &[0xFF, 0xFF, 0xFF, 0xFF, 1, 2, 3, 4]);
    first[11] = 0;
    assert_eq!(run(&[first]), Ok(vec![]));
    let mut first = fragment(1, 1, 18, &[0xFF, 0xFF, 0xFF, 0xFF, 1, 2, 3, 4]);
    first[11] = 0;
    assert_eq!(run(&[first]), Ok(vec![1, 2]));
}

#[test]
fn fragment_parse_reads_number_and_payload() {
    let datagram = fragment(1234, 4, 3, &[9, 8, 7]);
    assert_eq!(Fragment::parse(&datagram, 1234), Ok(Fragment { number: 3, payload: vec![9, 8, 7] }));
    assert_eq!(Fragment::parse(&datagram, 1235), Err(Error::FragmentMismatch));
    assert_eq!(Fragment::parse(&datagram[..12], 1234), Ok(Fragment { number: 3, payload: vec![] }));
    assert_eq!(Fragment::parse(&datagram[..11], 1234), Err(Error::Truncated));
    assert_eq!(Fragment::parse(&datagram[..8], 1235), Err(Error::FragmentMismatch));
    assert_eq!(Fragment::parse(&datagram[..7], 1235), Err(Error::Truncated));
}

#[test]
fn reassembly_joins_by_sequence_number() {
    let first = fragment(-2, 3, 200, &[1, 2, 3, 4, 5]);
    let mut reassembly = Reassembly::begin(&first[..12]).unwrap();
    assert_eq!(reassembly.fragment_size(), 0x05C8);
    assert!(!reassembly.is_complete());
    assert_eq!(reassembly.finish(), Err(Error::Truncated));
    reassembly = reassembly.accept(&first).unwrap();
    assert_eq!(reassembly.finish(), Ok(vec![5]));
    reassembly = reassembly.accept(&fragment(-2, 3, 3, &[6, 7])).unwrap();
    assert!(!reassembly.is_complete());
    assert_eq!(reassembly.finish(), Ok(vec![3, 4, 5]));
    reassembly = reassembly.accept(&fragment(-2, 3, 255, &[8])).unwrap();
    assert!(reassembly.is_complete());
    assert_eq!(reassembly.finish(), Ok(vec![3, 4, 5, 8]));
    let repeated = reassembly.accept(&fragment(-2, 3, 3, &[9, 9, 9])).unwrap();
    assert!(repeated.is_complete());
    assert_eq!(repeated.finish(), Err(Error::DuplicateFragment));
}

#[test]
fn reassembly_counts_datagrams_not_slots() {
    let first = fragment(8, 2, 0, &[0xFF, 0xFF, 0xFF, 0xFF, 7]);
    let reassembly = Reassembly::begin(&first[..12]).unwrap();
    assert!(!reassembly.is_complete());
    let reassembly = reassembly.accept(&first).unwrap();
    assert!(!reassembly.is_complete());
    assert_eq!(reassembly.finish(), Ok(vec![7]));
    let reassembly = reassembly.accept(&first).unwrap();
    assert!(reassembly.is_complete());
    assert_eq!(reassembly.finish(), Err(Error::DuplicateFragment));
    assert_eq!(reassembly.accept(&fragment(9, 2, 1, &[])).err(), Some(Error::FragmentMismatch));
}

#[test]
fn reassembly_begin_needs_twelve_bytes() {
    let first = fragment(1, 1, 0, &[]);
    assert_eq!(Reassembly::begin(&first[..11]).err(), Some(Error::Truncated));
    assert!(Reassembly::begin(&first).is_ok());
}
