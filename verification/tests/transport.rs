use ports::transport::{
    host_is_big_endian, Dump, DumpState, Reassembler, Signal, TransportError, FLAG_ACK, FLAG_DUMP,
    FLAG_REQUEST, HEADER_LEN, RECEIVE_BUFFER_LEN, TYPE_OVERRUN,
};

fn frame(len: u32, fill: u8, big_endian: bool) -> Vec<u8> {
    let mut out = if big_endian { len.to_be_bytes().to_vec() } else { len.to_le_bytes().to_vec() };
    while out.len() < len as usize {
        out.push(fill);
    }
    out
}

#[test]
fn whole_frames_come_out_in_order() {
    let mut r = Reassembler::with_byte_order(false);
    let a = frame(20, 1, false);
    let b = frame(16, 2, false);
    let mut bytes = a.clone();
    bytes.extend_from_slice(&b);
    bytes.extend_from_slice(&[9, 9]);
    let frames = r.feed(&bytes);
    assert_eq!(frames, vec![a, b]);
    assert_eq!(r.pending_len(), 2);
}

#[test]
fn a_split_frame_is_put_together() {
    let whole = frame(40, 7, false);
    for cut in 0..whole.len() {
        let mut r = Reassembler::with_byte_order(false);
        assert!(r.feed(&whole[..cut]).is_empty());
        assert_eq!(r.pending_len(), cut);
        assert_eq!(r.feed(&whole[cut..]), vec![whole.clone()]);
        assert_eq!(r.pending_len(), 0);
    }
}

#[test]
fn a_split_stream_gives_the_same_frames() {
    let mut stream = frame(20, 1, false);
    stream.extend_from_slice(&frame(4, 0, false));
    stream.extend_from_slice(&frame(33, 3, false));
    stream.extend_from_slice(&frame(17, 4, false)[..10]);
    let mut whole = Reassembler::with_byte_order(false);
    let expected = whole.feed(&stream);
    assert_eq!(expected.len(), 3);
    for cut in 0..=stream.len() {
        let mut r = Reassembler::with_byte_order(false);
        let mut frames = r.feed(&stream[..cut]);
        frames.extend(r.feed(&stream[cut..]));
        assert_eq!(frames, expected);
        assert_eq!(r.pending_len(), whole.pending_len());
    }
}

#[test]
fn an_empty_frame_resets_the_buffer() {
    let mut r = Reassembler::with_byte_order(false);
    let a = frame(16, 1, false);
    let mut bytes = a.clone();
    bytes.extend_from_slice(&[0, 0, 0, 0]);
    bytes.extend_from_slice(&frame(16, 2, false));
    assert_eq!(r.feed(&bytes), vec![a.clone()]);
    assert_eq!(r.pending_len(), 0);
    assert_eq!(r.feed(&a), vec![a]);
}

#[test]
fn the_byte_order_decides_the_length() {
    let big = frame(16, 5, true);
    let mut r = Reassembler::with_byte_order(true);
    assert_eq!(r.feed(&big), vec![big.clone()]);
    let mut l = Reassembler::with_byte_order(false);
    assert!(l.feed(&big).is_empty());
    assert_eq!(l.pending_len(), 16);
}

#[test]
fn the_host_order_is_found() {
    assert_eq!(host_is_big_endian(), u16::from_ne_bytes([0, 1]) == 1);
    let mut r = Reassembler::new();
    let mut frame = 16u32.to_ne_bytes().to_vec();
    frame.resize(16, 0);
    assert_eq!(r.feed(&frame), vec![frame.clone()]);
}

fn after(signals: &[Signal]) -> (DumpState, Vec<bool>) {
    let mut dump = Dump::with_byte_order(false);
    let handed = signals.iter().map(|s| dump.note(*s)).collect();
    (dump.state(), handed)
}

#[test]
fn done_and_acknowledgement_finish_a_dump() {
    assert_eq!(after(&[]), (DumpState::Receiving, vec![]));
    assert_eq!(
        after(&[Signal::Inner, Signal::Noop, Signal::Inner, Signal::Done]),
        (DumpState::Finished, vec![true, false, true, false])
    );
    assert_eq!(
        after(&[Signal::Inner, Signal::Error(0), Signal::Inner]),
        (DumpState::Finished, vec![true, false, false])
    );
    assert_eq!(
        after(&[Signal::Done, Signal::Error(-5), Signal::Garbled]),
        (DumpState::Finished, vec![false, false, false])
    );
}

#[test]
fn an_error_code_fails_a_dump() {
    assert_eq!(
        after(&[Signal::Inner, Signal::Error(-13), Signal::Inner, Signal::Done]),
        (DumpState::Failed(TransportError::Rejected(-13)), vec![true, false, false, false])
    );
    assert_eq!(
        after(&[Signal::Overrun]),
        (DumpState::Failed(TransportError::Unexpected(TYPE_OVERRUN)), vec![false])
    );
    assert_eq!(
        after(&[Signal::Garbled, Signal::Done]),
        (DumpState::Failed(TransportError::Undecodable), vec![false, false])
    );
}

#[test]
fn a_dump_says_whether_it_goes_on() {
    let mut dump = Dump::new();
    assert!(dump.is_receiving());
    let bytes = frame(16, 0, host_is_big_endian());
    assert_eq!(dump.feed(&bytes), vec![bytes.clone()]);
    assert!(dump.is_receiving());
    dump.note(Signal::Done);
    assert!(!dump.is_receiving());
}

#[test]
fn the_constants_are_those_of_the_protocol() {
    assert_eq!(HEADER_LEN, netlink_packet_core::NETLINK_HEADER_LEN);
    assert_eq!(RECEIVE_BUFFER_LEN, 4096);
    assert_eq!(FLAG_REQUEST, netlink_packet_core::NLM_F_REQUEST);
    assert_eq!(FLAG_ACK, netlink_packet_core::NLM_F_ACK);
    assert_eq!(FLAG_DUMP, netlink_packet_core::NLM_F_DUMP);
    assert_eq!(TYPE_OVERRUN, netlink_packet_core::NLMSG_OVERRUN);
}
