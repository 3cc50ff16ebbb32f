use futures::executor::block_on;
use futures::io::Cursor;
use swap::network::request_response::{
    Codec, CodecError, LengthPrefix, Protocol, MAX_MESSAGE_SIZE, TIMEOUT,
};

#[test]
fn protocol_name_is_the_version_tag() {
    assert_eq!(&Protocol.protocol_name()[..], b"/xmr/btc/1.0.0");
    assert_eq!(TIMEOUT, 3600);
    assert_eq!(MAX_MESSAGE_SIZE, 1024);
}

#[test]
fn short_payload_has_a_one_byte_prefix() {
    assert_eq!(Codec::write_frame(b"abc"), vec![3, b'a', b'b', b'c']);
    assert_eq!(Codec::write_frame(b""), vec![0]);
    assert_eq!(Codec::write_frame(&[7u8; 127])[0], 127);
}

#[test]
fn longer_payload_has_a_two_byte_prefix() {
    let framed = Codec::write_frame(&[1u8; 128]);
    assert_eq!(&framed[..2], &[0x80, 0x01]);
    assert_eq!(framed.len(), 130);

    let framed = Codec::write_frame(&[1u8; 300]);
    assert_eq!(&framed[..2], &[0xac, 0x02]);

    let framed = Codec::write_frame(&[1u8; 1024]);
    assert_eq!(&framed[..2], &[0x80, 0x08]);
}

#[test]
fn payload_within_the_limit_round_trips() {
    for length in [0usize, 1, 127, 128, 129, 1000, 1023, 1024] {
        let payload: Vec<u8> = (0..length).map(|i| (i % 251) as u8).collect();
        let framed = Codec::write_frame(&payload);
        assert_eq!(Codec::read_frame(&framed), Ok(payload));
    }
}

#[test]
fn payload_beyond_the_limit_is_refused_as_oversized() {
    for length in [1025usize, 2000, 16383, 16384, 100_000] {
        let payload = vec![b'x'; length];
        let framed = Codec::write_frame(&payload);
        assert_eq!(Codec::read_frame(&framed), Err(CodecError::OversizedFrame));
    }
}

#[test]
fn oversized_length_is_refused_before_the_payload_is_there() {
    assert_eq!(Codec::read_frame(&[0x81, 0x08]), Err(CodecError::OversizedFrame));
    assert_eq!(Codec::read_length(&[0x81, 0x08]), Err(CodecError::OversizedFrame));
    assert_eq!(
        Codec::read_length(&[0xff, 0xff, 0x03]),
        Err(CodecError::OversizedFrame)
    );
}

#[test]
fn input_that_is_no_frame_is_malformed() {
    assert_eq!(Codec::read_frame(&[]), Err(CodecError::Malformed));
    assert_eq!(Codec::read_frame(&[0x80]), Err(CodecError::Malformed));
    assert_eq!(Codec::read_frame(&[0x80, 0x00]), Err(CodecError::Malformed));
    assert_eq!(Codec::read_frame(&[3, 1, 2]), Err(CodecError::Malformed));
    assert_eq!(Codec::read_frame(&[1, 1, 2]), Err(CodecError::Malformed));
    assert_eq!(Codec::read_frame(&[0xff; 10]), Err(CodecError::Malformed));
    assert_eq!(Codec::read_frame(&[0xff; 11]), Err(CodecError::Malformed));
}

#[test]
fn length_prefix_is_read_byte_by_byte() {
    assert_eq!(Codec::read_length(&[]), Ok(LengthPrefix::Incomplete));
    assert_eq!(Codec::read_length(&[0xac]), Ok(LengthPrefix::Incomplete));
    assert_eq!(
        Codec::read_length(&[0xac, 0x02]),
        Ok(LengthPrefix::Complete { length: 300, used: 2 })
    );
    assert_eq!(
        Codec::read_length(&[5, 9, 9]),
        Ok(LengthPrefix::Complete { length: 5, used: 1 })
    );
    assert_eq!(Codec::read_length(&[0x80; 9]), Ok(LengthPrefix::Incomplete));
    assert_eq!(Codec::read_length(&[0x80; 10]), Err(CodecError::Malformed));
    assert_eq!(Codec::read_length(&[0x80, 0x00]), Err(CodecError::Malformed));
}

#[test]
fn frames_are_read_by_the_peer_library() {
    for length in [0usize, 5, 127, 128, 1024] {
        let payload: Vec<u8> = (0..length).map(|i| (i % 7) as u8).collect();
        let framed = Codec::write_frame(&payload);
        let mut socket = Cursor::new(framed);
        let read = block_on(libp2p::core::upgrade::read_one(&mut socket, 1024)).unwrap();
        assert_eq!(read, payload);
    }
    let framed = Codec::write_frame(&vec![0u8; 1025]);
    let mut socket = Cursor::new(framed);
    assert!(matches!(
        block_on(libp2p::core::upgrade::read_one(&mut socket, 1024)),
        Err(libp2p::core::upgrade::ReadOneError::TooLarge { requested: 1025, max: 1024 })
    ));
}

#[test]
fn frames_of_the_peer_library_are_read() {
    for length in [0usize, 5, 127, 128, 1024] {
        let payload: Vec<u8> = (0..length).map(|i| (i % 11) as u8).collect();
        let mut socket = Cursor::new(Vec::new());
        block_on(libp2p::core::upgrade::write_one(&mut socket, &payload)).unwrap();
        assert_eq!(Codec::write_frame(&payload), socket.get_ref().clone());
        assert_eq!(Codec::read_frame(socket.get_ref()), Ok(payload));
    }
}
