use capable_broker::base64::{b64_decode, b64_encode};
use capable_broker::frame::{read_frame, write_frame, FrameError, FramePoll, FrameReader, Source, MAX_FRAME};

#[test]
fn oversized_frame_rejected_before_alloc() {
    let mut data = Vec::new();
    data.extend_from_slice(&(100u32 * 1024 * 1024).to_be_bytes());
    let mut cur = Source::new(data);
    assert!(read_frame(&mut cur).is_err(), "超大帧必须在分配前被拒");
}

#[test]
fn truncated_header_is_error_not_eof() {
    let mut cur = Source::new(vec![0u8, 0u8]);
    match read_frame(&mut cur) {
        Err(e) => assert!(matches!(e, FrameError::TruncatedHeader)),
        Ok(_) => panic!("半个头必须报截断,而非静默 EOF"),
    }
}

#[test]
fn clean_eof_is_none() {
    let mut cur = Source::new(Vec::<u8>::new());
    assert!(matches!(read_frame(&mut cur), Ok(None)), "干净 EOF 应为 None");
}

#[test]
fn frames_read_back_one_after_another() {
    let mut bytes = write_frame(b"BOOTSTRAP");
    assert_eq!(&bytes[..4], &[0, 0, 0, 9]);
    bytes.extend(write_frame(b""));
    let mut cur = Source::new(bytes);
    assert!(matches!(read_frame(&mut cur), Ok(Some(b)) if b == b"BOOTSTRAP"));
    assert!(matches!(read_frame(&mut cur), Ok(Some(b)) if b.is_empty()));
    assert!(matches!(read_frame(&mut cur), Ok(None)));
}

#[test]
fn a_body_that_ends_early_is_an_error() {
    let mut cur = Source::new(vec![0, 0, 0, 5, b'a', b'b']);
    assert!(matches!(read_frame(&mut cur), Err(FrameError::TruncatedBody)));
    let mut over = Source::new(((MAX_FRAME as u32) + 1).to_be_bytes().to_vec());
    assert!(matches!(read_frame(&mut over), Err(FrameError::TooLarge(n)) if n == MAX_FRAME + 1));
}

#[test]
fn a_frame_is_read_piece_by_piece() {
    let mut r = FrameReader::new();
    assert!(matches!(r.poll(false), FramePoll::More(4)));
    assert!(matches!(r.poll(true), FramePoll::Closed));
    r.feed(&[0, 0]);
    assert!(matches!(r.poll(false), FramePoll::More(2)));
    assert!(matches!(r.poll(true), FramePoll::Bad(FrameError::TruncatedHeader)));
    r.feed(&[0, 3, b'x']);
    assert!(matches!(r.poll(false), FramePoll::More(2)));
    r.feed(b"yz");
    assert!(matches!(r.poll(false), FramePoll::Body(b) if b == b"xyz"));
}

#[test]
fn base64_known_texts() {
    let known: [(&[u8], &str); 7] = [
        (b"", ""),
        (b"f", "Zg=="),
        (b"fo", "Zm8="),
        (b"foo", "Zm9v"),
        (b"foob", "Zm9vYg=="),
        (b"fooba", "Zm9vYmE="),
        (b"foobar", "Zm9vYmFy"),
    ];
    for (data, text) in known {
        assert_eq!(b64_encode(data), text);
        assert_eq!(b64_decode(text), data);
    }
    assert_eq!(b64_encode(&[0xfb, 0xff, 0xfe]), "+//+");
}

#[test]
fn base64_round_trip_of_every_byte() {
    let all: Vec<u8> = (0..=255).collect();
    assert_eq!(b64_decode(&b64_encode(&all)), all);
    assert_eq!(b64_decode("Zm9v!mFy"), b"foo\x98\x5c".to_vec());
}
