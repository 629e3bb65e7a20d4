use quic_chat::frame::{frame, FrameBuffer, MAX_FRAME_LEN};
use quic_chat::message::ProtocolError;

#[test]
fn frame_prefixes_length() {
    assert_eq!(frame(&[7, 8, 9]), Ok(vec![3, 0, 0, 0, 0, 0, 0, 0, 7, 8, 9]));
    assert_eq!(frame(&[]), Ok(vec![0, 0, 0, 0, 0, 0, 0, 0]));
}

#[test]
fn frame_at_limit_is_accepted() {
    let payload = vec![0u8; MAX_FRAME_LEN];
    let f = frame(&payload).unwrap();
    assert_eq!(f.len(), MAX_FRAME_LEN + 8);
}

#[test]
fn frame_over_limit_is_rejected() {
    let payload = vec![0u8; MAX_FRAME_LEN + 1];
    assert_eq!(frame(&payload), Err(ProtocolError::FrameTooLarge));
}

#[test]
fn buffer_waits_for_whole_frame() {
    let f = frame(b"hello").unwrap();
    let mut buf = FrameBuffer::new();
    for (i, byte) in f.iter().enumerate() {
        assert_eq!(buf.next_frame(), Ok(None));
        assert_eq!(buf.len(), i);
        buf.feed(&[*byte]);
    }
    assert_eq!(buf.next_frame(), Ok(Some(b"hello".to_vec())));
    assert_eq!(buf.len(), 0);
    assert_eq!(buf.next_frame(), Ok(None));
}

#[test]
fn buffer_reassembles_large_payload_from_chunks() {
    let payload: Vec<u8> = (0..5000u32).map(|i| (i % 251) as u8).collect();
    let f = frame(&payload).unwrap();
    let mut buf = FrameBuffer::new();
    for chunk in f.chunks(1024) {
        buf.feed(chunk);
    }
    assert_eq!(buf.next_frame(), Ok(Some(payload)));
}

#[test]
fn buffer_splits_back_to_back_frames() {
    let mut bytes = frame(b"ab").unwrap();
    bytes.extend(frame(b"c").unwrap());
    bytes.push(9);
    let mut buf = FrameBuffer::new();
    buf.feed(&bytes);
    assert_eq!(buf.next_frame(), Ok(Some(b"ab".to_vec())));
    assert_eq!(buf.next_frame(), Ok(Some(b"c".to_vec())));
    assert_eq!(buf.next_frame(), Ok(None));
    assert_eq!(buf.len(), 1);
}

#[test]
fn buffer_rejects_oversized_header() {
    let mut buf = FrameBuffer::new();
    let n = (MAX_FRAME_LEN as u64 + 1).to_le_bytes();
    buf.feed(&n);
    assert_eq!(buf.next_frame(), Err(ProtocolError::FrameTooLarge));
    assert_eq!(buf.len(), 8);
}
