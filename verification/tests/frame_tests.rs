use qif_interop::error::Error;
use qif_interop::frame::FrameParser;

fn frame(id: u64, payload: &[u8]) -> Vec<u8> {
    let mut v = Vec::new();
    v.extend_from_slice(&id.to_be_bytes());
    v.extend_from_slice(&(payload.len() as u32).to_be_bytes());
    v.extend_from_slice(payload);
    v
}

#[test]
fn parses_single_frame() {
    let buf = frame(7, b"hello");
    let mut p = FrameParser::new(&buf);
    match p.next() {
        Ok(Some(f)) => {
            assert_eq!(f.stream_id, 7);
            assert_eq!(f.payload, b"hello");
        }
        _ => panic!("expected one frame"),
    }
    match p.next() {
        Ok(None) => {}
        _ => panic!("expected end of stream"),
    }
}

#[test]
fn parses_frames_in_order() {
    let mut buf = frame(0, b"ctl");
    buf.extend_from_slice(&frame(1, b""));
    buf.extend_from_slice(&frame(2, b"abc"));
    let mut p = FrameParser::new(&buf);
    let mut seen: Vec<(u64, Vec<u8>)> = Vec::new();
    loop {
        match p.next() {
            Ok(Some(f)) => seen.push((f.stream_id, f.payload.to_vec())),
            Ok(None) => break,
            Err(_) => panic!("unexpected parse error"),
        }
    }
    assert_eq!(
        seen,
        vec![(0, b"ctl".to_vec()), (1, b"".to_vec()), (2, b"abc".to_vec())]
    );
}

#[test]
fn empty_buffer_is_end_of_stream() {
    let buf: Vec<u8> = Vec::new();
    let mut p = FrameParser::new(&buf);
    assert!(matches!(p.next(), Ok(None)));
}

#[test]
fn round_trip_reconcatenation() {
    let mut buf = frame(0, b"instr");
    buf.extend_from_slice(&frame(1, b"block-one"));
    buf.extend_from_slice(&frame(2, b""));
    buf.extend_from_slice(&frame(3, &[0xff; 40]));
    let mut p = FrameParser::new(&buf);
    let mut rebuilt: Vec<u8> = Vec::new();
    loop {
        match p.next() {
            Ok(Some(f)) => {
                rebuilt.extend_from_slice(&f.stream_id.to_be_bytes());
                rebuilt.extend_from_slice(&(f.payload.len() as u32).to_be_bytes());
                rebuilt.extend_from_slice(f.payload);
            }
            Ok(None) => break,
            Err(_) => panic!("unexpected parse error"),
        }
    }
    assert_eq!(rebuilt, buf);
}

#[test]
fn trailing_bytes_carry_exact_count() {
    // Every leftover count strictly between 1 and 11 fails with
    // TrailingData of exactly that count.
    for extra in 1usize..=11 {
        let mut buf = frame(1, b"x");
        buf.extend_from_slice(&vec![0u8; extra]);
        let mut p = FrameParser::new(&buf);
        assert!(matches!(p.next(), Ok(Some(_))));
        match p.next() {
            Err(Error::TrailingData(n)) => assert_eq!(n, extra),
            _ => panic!("expected TrailingData"),
        }
    }
}

#[test]
fn declared_length_past_end_is_unexpected_end() {
    let mut buf = Vec::new();
    buf.extend_from_slice(&5u64.to_be_bytes());
    buf.extend_from_slice(&10u32.to_be_bytes());
    buf.extend_from_slice(b"short");
    let mut p = FrameParser::new(&buf);
    assert!(matches!(p.next(), Err(Error::UnexpectedEnd)));
}

#[test]
fn unexpected_end_after_good_frame() {
    let mut buf = frame(1, b"ok");
    buf.extend_from_slice(&2u64.to_be_bytes());
    buf.extend_from_slice(&1000u32.to_be_bytes());
    buf.push(0);
    let mut p = FrameParser::new(&buf);
    assert!(matches!(p.next(), Ok(Some(_))));
    assert!(matches!(p.next(), Err(Error::UnexpectedEnd)));
}
