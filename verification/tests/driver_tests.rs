use qif_interop::driver::{DecodeDriver, HeaderField, Poll};
use qif_interop::error::Error;

fn frame(id: u64, payload: &[u8]) -> Vec<u8> {
    let mut v = Vec::new();
    v.extend_from_slice(&id.to_be_bytes());
    v.extend_from_slice(&(payload.len() as u32).to_be_bytes());
    v.extend_from_slice(payload);
    v
}

/// Runs a driver to completion with a stub codec that always
/// succeeds, answering each data frame with one header field holding
/// the frame's payload.
fn run_with_ok_codec(buf: &[u8]) -> Result<Vec<Vec<HeaderField>>, Error> {
    let mut d = DecodeDriver::new(buf);
    loop {
        match d.poll() {
            Poll::ApplyControl(_instr) => d.control_applied(true),
            Poll::DecodeData(block) => d.block_decoded(Some(vec![HeaderField {
                name: block.to_vec(),
                value: Vec::new(),
            }])),
            Poll::Finished => break,
        }
    }
    d.into_result()
}

#[test]
fn control_then_three_data_frames() {
    // One control frame, then data frames 1, 2, 3: three results, in
    // that order.
    let mut buf = frame(0, b"instr");
    buf.extend_from_slice(&frame(1, b"one"));
    buf.extend_from_slice(&frame(2, b"two"));
    buf.extend_from_slice(&frame(3, b"three"));
    match run_with_ok_codec(&buf) {
        Ok(lists) => {
            assert_eq!(lists.len(), 3);
            assert_eq!(lists[0][0].name, b"one".to_vec());
            assert_eq!(lists[1][0].name, b"two".to_vec());
            assert_eq!(lists[2][0].name, b"three".to_vec());
        }
        Err(_) => panic!("expected a successful pass"),
    }
}

#[test]
fn out_of_order_id_truncates_silently() {
    // Data frames arriving 1, 3, 2: only the frame decoded before the
    // mismatch is kept, and no error is raised.
    let mut buf = frame(1, b"first");
    buf.extend_from_slice(&frame(3, b"late"));
    buf.extend_from_slice(&frame(2, b"early"));
    match run_with_ok_codec(&buf) {
        Ok(lists) => {
            assert_eq!(lists.len(), 1);
            assert_eq!(lists[0][0].name, b"first".to_vec());
        }
        Err(_) => panic!("expected silent truncation, not an error"),
    }
}

#[test]
fn duplicate_id_truncates_silently() {
    let mut buf = frame(1, b"a");
    buf.extend_from_slice(&frame(1, b"b"));
    match run_with_ok_codec(&buf) {
        Ok(lists) => assert_eq!(lists.len(), 1),
        Err(_) => panic!("expected silent truncation, not an error"),
    }
}

#[test]
fn interleaved_control_frames_are_applied() {
    let mut buf = frame(1, b"one");
    buf.extend_from_slice(&frame(0, b"more-instr"));
    buf.extend_from_slice(&frame(2, b"two"));
    match run_with_ok_codec(&buf) {
        Ok(lists) => {
            assert_eq!(lists.len(), 2);
            assert_eq!(lists[1][0].name, b"two".to_vec());
        }
        Err(_) => panic!("expected a successful pass"),
    }
}

#[test]
fn empty_file_gives_empty_result() {
    match run_with_ok_codec(&[]) {
        Ok(lists) => assert!(lists.is_empty()),
        Err(_) => panic!("expected an empty success"),
    }
}

#[test]
fn driver_reports_trailing_data() {
    let mut buf = frame(1, b"x");
    buf.extend_from_slice(&[9, 9, 9]);
    match run_with_ok_codec(&buf) {
        Err(Error::TrailingData(n)) => assert_eq!(n, 3),
        _ => panic!("expected TrailingData"),
    }
}

#[test]
fn driver_reports_unexpected_end() {
    let mut buf = Vec::new();
    buf.extend_from_slice(&1u64.to_be_bytes());
    buf.extend_from_slice(&99u32.to_be_bytes());
    buf.extend_from_slice(b"tiny");
    assert!(matches!(run_with_ok_codec(&buf), Err(Error::UnexpectedEnd)));
}

#[test]
fn rejected_instruction_fails_the_pass() {
    let buf = frame(0, b"bad-instr");
    let mut d = DecodeDriver::new(&buf);
    match d.poll() {
        Poll::ApplyControl(_instr) => d.control_applied(false),
        _ => panic!("expected a control frame"),
    }
    assert!(matches!(d.poll(), Poll::Finished));
    assert!(matches!(d.into_result(), Err(Error::Codec)));
}

#[test]
fn rejected_header_block_fails_the_pass() {
    let buf = frame(1, b"bad-block");
    let mut d = DecodeDriver::new(&buf);
    match d.poll() {
        Poll::DecodeData(_block) => d.block_decoded(None),
        _ => panic!("expected a data frame"),
    }
    assert!(matches!(d.poll(), Poll::Finished));
    assert!(matches!(d.into_result(), Err(Error::Codec)));
}
