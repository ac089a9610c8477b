use vinsly::codec::{decode_bytes, encode_bytes};
use vinsly::stream::{OutputStream, ReadOutcome, ReaderEvent};

fn feed(stream: &mut OutputStream, reads: Vec<ReadOutcome>) -> Vec<ReaderEvent> {
    let mut events = Vec::new();
    for r in reads {
        if let Some(e) = stream.on_read(r) {
            events.push(e);
        }
    }
    events
}

#[test]
fn encoding_is_standard_base64() {
    assert_eq!(encode_bytes(b"hi"), "aGk=");
    assert_eq!(encode_bytes(b""), "");
    assert_eq!(encode_bytes(&[0u8, 255, 10]), "AP8K");
    assert_eq!(decode_bytes("ZWNobyBoaQo="), Some(b"echo hi\n".to_vec()));
    assert_eq!(decode_bytes("@@"), None);
}

#[test]
fn chunk_becomes_one_output_event() {
    let mut s = OutputStream::new("t1".to_string());
    match s.on_read(ReadOutcome::Data(b"hi".to_vec())) {
        Some(ReaderEvent::Output(ev)) => {
            assert_eq!(ev.terminal_id, "t1");
            assert_eq!(ev.data, "aGk=");
        }
        _ => panic!("expected an output event"),
    }
    assert!(!s.finished());
}

#[test]
fn zero_length_read_gives_one_exit() {
    let mut s = OutputStream::new("t1".to_string());
    let events = feed(
        &mut s,
        vec![
            ReadOutcome::Data(b"a".to_vec()),
            ReadOutcome::Data(Vec::new()),
            ReadOutcome::Data(b"late".to_vec()),
            ReadOutcome::Data(Vec::new()),
            ReadOutcome::Failed,
        ],
    );
    assert_eq!(events.len(), 2);
    assert!(matches!(&events[0], ReaderEvent::Output(_)));
    match &events[1] {
        ReaderEvent::Exit(ev) => {
            assert_eq!(ev.terminal_id, "t1");
            assert_eq!(ev.exit_code, None);
        }
        _ => panic!("expected the exit event"),
    }
    assert!(s.finished());
}

#[test]
fn read_error_ends_the_stream() {
    let mut s = OutputStream::new("t2".to_string());
    let events = feed(&mut s, vec![ReadOutcome::Failed, ReadOutcome::Failed]);
    assert_eq!(events.len(), 1);
    assert!(matches!(&events[0], ReaderEvent::Exit(_)));
}

#[test]
fn outputs_decode_to_the_bytes_read_in_order() {
    let chunks: Vec<Vec<u8>> = vec![b"hel".to_vec(), vec![0, 200, 255], b"lo\r\n".to_vec()];
    let mut s = OutputStream::new("t3".to_string());
    let mut reads: Vec<ReadOutcome> = chunks.iter().map(|c| ReadOutcome::Data(c.clone())).collect();
    reads.push(ReadOutcome::Data(Vec::new()));
    let events = feed(&mut s, reads);
    let mut joined = Vec::new();
    let mut exits = 0;
    for e in &events {
        match e {
            ReaderEvent::Output(ev) => joined.extend(decode_bytes(&ev.data).unwrap()),
            ReaderEvent::Exit(_) => exits += 1,
        }
    }
    assert_eq!(joined, chunks.concat());
    assert_eq!(exits, 1);
}
