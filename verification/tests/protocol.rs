use kvserver::command::{get_command_from_message, Command, ProtocolError};
use kvserver::connection::process_line;
use kvserver::frame::FrameReader;
use kvserver::thread_safe_map::ThreadSafeMap;

fn b(s: &str) -> Vec<u8> {
    s.as_bytes().to_vec()
}

/// Feeds each line to one connection's reader and collects every reply.
fn run_lines(
    reader: &mut FrameReader,
    map: &mut ThreadSafeMap,
    lines: &[&str],
) -> Result<Vec<Vec<u8>>, ProtocolError> {
    let mut replies = Vec::new();
    for line in lines {
        if let Some(reply) = process_line(reader, map, &b(line))? {
            replies.push(reply);
        }
    }
    Ok(replies)
}

#[test]
fn scenario_ping() {
    let mut reader = FrameReader::new();
    let mut map = ThreadSafeMap::new();
    let replies = run_lines(&mut reader, &mut map, &["*1", "$4", "PING"]).unwrap();
    assert_eq!(replies, vec![b("+PONG\r\n")]);
}

#[test]
fn scenario_echo() {
    let mut reader = FrameReader::new();
    let mut map = ThreadSafeMap::new();
    let replies = run_lines(&mut reader, &mut map, &["*2", "$4", "ECHO", "$3", "hey"]).unwrap();
    assert_eq!(replies, vec![b("$3\r\nhey\r\n")]);
}

#[test]
fn scenario_set_then_get() {
    let mut reader = FrameReader::new();
    let mut map = ThreadSafeMap::new();
    let replies = run_lines(
        &mut reader,
        &mut map,
        &["*3", "$3", "SET", "$3", "foo", "$3", "bar"],
    )
    .unwrap();
    assert_eq!(replies, vec![b("+OK\r\n")]);
    let replies = run_lines(&mut reader, &mut map, &["*2", "$3", "GET", "$3", "foo"]).unwrap();
    assert_eq!(replies, vec![b("$3\r\nbar\r\n")]);
}

#[test]
fn scenario_get_missing() {
    let mut reader = FrameReader::new();
    let mut map = ThreadSafeMap::new();
    let replies =
        run_lines(&mut reader, &mut map, &["*2", "$3", "GET", "$7", "missing"]).unwrap();
    assert_eq!(replies, vec![b("$-1\r\n")]);
}

#[test]
fn scenario_two_connections_same_key() {
    // Two connections, one shared store: whichever write arrives last wins,
    // and a later read from either connection sees exactly that value.
    let mut reader_a = FrameReader::new();
    let mut reader_b = FrameReader::new();
    let mut map = ThreadSafeMap::new();
    let ra = run_lines(
        &mut reader_a,
        &mut map,
        &["*3", "$3", "SET", "$1", "x", "$1", "1"],
    )
    .unwrap();
    assert_eq!(ra, vec![b("+OK\r\n")]);
    let rb = run_lines(
        &mut reader_b,
        &mut map,
        &["*3", "$3", "SET", "$1", "x", "$1", "2"],
    )
    .unwrap();
    assert_eq!(rb, vec![b("+OK\r\n")]);
    let ga = run_lines(&mut reader_a, &mut map, &["*2", "$3", "GET", "$1", "x"]).unwrap();
    let gb = run_lines(&mut reader_b, &mut map, &["*2", "$3", "GET", "$1", "x"]).unwrap();
    assert_eq!(ga, vec![b("$1\r\n2\r\n")]);
    assert_eq!(gb, vec![b("$1\r\n2\r\n")]);
}

#[test]
fn lowercase_commands_are_accepted() {
    let mut reader = FrameReader::new();
    let mut map = ThreadSafeMap::new();
    let replies = run_lines(&mut reader, &mut map, &["*1", "$4", "ping"]).unwrap();
    assert_eq!(replies, vec![b("+PONG\r\n")]);
}

#[test]
fn unrecognized_lines_are_ignored() {
    let mut reader = FrameReader::new();
    let mut map = ThreadSafeMap::new();
    let replies =
        run_lines(&mut reader, &mut map, &["", "+noise", "*1", "what", "$4", "PING"]).unwrap();
    assert_eq!(replies, vec![b("+PONG\r\n")]);
}

#[test]
fn partial_frame_emits_nothing() {
    let mut reader = FrameReader::new();
    let mut map = ThreadSafeMap::new();
    let replies = run_lines(&mut reader, &mut map, &["*2", "$4", "ECHO"]).unwrap();
    assert_eq!(replies, Vec::<Vec<u8>>::new());
}

#[test]
fn bad_array_header_is_a_framing_error() {
    let mut reader = FrameReader::new();
    let mut map = ThreadSafeMap::new();
    let err = run_lines(&mut reader, &mut map, &["*abc"]).unwrap_err();
    assert_eq!(err, ProtocolError::Framing);
    let mut reader = FrameReader::new();
    let err = run_lines(&mut reader, &mut map, &["*"]).unwrap_err();
    assert_eq!(err, ProtocolError::Framing);
}

#[test]
fn empty_frame_is_a_classification_error() {
    let mut reader = FrameReader::new();
    let mut map = ThreadSafeMap::new();
    let err = run_lines(&mut reader, &mut map, &["*0"]).unwrap_err();
    assert_eq!(err, ProtocolError::Classification);
}

#[test]
fn unknown_command_is_a_classification_error() {
    let mut reader = FrameReader::new();
    let mut map = ThreadSafeMap::new();
    let err = run_lines(&mut reader, &mut map, &["*1", "$4", "QUIT"]).unwrap_err();
    assert_eq!(err, ProtocolError::Classification);
}

#[test]
fn missing_arguments_are_a_classification_error() {
    let mut reader = FrameReader::new();
    let mut map = ThreadSafeMap::new();
    let err = run_lines(&mut reader, &mut map, &["*1", "$3", "GET"]).unwrap_err();
    assert_eq!(err, ProtocolError::Classification);
}

#[test]
fn bulk_length_is_advisory_only() {
    // The declared $-length need not match the content; the next line is
    // taken literally either way.
    let mut reader = FrameReader::new();
    let mut map = ThreadSafeMap::new();
    let replies = run_lines(&mut reader, &mut map, &["*2", "$99", "ECHO", "$1", "hey"]).unwrap();
    assert_eq!(replies, vec![b("$3\r\nhey\r\n")]);
}

#[test]
fn extra_arguments_are_ignored() {
    let msg = vec![b("ECHO"), b("one"), b("two")];
    match get_command_from_message(&msg) {
        Ok(Command::Echo(x)) => assert_eq!(x, b("one")),
        _ => panic!("expected Echo"),
    }
}

#[test]
fn classification_is_case_insensitive() {
    let msg = vec![b("sEt"), b("k"), b("v")];
    match get_command_from_message(&msg) {
        Ok(Command::Put(k, v)) => {
            assert_eq!(k, b("k"));
            assert_eq!(v, b("v"));
        },
        _ => panic!("expected Put"),
    }
}

#[test]
fn empty_message_is_rejected() {
    let msg: Vec<Vec<u8>> = Vec::new();
    assert_eq!(
        get_command_from_message(&msg).unwrap_err(),
        ProtocolError::Classification
    );
}
