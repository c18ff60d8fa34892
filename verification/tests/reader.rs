use sos::sandbox::io::{
    read_stream_until_idle, ReadError, ReadStep, StreamEvent, StreamReader, POLL_PAUSE,
};

const SECOND: u64 = 1_000_000_000;

fn chunk(text: &str) -> StreamEvent {
    StreamEvent::Chunk(text.as_bytes().to_vec())
}

#[test]
fn a_chunk_with_the_prompt_ends_the_read() {
    let mut reader = StreamReader::new("id", 2 * SECOND, 1);
    assert!(matches!(reader.step(&StreamEvent::Started, 0), ReadStep::Wait));
    assert!(matches!(reader.step(&chunk("Hello"), 10), ReadStep::Wait));
    match reader.step(&chunk(", World!\r\n#PS1-id#:0:"), 20) {
        ReadStep::Done(text) => assert_eq!(text, "Hello, World!\n#PS1-id#:0:"),
        other => panic!("{:?}", other),
    }
    assert_eq!(reader.text(), "Hello, World!\n#PS1-id#:0:");
}

#[test]
fn a_prompt_split_over_chunks_is_seen_once_whole() {
    let mut reader = StreamReader::new("id", 2 * SECOND, 1);
    assert!(matches!(reader.step(&chunk("out\n#PS1-"), 1), ReadStep::Wait));
    assert!(matches!(reader.step(&chunk("id#:1"), 2), ReadStep::Wait));
    match reader.step(&chunk("2:"), 3) {
        ReadStep::Done(text) => assert_eq!(text, "out\n#PS1-id#:12:"),
        other => panic!("{:?}", other),
    }
}

#[test]
fn escape_sequences_are_stripped_chunk_by_chunk() {
    let mut reader = StreamReader::new("id", 2 * SECOND, 1);
    match reader.step(&chunk("\u{1b}[32mgreen\u{1b}[m\r\n#PS1-id#:0:"), 1) {
        ReadStep::Done(text) => assert_eq!(text, "green\n#PS1-id#:0:"),
        other => panic!("{:?}", other),
    }
}

#[test]
fn bytes_that_are_not_utf8_are_replaced() {
    let mut reader = StreamReader::new("id", 2 * SECOND, 1);
    let mut bytes = vec![0xFFu8, b'a'];
    bytes.extend_from_slice(b"#PS1-id#:0:");
    match reader.step(&StreamEvent::Chunk(bytes), 1) {
        ReadStep::Done(text) => assert_eq!(text, "\u{FFFD}a#PS1-id#:0:"),
        other => panic!("{:?}", other),
    }
}

#[test]
fn a_command_of_several_lines_ends_at_its_last_prompt() {
    // Two newlines in the command: the read ends once two prompts came.
    let mut reader = StreamReader::new("id", 2 * SECOND, 2);
    assert!(matches!(reader.step(&chunk("First\n#PS1-id#:0:"), 1), ReadStep::Wait));
    match reader.step(&chunk("Second\n#PS1-id#:0:"), 2) {
        ReadStep::Done(text) => assert_eq!(text, "First\n#PS1-id#:0:Second\n#PS1-id#:0:"),
        other => panic!("{:?}", other),
    }
}

#[test]
fn the_short_circuit_does_not_look_at_the_clock() {
    let mut reader = StreamReader::new("id", 2 * SECOND, 1);
    assert!(matches!(reader.step(&chunk("#PS1-id#:0:"), 100 * SECOND), ReadStep::Done(_)));
}

#[test]
fn more_prompts_than_asked_for_end_the_read_too() {
    let mut reader = StreamReader::new("id", 2 * SECOND, 2);
    assert!(matches!(
        reader.step(&chunk("#PS1-id#:0:#PS1-id#:0:#PS1-id#:0:"), 1),
        ReadStep::Done(_)
    ));
}

#[test]
fn a_limit_of_no_prompt_ends_the_read_at_the_first_one() {
    let mut reader = StreamReader::new("id", 2 * SECOND, 0);
    assert!(matches!(reader.step(&StreamEvent::Started, 0), ReadStep::Wait));
    assert!(matches!(reader.step(&chunk("no prompt yet"), 1), ReadStep::Wait));
    assert!(matches!(reader.step(&chunk("#PS1-id#:0:"), 2), ReadStep::Done(_)));
}

#[test]
fn an_idle_stream_ends_the_read_only_with_a_prompt() {
    let mut reader = StreamReader::new("id", 2 * SECOND, 3);
    assert!(matches!(reader.step(&chunk("working"), 1), ReadStep::Wait));
    assert!(matches!(reader.step(&StreamEvent::Idle, 2), ReadStep::Pause));
    assert!(matches!(reader.step(&StreamEvent::Resumed, 3), ReadStep::Wait));
    assert!(matches!(reader.step(&chunk("\n#PS1-id#:0:"), 4), ReadStep::Wait));
    match reader.step(&StreamEvent::Idle, 5) {
        ReadStep::Done(text) => assert_eq!(text, "working\n#PS1-id#:0:"),
        other => panic!("{:?}", other),
    }
}

#[test]
fn the_read_gives_up_when_the_time_is_up() {
    let mut reader = StreamReader::new("id", 2 * SECOND, 1);
    assert!(matches!(reader.step(&StreamEvent::Started, 2 * SECOND), ReadStep::Wait));
    assert!(matches!(
        reader.step(&StreamEvent::Started, 2 * SECOND + 1),
        ReadStep::Failed(ReadError::OverallTimeout)
    ));
    assert!(matches!(
        reader.step(&chunk("slow"), 3 * SECOND),
        ReadStep::Failed(ReadError::OverallTimeout)
    ));
    assert!(matches!(
        reader.step(&StreamEvent::Resumed, 3 * SECOND),
        ReadStep::Failed(ReadError::OverallTimeout)
    ));
    // The chunk was taken in all the same.
    assert_eq!(reader.text(), "slow");
}

#[test]
fn a_closed_stream_fails_the_read() {
    let mut reader = StreamReader::new("id", 2 * SECOND, 1);
    assert!(matches!(
        reader.step(&StreamEvent::Closed, 1),
        ReadStep::Failed(ReadError::StreamClosed)
    ));
}

#[test]
fn read_errors_have_messages() {
    assert_eq!(
        ReadError::OverallTimeout.message(),
        "Overall timeout reached while waiting for output"
    );
    assert_eq!(ReadError::StreamClosed.message(), "Stream closed unexpectedly");
    assert_eq!(POLL_PAUSE, 10_000_000);
}

#[test]
fn a_recorded_stream_is_read_to_its_prompt() {
    let events = vec![
        (StreamEvent::Started, 0),
        (chunk("Setting up\r\n"), 1_000),
        (StreamEvent::Idle, 201_000_000),
        (StreamEvent::Resumed, 211_000_000),
        (chunk("#PS1-id#:0:"), 300_000_000),
        (chunk("never read"), 400_000_000),
    ];
    assert_eq!(
        read_stream_until_idle(&events, "id", 2 * SECOND, 1),
        Ok("Setting up\n#PS1-id#:0:".to_string())
    );
}

#[test]
fn a_recorded_stream_without_a_prompt_times_out() {
    let events = vec![
        (StreamEvent::Started, 0),
        (chunk("sleeping"), 1_000),
        (StreamEvent::Idle, SECOND),
        (StreamEvent::Resumed, SECOND + POLL_PAUSE),
        (StreamEvent::Idle, 2 * SECOND),
        (StreamEvent::Resumed, 2 * SECOND + POLL_PAUSE),
        (chunk("#PS1-id#:0:"), 3 * SECOND),
    ];
    assert_eq!(
        read_stream_until_idle(&events, "id", 2 * SECOND, 1),
        Err(ReadError::OverallTimeout)
    );
}

#[test]
fn a_recorded_stream_that_ends_is_closed() {
    let events = vec![(StreamEvent::Started, 0), (chunk("half"), 1)];
    assert_eq!(
        read_stream_until_idle(&events, "id", 2 * SECOND, 1),
        Err(ReadError::StreamClosed)
    );
    assert_eq!(
        read_stream_until_idle(&Vec::new(), "id", 2 * SECOND, 1),
        Err(ReadError::StreamClosed)
    );
    let events = vec![(StreamEvent::Started, 0), (StreamEvent::Closed, 5), (chunk("#PS1-id#:0:"), 6)];
    assert_eq!(
        read_stream_until_idle(&events, "id", 2 * SECOND, 1),
        Err(ReadError::StreamClosed)
    );
}
