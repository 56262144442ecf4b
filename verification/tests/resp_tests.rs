use resp_ping::command::Command;
use resp_ping::command::interpret;
use resp_ping::frame::ArrayFrame;
use resp_ping::frame::BulkElement;
use resp_ping::frame::DecodeError;
use resp_ping::frame::parse_input;
use resp_ping::frame::parse_resp_array;
use resp_ping::frame::parse_resp_bulk_string;
use resp_ping::respond::render;
use resp_ping::respond::respond_to_buffer;
use resp_ping::respond::write_simple_string;

fn buf(s: &str) -> Vec<u8> {
    s.as_bytes().to_vec()
}

/// A fixed-size read buffer holding `s` followed by NUL padding, the way a
/// socket read leaves it.
fn padded(s: &str) -> Vec<u8> {
    let mut v = vec![0u8; 1024];
    v[..s.len()].copy_from_slice(s.as_bytes());
    v
}

fn frame(input: &str) -> ArrayFrame {
    parse_input(&padded(input)).expect("frame should decode")
}

#[test]
fn ping_frame_decodes_to_one_bare_ping() {
    let f = frame("*1\r\n$4\r\nPING\r\n");
    assert_eq!(f.count, 1);
    assert_eq!(f.elements.len(), 1);
    assert_eq!(f.elements[0].declared_length, 4);
    assert_eq!(f.elements[0].content, b"PING".to_vec());
    let c = interpret(&f.elements[0]);
    assert!(matches!(c, Command::Ping { argument: None }));
}

#[test]
fn ping_frame_is_answered_with_pong() {
    let rs = respond_to_buffer(&padded("*1\r\n$4\r\nPING\r\n")).unwrap();
    assert_eq!(rs, vec![b"+PONG\r\n".to_vec()]);
}

#[test]
fn ping_with_argument_echoes_the_argument() {
    let rs = respond_to_buffer(&padded("*1\r\n$10\r\nPING hello\r\n")).unwrap();
    assert_eq!(rs, vec![b"+hello\r\n".to_vec()]);
}

#[test]
fn content_line_shorter_than_declared_length_is_empty_content() {
    let f = frame("*1\r\n$11\r\nPING hello\r\n");
    assert_eq!(f.elements.len(), 1);
    assert_eq!(f.elements[0].declared_length, 11);
    assert_eq!(f.elements[0].content, b"".to_vec());
    let c = interpret(&f.elements[0]);
    assert!(matches!(c, Command::Invalid));
}

#[test]
fn empty_buffer_decodes_to_nothing() {
    let f = parse_input(&Vec::new()).unwrap();
    assert_eq!(f.count, 0);
    assert_eq!(f.elements.len(), 0);
    let rs = respond_to_buffer(&Vec::new()).unwrap();
    assert_eq!(rs.len(), 0);
}

#[test]
fn padding_only_buffer_decodes_to_nothing() {
    let f = parse_input(&vec![0u8; 1024]).unwrap();
    assert_eq!(f.count, 0);
    assert_eq!(f.elements.len(), 0);
    let rs = respond_to_buffer(&vec![0u8; 1024]).unwrap();
    assert_eq!(rs.len(), 0);
}

#[test]
fn unrecognized_verb_is_answered_with_invalid_command() {
    let rs = respond_to_buffer(&padded("*1\r\n$4\r\nECHO\r\n")).unwrap();
    assert_eq!(rs, vec![b"+INVALID COMMAND\r\n".to_vec()]);
}

#[test]
fn lowercase_verb_is_not_recognized() {
    let rs = respond_to_buffer(&padded("*1\r\n$4\r\nping\r\n")).unwrap();
    assert_eq!(rs, vec![b"+INVALID COMMAND\r\n".to_vec()]);
}

#[test]
fn zero_length_bulk_string_is_empty_and_invalid() {
    let f = frame("*1\r\n$0\r\n\r\n");
    assert_eq!(f.elements.len(), 1);
    assert_eq!(f.elements[0].declared_length, 0);
    assert_eq!(f.elements[0].content, b"".to_vec());
    let c = interpret(&f.elements[0]);
    assert!(matches!(c, Command::Invalid));
    let rs = respond_to_buffer(&padded("*1\r\n$0\r\n\r\n")).unwrap();
    assert_eq!(rs, vec![b"+INVALID COMMAND\r\n".to_vec()]);
}

#[test]
fn negative_length_bulk_string_is_normalized_to_null() {
    let f = frame("*1\r\n$-5\r\n");
    assert_eq!(f.elements.len(), 1);
    assert_eq!(f.elements[0].declared_length, -1);
    assert_eq!(f.elements[0].content, b"".to_vec());
}

#[test]
fn decoding_twice_yields_identical_frames() {
    let input = padded("*2\r\n$4\r\nPING\r\n$10\r\nPING hello\r\n");
    let f1 = parse_resp_array(&input).unwrap();
    let f2 = parse_resp_array(&input).unwrap();
    assert_eq!(f1, f2);
}

#[test]
fn batch_of_three_commands_gets_three_responses_in_order() {
    let input = padded("*3\r\n$4\r\nPING\r\n$10\r\nPING hello\r\n$4\r\nECHO\r\n");
    let rs = respond_to_buffer(&input).unwrap();
    assert_eq!(
        rs,
        vec![
            b"+PONG\r\n".to_vec(),
            b"+hello\r\n".to_vec(),
            b"+INVALID COMMAND\r\n".to_vec(),
        ]
    );
}

#[test]
fn two_element_array_of_pings_gets_two_pongs() {
    let rs = respond_to_buffer(&padded("*2\r\n$4\r\nPING\r\n$4\r\nPING\r\n")).unwrap();
    assert_eq!(rs, vec![b"+PONG\r\n".to_vec(), b"+PONG\r\n".to_vec()]);
}

#[test]
fn stacked_arrays_in_one_buffer_only_decode_the_first_count() {
    let f = frame("*1\r\n$4\r\nPING\r\n*1\r\n$4\r\nPING\r\n");
    assert_eq!(f.count, 1);
    assert_eq!(f.elements.len(), 1);
    let rs = respond_to_buffer(&padded("*1\r\n$4\r\nPING\r\n*1\r\n$4\r\nPING\r\n")).unwrap();
    assert_eq!(rs, vec![b"+PONG\r\n".to_vec()]);
}

#[test]
fn plus_signed_count_is_accepted() {
    let rs = respond_to_buffer(&padded("*+1\r\n$4\r\nPING\r\n")).unwrap();
    assert_eq!(rs, vec![b"+PONG\r\n".to_vec()]);
}

#[test]
fn surrounding_whitespace_is_trimmed_before_decoding() {
    let rs = respond_to_buffer(&padded("  \r\n*1\r\n$4\r\nPING\r\n  ")).unwrap();
    assert_eq!(rs, vec![b"+PONG\r\n".to_vec()]);
}

#[test]
fn truncated_frame_decodes_fewer_elements_than_declared() {
    let f = frame("*2\r\n$4\r\nPING\r\n");
    assert_eq!(f.count, 2);
    assert_eq!(f.elements.len(), 1);
    assert_eq!(f.elements[0].content, b"PING".to_vec());
}

#[test]
fn non_numeric_count_is_a_bad_array_header() {
    assert_eq!(
        parse_resp_array(&padded("*x\r\n$4\r\nPING\r\n")),
        Err(DecodeError::BadArrayHeader)
    );
}

#[test]
fn missing_array_marker_is_a_bad_array_header() {
    assert_eq!(
        parse_resp_array(&padded("PING\r\n")),
        Err(DecodeError::BadArrayHeader)
    );
}

#[test]
fn count_too_large_for_i32_is_a_bad_array_header() {
    assert_eq!(
        parse_resp_array(&padded("*2147483648\r\n")),
        Err(DecodeError::BadArrayHeader)
    );
}

#[test]
fn count_at_i32_limits_decodes() {
    let f = frame("*2147483647\r\n");
    assert_eq!(f.count, 2147483647);
    assert_eq!(f.elements.len(), 0);
    let f = frame("*-2147483648\r\n");
    assert_eq!(f.count, -2147483648);
    assert_eq!(f.elements.len(), 0);
}

#[test]
fn non_numeric_element_length_is_a_bad_element_header() {
    assert_eq!(
        parse_resp_array(&padded("*1\r\n$y\r\nPING\r\n")),
        Err(DecodeError::BadElementHeader)
    );
}

#[test]
fn missing_element_marker_is_a_bad_element_header() {
    assert_eq!(
        parse_resp_array(&padded("*1\r\nPING\r\n")),
        Err(DecodeError::BadElementHeader)
    );
}

#[test]
fn negative_count_decodes_to_no_elements() {
    let f = frame("*-1\r\n$4\r\nPING\r\n");
    assert_eq!(f.count, -1);
    assert_eq!(f.elements.len(), 0);
}

#[test]
fn bulk_string_is_decoded_at_its_line_index() {
    let lines: Vec<Vec<u8>> = vec![b"*1".to_vec(), b"$4".to_vec(), b"PING".to_vec()];
    let (el, consumed) = parse_resp_bulk_string(&lines, 1).unwrap();
    assert_eq!(el.declared_length, 4);
    assert_eq!(el.content, b"PING".to_vec());
    assert_eq!(consumed, 2);
}

#[test]
fn bulk_string_longer_line_is_cut_to_declared_length() {
    let lines: Vec<Vec<u8>> = vec![b"$2".to_vec(), b"PING".to_vec()];
    let (el, consumed) = parse_resp_bulk_string(&lines, 0).unwrap();
    assert_eq!(el.declared_length, 2);
    assert_eq!(el.content, b"PI".to_vec());
    assert_eq!(consumed, 2);
}

#[test]
fn argument_tokens_are_rejoined_with_single_spaces() {
    let el = BulkElement {
        declared_length: 12,
        content: b"PING  a   b ".to_vec(),
    };
    let c = interpret(&el);
    match c {
        Command::Ping { argument: Some(a) } => assert_eq!(a, b"a b".to_vec()),
        _ => panic!("expected a ping with an argument"),
    }
}

#[test]
fn argument_nul_padding_is_stripped() {
    let el = BulkElement {
        declared_length: 6,
        content: b"PING x\0\0".to_vec(),
    };
    let c = interpret(&el);
    match c {
        Command::Ping { argument: Some(a) } => assert_eq!(a, b"x".to_vec()),
        _ => panic!("expected a ping with an argument"),
    }
}

#[test]
fn rendered_replies_match_each_command() {
    assert_eq!(render(&Command::Invalid), b"INVALID COMMAND".to_vec());
    assert_eq!(render(&Command::Ping { argument: None }), b"PONG".to_vec());
    assert_eq!(
        render(&Command::Ping { argument: Some(b"hey".to_vec()) }),
        b"hey".to_vec()
    );
}

#[test]
fn simple_string_wraps_with_plus_and_crlf() {
    assert_eq!(write_simple_string(&buf("abc")), b"+abc\r\n".to_vec());
    assert_eq!(write_simple_string(&Vec::new()), b"+\r\n".to_vec());
}
