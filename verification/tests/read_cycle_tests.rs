use resp_ping::respond::respond_to_buffer;

/// One connection's read buffer across sequential reads: fixed size, reused,
/// each read overwriting only as many bytes as arrived.
fn read_into(buf: &mut [u8; 1024], bytes: &[u8]) {
    buf[..bytes.len()].copy_from_slice(bytes);
}

/// Two sequential reads on one connection, each carrying one bare `PING`,
/// are each answered with `+PONG\r\n` in their own read cycle.
#[test]
fn two_sequential_ping_reads_each_get_a_pong() {
    let mut buf = [0u8; 1024];

    read_into(&mut buf, b"*1\r\n$4\r\nPING\r\n");
    let responses = respond_to_buffer(&buf.to_vec()).unwrap();
    assert_eq!(responses, vec![b"+PONG\r\n".to_vec()]);

    read_into(&mut buf, b"*1\r\n$4\r\nPING\r\n");
    let responses = respond_to_buffer(&buf.to_vec()).unwrap();
    assert_eq!(responses, vec![b"+PONG\r\n".to_vec()]);
}

/// A shorter second read leaves stale bytes of the first message in the
/// buffer; the declared count keeps them out of the decoded batch.
#[test]
fn stale_bytes_after_a_shorter_read_are_ignored() {
    let mut buf = [0u8; 1024];

    read_into(&mut buf, b"*1\r\n$10\r\nPING hello\r\n");
    let responses = respond_to_buffer(&buf.to_vec()).unwrap();
    assert_eq!(responses, vec![b"+hello\r\n".to_vec()]);

    read_into(&mut buf, b"*1\r\n$4\r\nPING\r\n");
    let responses = respond_to_buffer(&buf.to_vec()).unwrap();
    assert_eq!(responses, vec![b"+PONG\r\n".to_vec()]);
}
