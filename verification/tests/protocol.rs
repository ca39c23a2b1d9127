use nzbrs::error::DownloadError;
use nzbrs::nntp::{
    auth_pass_cmd, auth_user_cmd, body_cmd, group_cmd, is_terminator, parse_status, Connection,
    Stream,
};
use nzbrs::yenc::{FilePart, FileWriter};

/// A transport fed from a fixed script of lines; everything written to
/// it is recorded. A read past the script is a zero-length read, which
/// the connection must treat as a disconnection.
struct ScriptStream {
    lines: Vec<Vec<u8>>,
    pos: usize,
    written: Vec<u8>,
}

impl ScriptStream {
    fn new(lines: &[&[u8]]) -> ScriptStream {
        ScriptStream { lines: lines.iter().map(|l| l.to_vec()).collect(), pos: 0, written: Vec::new() }
    }
}

impl Stream for ScriptStream {
    fn read_line(&mut self, buf: &mut Vec<u8>) -> Result<usize, DownloadError> {
        if self.pos >= self.lines.len() {
            return Ok(0);
        }
        let line = &self.lines[self.pos];
        self.pos += 1;
        buf.extend_from_slice(line);
        Ok(line.len())
    }

    fn write_all(&mut self, buf: &[u8]) -> Result<(), DownloadError> {
        self.written.extend_from_slice(buf);
        Ok(())
    }
}

/// A transport whose reads always fail.
struct BrokenStream;

impl Stream for BrokenStream {
    fn read_line(&mut self, _buf: &mut Vec<u8>) -> Result<usize, DownloadError> {
        Err(DownloadError::Transport)
    }

    fn write_all(&mut self, _buf: &[u8]) -> Result<(), DownloadError> {
        Ok(())
    }
}

fn crc_of(data: &[u8]) -> u32 {
    let mut h = crc32fast::Hasher::new();
    h.update(data);
    h.finalize()
}

#[test]
fn parse_status_reads_leading_code() {
    assert_eq!(parse_status(b"200 welcome\r\n"), Some(200));
    assert_eq!(parse_status(b"381 more auth\r\n"), Some(381));
    assert_eq!(parse_status(b"abc def"), None);
    assert_eq!(parse_status(b"200\r\n"), None);
    assert_eq!(parse_status(b"70000 too big"), None);
    assert_eq!(parse_status(b""), None);
}

#[test]
fn terminator_is_exact_match_not_prefix() {
    assert!(is_terminator(b".\r\n"));
    assert!(!is_terminator(b"..\r\n"));
    assert!(!is_terminator(b".\n"));
    assert!(!is_terminator(b".\r\nx"));
}

#[test]
fn command_lines_are_built_exactly() {
    assert_eq!(body_cmd(b"abc@d"), b"BODY <abc@d>\r\n".to_vec());
    assert_eq!(group_cmd(b"alt.binaries"), b"GROUP alt.binaries\r\n".to_vec());
    assert_eq!(auth_user_cmd(b"u"), b"AUTHINFO USER u\r\n".to_vec());
    assert_eq!(auth_pass_cmd(b"p"), b"AUTHINFO PASS p\r\n".to_vec());
}

#[test]
fn init_accepts_greeting_and_rejects_others() {
    let conn = Connection::init(ScriptStream::new(&[b"200 ready\r\n"])).unwrap();
    assert!(!conn.disconnected);
    match Connection::init(ScriptStream::new(&[b"400 go away\r\n"])) {
        Err(e) => assert_eq!(e, DownloadError::Protocol { expected: 200, got: 400 }),
        Ok(_) => panic!("a wrong greeting must be rejected"),
    }
}

#[test]
fn init_on_closed_stream_is_disconnection() {
    match Connection::init(ScriptStream::new(&[])) {
        Err(e) => assert_eq!(e, DownloadError::Disconnected),
        Ok(_) => panic!("a closed stream must be a disconnection"),
    }
}

#[test]
fn set_group_sends_command_once_and_caches() {
    let stream = ScriptStream::new(&[b"200 hi\r\n", b"211 group selected\r\n"]);
    let mut conn = Connection::init(stream).unwrap();
    conn.set_group("alt.binaries.test").unwrap();
    assert_eq!(conn.current_group, b"alt.binaries.test".to_vec());
    // Second selection of the same group must not read another response.
    conn.set_group("alt.binaries.test").unwrap();
    assert_eq!(conn.stream.written, b"GROUP alt.binaries.test\r\n".to_vec());
}

#[test]
fn set_group_failure_keeps_old_group() {
    let stream = ScriptStream::new(&[b"200 hi\r\n", b"411 no such group\r\n"]);
    let mut conn = Connection::init(stream).unwrap();
    let err = conn.set_group("nope").unwrap_err();
    assert_eq!(err, DownloadError::Protocol { expected: 211, got: 411 });
    assert_eq!(conn.current_group, Vec::<u8>::new());
    assert!(!conn.disconnected);
}

#[test]
fn authenticate_walks_both_statuses() {
    let stream = ScriptStream::new(&[b"200 hi\r\n", b"381 send pass\r\n", b"281 ok\r\n"]);
    let mut conn = Connection::init(stream).unwrap();
    conn.authenticate("user", "secret").unwrap();
    assert_eq!(conn.stream.written, b"AUTHINFO USER user\r\nAUTHINFO PASS secret\r\n".to_vec());
}

#[test]
fn garbage_status_line_is_a_bad_response() {
    match Connection::init(ScriptStream::new(&[b"hello there\r\n"])) {
        Err(e) => assert_eq!(e, DownloadError::BadResponse),
        Ok(_) => panic!("a garbage greeting must be rejected"),
    }
}

#[test]
fn transport_error_marks_connection_disconnected() {
    let mut conn = Connection {
        stream: BrokenStream,
        buff: Vec::new(),
        disconnected: false,
        current_group: Vec::new(),
    };
    assert_eq!(conn.read_line().unwrap_err(), DownloadError::Transport);
    assert!(conn.disconnected);
}

fn article_lines(data: &[u8], begin: u64) -> Vec<Vec<u8>> {
    let mut enc = Vec::new();
    nzbrs::yenc::encode(data, &mut enc);
    enc.push(13);
    enc.push(10);
    vec![
        format!("=ybegin part=1 size={} name=out.bin\r\n", data.len()).into_bytes(),
        format!("=ypart begin={} end={}\r\n", begin, begin + data.len() as u64 - 1).into_bytes(),
        enc,
        format!("=yend size={} pcrc32={:08x}\r\n", data.len(), crc_of(data)).into_bytes(),
        b".\r\n".to_vec(),
    ]
}

#[test]
fn article_body_streams_lines_and_stops_at_terminator() {
    let mut script = vec![b"200 hi\r\n".to_vec(), b"222 body follows\r\n".to_vec()];
    script.extend(article_lines(b"ABCDEFGHIJ", 1));
    let refs: Vec<&[u8]> = script.iter().map(|v| v.as_slice()).collect();
    let mut conn = Connection::init(ScriptStream::new(&refs)).unwrap();
    let mut writer = FileWriter::new(0);
    let mut parts: Vec<FilePart> = Vec::new();
    conn.article_body("seg@example", &mut writer, &mut parts).unwrap();
    assert_eq!(parts.len(), 1);
    assert_eq!(parts[0].offset, 0);
    assert_eq!(parts[0].buff, b"ABCDEFGHIJ".to_vec());
    assert!(conn.stream.written.ends_with(b"BODY <seg@example>\r\n"));
    assert!(!conn.disconnected);
}

#[test]
fn article_body_surfaces_checksum_mismatch() {
    let data = b"ABCDEFGHIJ";
    let bad = crc_of(data) ^ 1;
    let script: Vec<Vec<u8>> = vec![
        b"200 hi\r\n".to_vec(),
        b"222 body follows\r\n".to_vec(),
        format!("=ybegin part=1 size={} name=out.bin\r\n", data.len()).into_bytes(),
        b"=ypart begin=1 end=10\r\n".to_vec(),
        {
            let mut enc = Vec::new();
            nzbrs::yenc::encode(data, &mut enc);
            enc.push(13);
            enc.push(10);
            enc
        },
        format!("=yend size={} pcrc32={:08x}\r\n", data.len(), bad).into_bytes(),
        b".\r\n".to_vec(),
    ];
    let refs: Vec<&[u8]> = script.iter().map(|v| v.as_slice()).collect();
    let mut conn = Connection::init(ScriptStream::new(&refs)).unwrap();
    let mut writer = FileWriter::new(0);
    let mut parts: Vec<FilePart> = Vec::new();
    let err = conn.article_body("seg@example", &mut writer, &mut parts).unwrap_err();
    assert!(matches!(err, DownloadError::Integrity { .. }));
}
