use nzbrs::error::DownloadError;
use nzbrs::yenc::FileWriter;

fn crc_of(data: &[u8]) -> u32 {
    let mut h = crc32fast::Hasher::new();
    h.update(data);
    h.finalize()
}

fn encoded(data: &[u8]) -> Vec<u8> {
    let mut out = Vec::new();
    nzbrs::yenc::encode(data, &mut out);
    out.push(13);
    out.push(10);
    out
}

#[test]
fn first_line_must_be_header() {
    let mut w = FileWriter::new(0);
    assert_eq!(w.consume(b"hello").unwrap_err(), DownloadError::ExpectHeader);
    assert!(w.consume(b"=ybegin part=1 size=3 name=a\r\n").unwrap().is_none());
}

#[test]
fn second_line_must_be_part() {
    let mut w = FileWriter::new(0);
    w.consume(b"=ybegin part=1 size=3 name=a\r\n").unwrap();
    assert_eq!(w.consume(b"data before part").unwrap_err(), DownloadError::ExpectPart);
}

#[test]
fn part_begin_overrides_scheduled_offset() {
    // Offset authority: scheduled 1000, declared begin=2001, chunks
    // land from 2000 on.
    let mut w = FileWriter::new(1000);
    w.consume(b"=ybegin part=1 size=20 name=a\r\n").unwrap();
    w.consume(b"=ypart begin=2001 end=2020\r\n").unwrap();
    let part = w.consume(&encoded(b"ABCDEFGHIJ")).unwrap().unwrap();
    assert_eq!(part.offset, 2000);
    assert_eq!(part.buff, b"ABCDEFGHIJ".to_vec());
    let part2 = w.consume(&encoded(b"KLMNOPQRST")).unwrap().unwrap();
    assert_eq!(part2.offset, 2010);
}

#[test]
fn scheduled_offset_stands_without_begin() {
    let mut w = FileWriter::new(1000);
    w.consume(b"=ybegin part=1 size=3 name=a\r\n").unwrap();
    w.consume(b"=ypart end=20\r\n").unwrap();
    let part = w.consume(&encoded(b"xyz")).unwrap().unwrap();
    assert_eq!(part.offset, 1000);
}

#[test]
fn malformed_part_directives_are_a_format_error() {
    let mut w = FileWriter::new(0);
    w.consume(b"=ybegin part=1 size=3 name=a\r\n").unwrap();
    assert_eq!(w.consume(b"=ypart").unwrap_err(), DownloadError::Format);
}

#[test]
fn part_directives_with_junk_bytes_abort_the_article() {
    // Malformed UTF-8 anywhere in the directive text is a format
    // error, even in a token the consumer does not read.
    let mut w = FileWriter::new(0);
    w.consume(b"=ybegin part=1 size=3 name=a\r\n").unwrap();
    assert_eq!(
        w.consume(&[61, 121, 112, 97, 114, 116, 32, 98, 61, 255, 32, 98, 101, 103, 105, 110, 61, 49])
            .unwrap_err(),
        DownloadError::Format
    );
}

#[test]
fn trailer_with_matching_checksum_succeeds() {
    let data = b"twenty bytes of data";
    let mut w = FileWriter::new(0);
    w.consume(b"=ybegin part=1 size=20 name=a\r\n").unwrap();
    w.consume(b"=ypart begin=1 end=20\r\n").unwrap();
    w.consume(&encoded(data)).unwrap();
    let trailer = format!("=yend size=20 pcrc32={:08X}\r\n", crc_of(data));
    assert!(w.consume(trailer.as_bytes()).unwrap().is_none());
}

#[test]
fn trailer_checksum_is_case_insensitive() {
    let data = b"abc";
    let mut w = FileWriter::new(0);
    w.consume(b"=ybegin part=1 size=3 name=a\r\n").unwrap();
    w.consume(b"=ypart begin=1 end=3\r\n").unwrap();
    w.consume(&encoded(data)).unwrap();
    let trailer = format!("=yend size=3 pcrc32={:08x}\r\n", crc_of(data));
    assert!(w.consume(trailer.as_bytes()).unwrap().is_none());
}

#[test]
fn trailer_with_wrong_checksum_is_an_integrity_error() {
    // Checksum enforcement: a declared value that does not match the
    // decoded content must fail, never report success.
    let data = b"twenty bytes of data";
    let good = crc_of(data);
    let bad = good ^ 1;
    let mut w = FileWriter::new(0);
    w.consume(b"=ybegin part=1 size=20 name=a\r\n").unwrap();
    w.consume(b"=ypart begin=1 end=20\r\n").unwrap();
    w.consume(&encoded(data)).unwrap();
    let trailer = format!("=yend size=20 pcrc32={:08X}\r\n", bad);
    assert_eq!(
        w.consume(trailer.as_bytes()).unwrap_err(),
        DownloadError::Integrity { declared: bad, computed: good }
    );
}

#[test]
fn trailer_without_checksum_succeeds() {
    let mut w = FileWriter::new(0);
    w.consume(b"=ybegin part=1 size=3 name=a\r\n").unwrap();
    w.consume(b"=ypart begin=1 end=3\r\n").unwrap();
    w.consume(&encoded(b"abc")).unwrap();
    assert!(w.consume(b"=yend size=3\r\n").unwrap().is_none());
    assert!(w.done().is_ok());
}

#[test]
fn bad_trailer_hex_is_a_format_error() {
    let mut w = FileWriter::new(0);
    w.consume(b"=ybegin part=1 size=3 name=a\r\n").unwrap();
    w.consume(b"=ypart begin=1 end=3\r\n").unwrap();
    w.consume(&encoded(b"abc")).unwrap();
    assert_eq!(w.consume(b"=yend size=3 pcrc32=zz\r\n").unwrap_err(), DownloadError::Format);
}

#[test]
fn begin_zero_leaves_offset_unchanged() {
    let mut w = FileWriter::new(7);
    w.consume(b"=ybegin part=1 size=3 name=a\r\n").unwrap();
    w.consume(b"=ypart begin=0 end=3\r\n").unwrap();
    let part = w.consume(&encoded(b"abc")).unwrap().unwrap();
    assert_eq!(part.offset, 7);
}
