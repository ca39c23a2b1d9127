use nzbrs::downloader::{get_total_download, schedule_offsets, Downloader, FileImage};
use nzbrs::error::DownloadError;
use nzbrs::nntp::{Connection, Stream};
use nzbrs::nzb::{File, Groups, Segment, Segments};
use nzbrs::yenc::{FilePart, FileWriter};

fn crc_of(data: &[u8]) -> u32 {
    let mut h = crc32fast::Hasher::new();
    h.update(data);
    h.finalize()
}

fn seg(bytes: u64, number: u32, id: &str) -> Segment {
    Segment { bytes, number, value: id.to_string() }
}

fn file_with(subject: &str, segs: Vec<Segment>) -> File {
    File {
        poster: "poster".to_string(),
        subject: subject.to_string(),
        date: 0,
        groups: Groups { group: vec!["alt.binaries.test".to_string()] },
        segments: Segments { segment: segs },
    }
}

#[test]
fn total_size_sums_declared_encoded_bytes() {
    let f = file_with("a \"b.mkv\" c", vec![seg(100, 1, "x"), seg(200, 2, "y")]);
    assert_eq!(f.total_size(), 300);
}

#[test]
fn name_is_first_quoted_token() {
    let f = file_with("post 1/2 \"movie.mkv\" yEnc (1/3)", Vec::new());
    assert_eq!(f.name().unwrap(), b"movie.mkv".to_vec());
}

#[test]
fn name_without_quote_is_none() {
    let f = file_with("no quotes here", Vec::new());
    assert!(f.name().is_none());
}

#[test]
fn name_with_single_quote_runs_to_end() {
    let f = file_with("abc\"def", Vec::new());
    assert_eq!(f.name().unwrap(), b"def".to_vec());
}

#[test]
fn offsets_are_cumulative_sums_of_preceding_sizes() {
    let segs = vec![seg(10, 1, "a"), seg(20, 2, "b"), seg(30, 3, "c")];
    assert_eq!(schedule_offsets(&segs), vec![0, 10, 30]);
}

#[test]
fn image_starts_zero_filled() {
    let img = FileImage::new(4);
    assert_eq!(img.data, vec![0, 0, 0, 0]);
}

#[test]
fn positioned_write_lands_at_offset() {
    let mut img = FileImage::new(8);
    img.write_part(&FilePart { offset: 3, buff: vec![1, 2, 3] });
    assert_eq!(img.data, vec![0, 0, 0, 1, 2, 3, 0, 0]);
}

#[test]
fn disjoint_writes_give_same_file_in_either_order() {
    // Concurrent disjoint writes: order of arrival does not matter.
    let a = FilePart { offset: 0, buff: vec![1, 2, 3, 4] };
    let b = FilePart { offset: 4, buff: vec![5, 6, 7, 8] };
    let mut img1 = FileImage::new(8);
    img1.write_part(&a);
    img1.write_part(&b);
    let mut img2 = FileImage::new(8);
    img2.write_part(&b);
    img2.write_part(&a);
    assert_eq!(img1.data, img2.data);
    assert_eq!(img1.data, vec![1, 2, 3, 4, 5, 6, 7, 8]);
}

#[test]
fn counter_accumulates_written_bytes() {
    let mut d = Downloader::new();
    let mut img = FileImage::new(8);
    d.write_chunk(&mut img, &FilePart { offset: 0, buff: vec![9; 5] });
    assert_eq!(get_total_download(&d), 5);
    d.write_chunk(&mut img, &FilePart { offset: 5, buff: vec![9; 3] });
    assert_eq!(get_total_download(&d), 8);
}

struct ScriptStream {
    lines: Vec<Vec<u8>>,
    pos: usize,
    written: Vec<u8>,
}

impl Stream for ScriptStream {
    fn read_line(&mut self, buf: &mut Vec<u8>) -> Result<usize, DownloadError> {
        if self.pos >= self.lines.len() {
            return Ok(0);
        }
        let line = &self.lines[self.pos];
        self.pos += 1;
        buf.extend_from_slice(line);
        Ok(line.len())
    }

    fn write_all(&mut self, buf: &[u8]) -> Result<(), DownloadError> {
        self.written.extend_from_slice(buf);
        Ok(())
    }
}

fn article_script(data: &[u8], begin: u64) -> Vec<Vec<u8>> {
    let mut enc = Vec::new();
    nzbrs::yenc::encode(data, &mut enc);
    enc.push(13);
    enc.push(10);
    vec![
        b"200 hi\r\n".to_vec(),
        b"222 body follows\r\n".to_vec(),
        format!("=ybegin part=1 size={} name=out.bin\r\n", data.len()).into_bytes(),
        format!("=ypart begin={} end={}\r\n", begin, begin + data.len() as u64 - 1).into_bytes(),
        enc,
        format!("=yend size={} pcrc32={:08x}\r\n", data.len(), crc_of(data)).into_bytes(),
        b".\r\n".to_vec(),
    ]
}

fn fetch(data: &[u8], begin: u64, scheduled: u64) -> Vec<FilePart> {
    let stream = ScriptStream { lines: article_script(data, begin), pos: 0, written: Vec::new() };
    let mut conn = Connection::init(stream).unwrap();
    let mut writer = FileWriter::new(scheduled);
    let mut parts = Vec::new();
    conn.article_body("seg@example", &mut writer, &mut parts).unwrap();
    parts
}

#[test]
fn fetch_segment_falls_back_through_groups() {
    // First group is refused (411), second accepted (211); then the
    // body request is served.
    let data = b"abc";
    let mut lines = vec![
        b"200 hi\r\n".to_vec(),
        b"411 no such group\r\n".to_vec(),
        b"211 ok\r\n".to_vec(),
    ];
    lines.extend_from_slice(&article_script(data, 1)[1..]);
    let stream = ScriptStream { lines, pos: 0, written: Vec::new() };
    let mut conn = Connection::init(stream).unwrap();
    let mut parts = Vec::new();
    nzbrs::downloader::fetch_segment(
        &mut conn,
        "seg@example",
        0,
        &vec!["first.group".to_string(), "second.group".to_string()],
        &mut parts,
    )
    .unwrap();
    assert_eq!(conn.current_group, b"second.group".to_vec());
    assert_eq!(parts.len(), 1);
    assert_eq!(parts[0].buff, data.to_vec());
}

#[test]
fn two_segment_file_reassembles_in_any_arrival_order() {
    // End-to-end: segment A at begin=1 (10 bytes), segment B at
    // begin=11 (10 bytes); whatever order the writer sees the chunks,
    // the 20-byte output is the concatenation and the byte counter
    // grows by exactly 20.
    let a = b"ABCDEFGHIJ";
    let b = b"KLMNOPQRST";
    let parts_a = fetch(a, 1, 0);
    let parts_b = fetch(b, 11, 10);
    let mut expected = Vec::new();
    expected.extend_from_slice(a);
    expected.extend_from_slice(b);

    // Arrival order A then B.
    let mut d1 = Downloader::new();
    let mut img1 = FileImage::new(20);
    for p in parts_a.iter().chain(parts_b.iter()) {
        d1.write_chunk(&mut img1, p);
    }
    assert_eq!(img1.data, expected);
    assert_eq!(get_total_download(&d1), 20);

    // Arrival order B then A.
    let mut d2 = Downloader::new();
    let mut img2 = FileImage::new(20);
    for p in parts_b.iter().chain(parts_a.iter()) {
        d2.write_chunk(&mut img2, p);
    }
    assert_eq!(img2.data, expected);
    assert_eq!(get_total_download(&d2), 20);
}
