//! The file-download orchestration that can be checked: scheduling the
//! per-segment starting offsets, the positioned-write model of the
//! output file that the single writer follows, and the cumulative
//! downloaded-bytes counter the writer maintains.
//!
//! Chunks carry absolute offsets, and positioned writes to disjoint
//! ranges commute, so the file's final content does not depend on the
//! order in which concurrent segment fetches deliver their chunks.

use vstd::prelude::*;
use vstd::pervasive::VecAdditionalExecFns;
use vstd::utf8::encode_utf8;
use crate::error::DownloadError;
use crate::nntp::is_terminator_spec;
use crate::nntp::Connection;
use crate::nntp::Stream;
use crate::nzb::lemma_sum_bytes_prefix;
use crate::nzb::sum_bytes;
use crate::nzb::Segment;
use crate::yenc::wrap_add_u64;
use crate::yenc::wrap64;
use crate::yenc::FilePart;
use crate::yenc::FileWriter;

verus! {

/// Try the candidate groups in order and stop at the first the server
/// accepts. Exhausting the list without a success is not fatal: the
/// body request is attempted anyway, as the sampled behaviour does.
/// Afterwards the selected group is either unchanged or one of the
/// candidates.
pub fn select_group<S: Stream>(conn: &mut Connection<S>, groups: &Vec<String>)
    ensures
        final(conn).current_group == old(conn).current_group || exists|i: int|
            0 <= i < groups@.len() && final(conn).current_group@ == encode_utf8(groups@[i]@),
{
    let n: usize = groups.len();
    let mut i: usize = 0;
    while i < n
        invariant
            i <= n,
            n == groups@.len(),
            conn.current_group == old(conn).current_group || exists|j: int|
                0 <= j < groups@.len() && conn.current_group@ == encode_utf8(groups@[j]@),
        decreases n - i,
    {
        match conn.set_group(groups[i].as_str()) {
            Ok(()) => {
                assert(conn.current_group@ == encode_utf8(groups@[i as int]@));
                return ;
            },
            Err(_) => {},
        }
        i = i + 1;
    }
}

/// Fetch one segment's article on an already-acquired connection: fall
/// back through the candidate groups, then stream the body through a
/// consumer seeded with the scheduled offset (which an authoritative
/// `begin` in the part line supersedes). Decoded chunks land in `parts`.
pub fn fetch_segment<S: Stream>(
    conn: &mut Connection<S>,
    article: &str,
    offset: u64,
    groups: &Vec<String>,
    parts: &mut Vec<FilePart>,
) -> (r: Result<(), DownloadError>)
    ensures
        final(parts)@.len() >= old(parts)@.len(),
        final(parts)@.subrange(0, old(parts)@.len() as int) == old(parts)@,
        r is Ok ==> is_terminator_spec(final(conn).buff@),
        final(conn).current_group == old(conn).current_group || exists|i: int|
            0 <= i < groups@.len() && final(conn).current_group@ == encode_utf8(groups@[i]@),
{
    select_group(conn, groups);
    let mut writer = FileWriter::new(offset);
    conn.article_body(article, &mut writer, parts)
}

/// The scheduled (estimated) starting offset of each segment: the sum
/// of the declared encoded byte counts of the segments before it.
pub fn schedule_offsets(segs: &Vec<Segment>) -> (r: Vec<u64>)
    requires
        sum_bytes(segs@) <= u64::MAX,
    ensures
        r@.len() == segs@.len(),
        forall|i: int| 0 <= i < segs@.len() ==> r@[i] as int == sum_bytes(segs@.take(i)),
{
    let n: usize = segs.len();
    let mut r: Vec<u64> = Vec::new();
    let mut acc: u64 = 0;
    let mut i: usize = 0;
    while i < n
        invariant
            n == segs@.len(),
            i <= n,
            r@.len() == i,
            sum_bytes(segs@) <= u64::MAX,
            acc as int == sum_bytes(segs@.take(i as int)),
            forall|j: int| 0 <= j < i ==> r@[j] as int == sum_bytes(segs@.take(j)),
        decreases n - i,
    {
        r.push(acc);
        proof {
            assert(segs@.take(i + 1).drop_last() =~= segs@.take(i as int));
            assert(segs@.take(i + 1).last() == segs@[i as int]);
            lemma_sum_bytes_prefix(segs@, i + 1);
        }
        acc = acc + segs[i].bytes;
        i = i + 1;
    }
    r
}

/// The content of the output file after a positioned write of `bytes`
/// at offset `off`.
pub open spec fn write_spec(file: Seq<u8>, off: int, bytes: Seq<u8>) -> Seq<u8> {
    Seq::new(
        file.len(),
        |i: int|
            if off <= i < off + bytes.len() {
                bytes[i - off]
            } else {
                file[i]
            },
    )
}

/// Concurrent disjoint writes: two chunks whose offset ranges do not
/// overlap can land in either order with the same final file content —
/// so for segments of non-overlapping ranges, any interleaving of the
/// writer's work gives byte-identical output.
pub proof fn lemma_disjoint_writes_commute(file: Seq<u8>, o1: int, b1: Seq<u8>, o2: int, b2: Seq<u8>)
    requires
        o1 + b1.len() <= o2 || o2 + b2.len() <= o1,
    ensures
        write_spec(write_spec(file, o1, b1), o2, b2) == write_spec(write_spec(file, o2, b2), o1, b1),
{
    assert(write_spec(write_spec(file, o1, b1), o2, b2) =~= write_spec(
        write_spec(file, o2, b2),
        o1,
        b1,
    ));
}

/// The file after the writer has applied every chunk of `parts`, first
/// to last; each chunk is an offset and its bytes.
pub open spec fn apply_all(file: Seq<u8>, parts: Seq<(int, Seq<u8>)>) -> Seq<u8>
    decreases parts.len(),
{
    if parts.len() == 0 {
        file
    } else {
        apply_all(write_spec(file, parts[0].0, parts[0].1), parts.drop_first())
    }
}

/// The chunks cover pairwise disjoint offset ranges.
pub open spec fn pairwise_disjoint(parts: Seq<(int, Seq<u8>)>) -> bool {
    forall|a: int, b: int|
        0 <= a < b < parts.len() ==> parts[a].0 + parts[a].1.len() <= parts[b].0 || parts[b].0
            + parts[b].1.len() <= parts[a].0
}

/// A position no chunk covers keeps its original byte, whatever the
/// writer does.
pub proof fn lemma_apply_all_preserves(file: Seq<u8>, parts: Seq<(int, Seq<u8>)>, pos: int)
    requires
        0 <= pos < file.len(),
        forall|a: int|
            0 <= a < parts.len() ==> !((#[trigger] parts[a]).0 <= pos < parts[a].0
                + parts[a].1.len()),
    ensures
        apply_all(file, parts)[pos] == file[pos],
    decreases parts.len(),
{
    if parts.len() > 0 {
        let file1 = write_spec(file, parts[0].0, parts[0].1);
        assert(file1.len() == file.len());
        assert(file1[pos] == file[pos]);
        assert(forall|a: int|
            0 <= a < parts.drop_first().len() ==> parts.drop_first()[a] == parts[a + 1]);
        lemma_apply_all_preserves(file1, parts.drop_first(), pos);
    }
}

/// Concurrent disjoint writes, in full: with chunks of pairwise
/// disjoint ranges, the final byte at every position a chunk covers is
/// that chunk's byte — the outcome is pointwise determined by the
/// chunks alone, so any order the writer receives them in, and so any
/// concurrency, yields the identical file.
pub proof fn lemma_apply_all_pointwise(file: Seq<u8>, parts: Seq<(int, Seq<u8>)>, k: int, pos: int)
    requires
        pairwise_disjoint(parts),
        0 <= k < parts.len(),
        parts[k].0 <= pos < parts[k].0 + parts[k].1.len(),
        0 <= pos < file.len(),
    ensures
        apply_all(file, parts)[pos] == parts[k].1[pos - parts[k].0],
    decreases parts.len(),
{
    let file1 = write_spec(file, parts[0].0, parts[0].1);
    assert(file1.len() == file.len());
    assert(forall|a: int|
        0 <= a < parts.drop_first().len() ==> parts.drop_first()[a] == parts[a + 1]);
    if k == 0 {
        assert(file1[pos] == parts[0].1[pos - parts[0].0]);
        assert(forall|a: int|
            0 <= a < parts.drop_first().len() ==> !((#[trigger] parts.drop_first()[a]).0 <= pos
                < parts.drop_first()[a].0 + parts.drop_first()[a].1.len()));
        lemma_apply_all_preserves(file1, parts.drop_first(), pos);
    } else {
        assert(pairwise_disjoint(parts.drop_first()));
        assert(!(parts[0].0 <= pos < parts[0].0 + parts[0].1.len()));
        assert(file1[pos] == file[pos]);
        lemma_apply_all_pointwise(file1, parts.drop_first(), k - 1, pos);
    }
}

/// The in-memory model of the preallocated output file the single
/// writer task owns.
pub struct FileImage {
    pub data: Vec<u8>,
}

impl FileImage {
    /// A zero-filled file of the preallocated size.
    pub fn new(size: usize) -> (r: FileImage)
        ensures
            r.data@.len() == size,
            forall|i: int| 0 <= i < size ==> r.data@[i] == 0u8,
    {
        let mut data: Vec<u8> = Vec::new();
        let mut i: usize = 0;
        while i < size
            invariant
                i <= size,
                data@.len() == i,
                forall|j: int| 0 <= j < i ==> data@[j] == 0u8,
            decreases size - i,
        {
            data.push(0u8);
            i = i + 1;
        }
        FileImage { data }
    }

    /// A positioned write: the chunk's bytes land at its offset and
    /// nothing else moves.
    pub fn write_part(&mut self, part: &FilePart)
        requires
            part.offset as int + part.buff@.len() <= old(self).data@.len(),
        ensures
            final(self).data@ == write_spec(old(self).data@, part.offset as int, part.buff@),
    {
        let cap: usize = self.data.len();
        assert(part.offset <= usize::MAX as u64);
        let off: usize = part.offset as usize;
        let n: usize = part.buff.len();
        let mut k: usize = 0;
        while k < n
            invariant
                k <= n,
                n == part.buff@.len(),
                off as int == part.offset as int,
                off as int + n as int <= cap as int,
                self.data@.len() == cap,
                self.data@.len() == old(self).data@.len(),
                forall|j: int| 0 <= j < k ==> self.data@[off as int + j] == part.buff@[j],
                forall|j: int|
                    0 <= j < self.data@.len() && !(off as int <= j < off as int + k) ==> self.data@[j]
                        == old(self).data@[j],
            decreases n - k,
        {
            self.data.set(off + k, part.buff[k]);
            k = k + 1;
        }
        assert(self.data@ =~= write_spec(old(self).data@, part.offset as int, part.buff@));
    }
}

/// The cumulative count of bytes written to disk, read by an outside
/// throughput sampler; written by the file writer only.
pub struct DownloadCounter {
    pub total: u64,
}

/// The downloader's verified core state: the byte counter the single
/// writer maintains. The pool, the transports and the tasks live with
/// the embedding program.
pub struct Downloader {
    pub counter: DownloadCounter,
}

impl Downloader {
    /// A downloader that has written nothing yet.
    pub fn new() -> (r: Downloader)
        ensures
            r.counter.total == 0,
    {
        Downloader { counter: DownloadCounter { total: 0 } }
    }

    /// What the writer task does with one chunk: a positioned write at
    /// the chunk's offset, then the counter grows by the chunk's length.
    pub fn write_chunk(&mut self, image: &mut FileImage, part: &FilePart)
        requires
            part.offset as int + part.buff@.len() <= old(image).data@.len(),
        ensures
            final(image).data@ == write_spec(old(image).data@, part.offset as int, part.buff@),
            final(self).counter.total as int == wrap64(
                old(self).counter.total as int + part.buff@.len(),
            ),
    {
        image.write_part(part);
        self.counter.total = wrap_add_u64(self.counter.total, part.buff.len() as u64);
    }
}

/// The exported read accessor of the cumulative downloaded-bytes count.
pub fn get_total_download(d: &Downloader) -> (r: u64)
    ensures
        r == d.counter.total,
{
    d.counter.total
}

} // verus!
