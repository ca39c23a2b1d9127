//! The in-memory shape of a parsed manifest document: files, their
//! candidate groups, and their segments. The document format itself is
//! parsed outside; this module carries the resulting structure and the
//! two derived quantities the download path needs — the preallocation
//! size and the file name quoted inside the subject field.

use vstd::prelude::*;
use vstd::slice::slice_subrange;
use vstd::slice::slice_to_vec;
use vstd::string::*;
use vstd::utf8::encode_utf8;
use crate::yenc::find_byte;
use crate::yenc::find_in;

verus! {

/// One metadata entry of the manifest head.
pub struct Meta {
    pub key: String,
    pub value: String,
}

/// The manifest head: its metadata entries.
pub struct Head {
    pub metas: Vec<Meta>,
}

/// One article-sized piece of a file: its declared encoded byte count,
/// its sequence number, and the article id it is stored under.
pub struct Segment {
    pub bytes: u64,
    pub number: u32,
    pub value: String,
}

/// The ordered segments of one file.
pub struct Segments {
    pub segment: Vec<Segment>,
}

/// The candidate group names a file's articles may be fetched from.
pub struct Groups {
    pub group: Vec<String>,
}

/// One downloadable file of the manifest.
pub struct File {
    pub poster: String,
    pub subject: String,
    pub date: u32,
    pub groups: Groups,
    pub segments: Segments,
}

/// A whole manifest: head plus files.
pub struct Nzb {
    pub head: Head,
    pub files: Vec<File>,
}

/// The sum of the declared encoded byte counts of the segments.
pub open spec fn sum_bytes(segs: Seq<Segment>) -> int
    decreases segs.len(),
{
    if segs.len() == 0 {
        0
    } else {
        sum_bytes(segs.drop_last()) + segs.last().bytes
    }
}

/// A prefix never sums to more than the whole.
pub proof fn lemma_sum_bytes_prefix(segs: Seq<Segment>, i: int)
    requires
        0 <= i <= segs.len(),
    ensures
        sum_bytes(segs.take(i)) <= sum_bytes(segs),
    decreases segs.len() - i,
{
    if i == segs.len() {
        assert(segs.take(i) =~= segs);
    } else {
        assert(segs.take(i + 1).drop_last() =~= segs.take(i));
        assert(segs.take(i + 1).last() == segs[i]);
        lemma_sum_bytes_prefix(segs, i + 1);
    }
}

/// The bytes of a file's subject field, UTF-8 encoded.
pub open spec fn subject_bytes(f: &File) -> Seq<u8> {
    encode_utf8(f.subject@)
}

/// The bytes between the first quote of `s` and the next quote (or the
/// end): the file name a subject carries.
pub open spec fn name_spec(s: Seq<u8>) -> Seq<u8> {
    let q1 = find_in(s, 34, 0, s.len() as int);
    let q2 = find_in(s, 34, q1 + 1, s.len() as int);
    s.subrange(q1 + 1, q2)
}

impl File {
    /// The size to preallocate the output file to: the sum of the
    /// declared encoded segment sizes (an overestimate of the decoded
    /// size, accepted as such).
    pub fn total_size(&self) -> (r: u64)
        requires
            sum_bytes(self.segments.segment@) <= u64::MAX,
        ensures
            r as int == sum_bytes(self.segments.segment@),
    {
        let n: usize = self.segments.segment.len();
        let mut acc: u64 = 0;
        let mut i: usize = 0;
        while i < n
            invariant
                n == self.segments.segment@.len(),
                i <= n,
                sum_bytes(self.segments.segment@) <= u64::MAX,
                acc as int == sum_bytes(self.segments.segment@.take(i as int)),
            decreases n - i,
        {
            proof {
                let segs = self.segments.segment@;
                assert(segs.take(i + 1).drop_last() =~= segs.take(i as int));
                assert(segs.take(i + 1).last() == segs[i as int]);
                lemma_sum_bytes_prefix(segs, i + 1);
            }
            acc = acc + self.segments.segment[i].bytes;
            i = i + 1;
        }
        assert(self.segments.segment@.take(n as int) =~= self.segments.segment@);
        acc
    }

    /// The file name: the first quoted token of the subject field, or
    /// nothing when the subject holds no quote (such a file cannot be
    /// processed).
    pub fn name(&self) -> (r: Option<Vec<u8>>)
        ensures
            match r {
                Some(v) => find_in(subject_bytes(self), 34, 0, subject_bytes(self).len() as int)
                    < subject_bytes(self).len() && v@ == name_spec(subject_bytes(self)),
                None => find_in(subject_bytes(self), 34, 0, subject_bytes(self).len() as int)
                    == subject_bytes(self).len(),
            },
    {
        let bytes = self.subject.as_str().as_bytes();
        let n: usize = bytes.len();
        let q1 = find_byte(bytes, 34, 0, n);
        if q1 == n {
            return None;
        }
        let q2 = find_byte(bytes, 34, q1 + 1, n);
        Some(slice_to_vec(slice_subrange(bytes, q1 + 1, q2)))
    }
}

} // verus!
