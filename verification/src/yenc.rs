//! Streaming decoder for the yEnc-style binary-to-text encoding.
//!
//! Every data byte of an encoded line decodes to `(byte - 42) mod 256`;
//! NUL, CR and LF are line artifacts and are dropped; `=` escapes the
//! following byte (which is shifted by an extra 64); a `.` in the first
//! column is the dot-stuffing convention of the wire protocol.

use vstd::prelude::*;
use vstd::slice::slice_subrange;
use vstd::slice::slice_to_vec;
use vstd::utf8::decode_first_codepoint;
use vstd::utf8::length_of_first_scalar;
use vstd::utf8::pop_first_scalar;
use vstd::utf8::valid_first_scalar;
use vstd::utf8::valid_utf8;
use crate::crc::crc32_of;
use crate::crc::hasher_bytes;
use crate::crc::hasher_crc;
use crate::crc::hasher_new;
use crate::crc::hasher_update;
use crate::error::DownloadError;
use crate::numbers::parse_hex_u32;
use crate::numbers::parse_hex_u32_spec;
use crate::numbers::parse_u64_digits;
use crate::numbers::parse_u64_spec;

verus! {

pub const NUL: u8 = 0;
pub const LF: u8 = 10;
pub const CR: u8 = 13;
pub const ESCAPE: u8 = 61;
pub const DOT: u8 = 46;
pub const SPACE: u8 = 32;
pub const TAB: u8 = 9;

/// `(b - 42) mod 256`: the plain decoding of one data byte.
pub open spec fn dec_byte(b: u8) -> u8 {
    ((b + 214) % 256) as u8
}

/// `(b - 64 - 42) mod 256`: the decoding of the byte following an escape marker.
pub open spec fn dec_escaped(b: u8) -> u8 {
    ((b + 150) % 256) as u8
}

/// The bytes decoded from the suffix of `s` that starts at index `i`,
/// where the dot-stuffing rule applies only when `i` is the start of the
/// whole line.
pub open spec fn decode_from(s: Seq<u8>, i: int) -> Seq<u8>
    decreases s.len() - i,
{
    if i < 0 || i >= s.len() {
        Seq::empty()
    } else {
        let b = s[i];
        if b == NUL || b == CR || b == LF {
            decode_from(s, i + 1)
        } else if b == DOT && i == 0 {
            if i + 1 >= s.len() {
                Seq::empty()
            } else if s[i + 1] == DOT {
                seq![dec_byte(DOT)] + decode_from(s, i + 2)
            } else {
                seq![dec_byte(DOT), dec_byte(s[i + 1])] + decode_from(s, i + 2)
            }
        } else if b == ESCAPE {
            if i + 1 >= s.len() {
                Seq::empty()
            } else {
                seq![dec_escaped(s[i + 1])] + decode_from(s, i + 2)
            }
        } else {
            seq![dec_byte(b)] + decode_from(s, i + 1)
        }
    }
}

/// The decoding of one whole encoded line.
pub open spec fn decode_spec(s: Seq<u8>) -> Seq<u8> {
    decode_from(s, 0)
}

/// Executable form of [`dec_byte`].
pub fn dec(b: u8) -> (r: u8)
    ensures
        r == dec_byte(b),
{
    if b >= 42 {
        b - 42
    } else {
        b + 214
    }
}

/// Executable form of [`dec_escaped`].
pub fn dec_esc(b: u8) -> (r: u8)
    ensures
        r == dec_escaped(b),
{
    if b >= 106 {
        b - 106
    } else {
        b + 150
    }
}

/// Decode one encoded line, appending the decoded bytes to `buff`.
///
/// Decoding never fails: unknown bytes are data, control bytes are
/// dropped, and a trailing escape marker with nothing after it is
/// dropped as well.
pub fn decode(encoded: &[u8], buff: &mut Vec<u8>)
    ensures
        final(buff)@ == old(buff)@ + decode_spec(encoded@),
{
    let n: usize = encoded.len();
    let mut i: usize = 0;
    while i < n
        invariant
            n == encoded@.len(),
            i <= n,
            buff@ + decode_from(encoded@, i as int) =~= old(buff)@ + decode_spec(encoded@),
        decreases n - i,
    {
        let b = encoded[i];
        if b == NUL || b == CR || b == LF {
            i = i + 1;
        } else if b == DOT && i == 0 {
            if i + 1 >= n {
                i = n;
            } else if encoded[i + 1] == DOT {
                buff.push(dec(b));
                i = i + 2;
            } else {
                buff.push(dec(b));
                buff.push(dec(encoded[i + 1]));
                i = i + 2;
            }
        } else if b == ESCAPE {
            if i + 1 >= n {
                i = n;
            } else {
                buff.push(dec_esc(encoded[i + 1]));
                i = i + 2;
            }
        } else {
            buff.push(dec(b));
            i = i + 1;
        }
    }
    assert(decode_from(encoded@, n as int) =~= Seq::<u8>::empty());
    assert(buff@ =~= old(buff)@ + decode_spec(encoded@));
}

/// A byte that is neither a control byte the decoder drops nor an
/// escape marker.
pub open spec fn plain_byte(b: u8) -> bool {
    b != NUL && b != CR && b != LF && b != ESCAPE
}

proof fn lemma_decode_from_plain(s: Seq<u8>, i: int)
    requires
        0 <= i <= s.len(),
        forall|k: int| i <= k < s.len() ==> plain_byte(s[k]),
        i == 0 && s.len() > 0 ==> s[0] != DOT,
    ensures
        decode_from(s, i).len() == s.len() - i,
        forall|k: int| 0 <= k < s.len() - i ==> decode_from(s, i)[k] == dec_byte(s[i + k]),
    decreases s.len() - i,
{
    if i < s.len() {
        lemma_decode_from_plain(s, i + 1);
    }
}

/// Decoder correctness on plain lines: a line of bytes that are not
/// control bytes, not escape markers, and that does not begin with a
/// dot, decodes byte for byte to `(b - 42) mod 256`, preserving length.
pub proof fn lemma_decode_plain(s: Seq<u8>)
    requires
        forall|k: int| 0 <= k < s.len() ==> plain_byte(s[k]),
        s.len() > 0 ==> s[0] != DOT,
    ensures
        decode_spec(s).len() == s.len(),
        forall|k: int| 0 <= k < s.len() ==> decode_spec(s)[k] == dec_byte(s[k]),
{
    lemma_decode_from_plain(s, 0);
}

/// Leading-dot handling, stuffing case: a line beginning with a single
/// dot followed by something else decodes the dot itself as the first
/// output byte and then decodes the next byte by the general rule.
pub proof fn lemma_leading_dot_single(s: Seq<u8>)
    requires
        s.len() >= 2,
        s[0] == DOT,
        s[1] != DOT,
    ensures
        decode_spec(s) == seq![dec_byte(DOT), dec_byte(s[1])] + decode_from(s, 2),
{
}

/// Leading-dot handling, doubled case: a line beginning with two dots
/// treats the first dot as literal data and skips the second.
pub proof fn lemma_leading_dot_double(s: Seq<u8>)
    requires
        s.len() >= 2,
        s[0] == DOT,
        s[1] == DOT,
    ensures
        decode_spec(s) == seq![dec_byte(DOT)] + decode_from(s, 2),
{
}

/// `(b + 42) mod 256`: the encoding of one data byte.
pub open spec fn enc_byte(b: u8) -> u8 {
    ((b + 42) % 256) as u8
}

/// `(b + 42 + 64) mod 256`: the encoding of a data byte behind an
/// escape marker.
pub open spec fn enc_escaped(b: u8) -> u8 {
    ((b + 106) % 256) as u8
}

/// An encoded byte that would collide with line structure and must be
/// escaped: the dropped control bytes, the escape marker, and the dot
/// (kept out of every column so that no line can start with one).
pub open spec fn needs_escape(c: u8) -> bool {
    c == NUL || c == CR || c == LF || c == ESCAPE || c == DOT
}

/// The encoding of the bytes of `s` from index `i` on.
pub open spec fn encode_from(s: Seq<u8>, i: int) -> Seq<u8>
    decreases s.len() - i,
{
    if i < 0 || i >= s.len() {
        Seq::empty()
    } else if needs_escape(enc_byte(s[i])) {
        seq![ESCAPE, enc_escaped(s[i])] + encode_from(s, i + 1)
    } else {
        seq![enc_byte(s[i])] + encode_from(s, i + 1)
    }
}

/// The encoding of one whole line of data bytes.
pub open spec fn encode_spec(s: Seq<u8>) -> Seq<u8> {
    encode_from(s, 0)
}

/// Encode a line of data bytes, appending the encoded bytes to `out`.
pub fn encode(data: &[u8], out: &mut Vec<u8>)
    ensures
        final(out)@ == old(out)@ + encode_spec(data@),
{
    let n: usize = data.len();
    let mut i: usize = 0;
    while i < n
        invariant
            n == data@.len(),
            i <= n,
            out@ + encode_from(data@, i as int) =~= old(out)@ + encode_spec(data@),
        decreases n - i,
    {
        let b = data[i];
        let c = if b <= 213 {
            b + 42
        } else {
            b - 214
        };
        assert(c == enc_byte(b));
        if c == NUL || c == CR || c == LF || c == ESCAPE || c == DOT {
            out.push(ESCAPE);
            let e = if b <= 149 {
                b + 106
            } else {
                b - 150
            };
            assert(e == enc_escaped(b));
            out.push(e);
        } else {
            out.push(c);
        }
        i = i + 1;
    }
    assert(encode_from(data@, n as int) =~= Seq::<u8>::empty());
    assert(out@ =~= old(out)@ + encode_spec(data@));
}

proof fn lemma_enc_dec_plain(b: u8)
    ensures
        dec_byte(enc_byte(b)) == b,
{
    if b + 42 < 256 {
        assert((b + 42) % 256 == b + 42);
        assert((b + 42 + 214) % 256 == b) by {
            assert(b + 42 + 214 == b + 256);
        };
    } else {
        assert((b + 42) % 256 == b - 214);
        assert((b - 214 + 214) % 256 == b);
    }
}

proof fn lemma_enc_dec_escaped(b: u8)
    ensures
        dec_escaped(enc_escaped(b)) == b,
{
    if b + 106 < 256 {
        assert((b + 106) % 256 == b + 106);
        assert((b + 106 + 150) % 256 == b) by {
            assert(b + 106 + 150 == b + 256);
        };
    } else {
        assert((b + 106) % 256 == b - 150);
        assert((b - 150 + 150) % 256 == b);
    }
}

/// From any position at or after column 1, decoding a suffix does not
/// depend on the bytes before it; stated for a tail whose first byte is
/// not a dot, so that the column-0 stuffing rule changes nothing.
proof fn lemma_decode_from_shift(w: Seq<u8>, i: int, j: int)
    requires
        1 <= i <= j,
        i <= w.len(),
        j == i ==> (j >= w.len() || w[j] != DOT),
    ensures
        decode_from(w, j) == decode_from(w.skip(i), j - i),
    decreases w.len() - j,
{
    if j < w.len() {
        assert(w.skip(i)[j - i] == w[j]);
        let b = w[j];
        if b == NUL || b == CR || b == LF {
            lemma_decode_from_shift(w, i, j + 1);
        } else if b == ESCAPE {
            if j + 1 < w.len() {
                assert(w.skip(i)[j + 1 - i] == w[j + 1]);
                lemma_decode_from_shift(w, i, j + 2);
            } else {
                assert(decode_from(w, j) =~= Seq::<u8>::empty());
                assert(decode_from(w.skip(i), j - i) =~= Seq::<u8>::empty());
            }
        } else {
            lemma_decode_from_shift(w, i, j + 1);
        }
    }
}

proof fn lemma_encode_first_not_dot(s: Seq<u8>, i: int)
    ensures
        encode_from(s, i).len() > 0 ==> encode_from(s, i)[0] != DOT,
{
}

proof fn lemma_round_trip_step(s: Seq<u8>)
    ensures
        decode_spec(encode_spec(s)) == s,
    decreases s.len(),
{
    if s.len() == 0 {
    } else {
        let b = s[0];
        let s1 = s.skip(1);
        lemma_round_trip_step(s1);
        let e = encode_spec(s);
        let e1 = encode_spec(s1);
        assert(encode_from(s, 1) == encode_from(s1, 0)) by {
            lemma_encode_from_shift(s, 1, 1);
        };
        if needs_escape(enc_byte(b)) {
            assert(e =~= seq![ESCAPE, enc_escaped(b)] + e1);
            lemma_enc_dec_escaped(b);
            assert(e.len() >= 2);
            assert(e[0] == ESCAPE && e[1] == enc_escaped(b));
            if e.len() > 2 {
                lemma_encode_first_not_dot(s1, 0);
                assert(e.skip(2) =~= e1);
                lemma_decode_from_shift(e, 2, 2);
            } else {
                assert(decode_from(e, 2) =~= Seq::<u8>::empty());
                assert(e1 =~= Seq::<u8>::empty());
            }
            assert(decode_spec(e) =~= seq![b] + decode_spec(e1));
        } else {
            let c = enc_byte(b);
            assert(e =~= seq![c] + e1);
            lemma_enc_dec_plain(b);
            assert(e[0] == c);
            if e.len() > 1 {
                lemma_encode_first_not_dot(s1, 0);
                assert(e.skip(1) =~= e1);
                lemma_decode_from_shift(e, 1, 1);
            } else {
                assert(decode_from(e, 1) =~= Seq::<u8>::empty());
                assert(e1 =~= Seq::<u8>::empty());
            }
            assert(decode_spec(e) =~= seq![b] + decode_spec(e1));
        }
        assert(seq![b] + s1 =~= s);
    }
}

/// The same shift property for the encoder: encoding a suffix does not
/// depend on the bytes before it.
proof fn lemma_encode_from_shift(w: Seq<u8>, i: int, j: int)
    requires
        0 <= i <= j,
        i <= w.len(),
    ensures
        encode_from(w, j) == encode_from(w.skip(i), j - i),
    decreases w.len() - j,
{
    if j < w.len() {
        assert(w.skip(i)[j - i] == w[j]);
        lemma_encode_from_shift(w, i, j + 1);
    }
}

/// Escape round-trip: encoding any byte sequence and decoding the
/// resulting line recovers the original bytes exactly.
pub proof fn lemma_encode_decode_round_trip(s: Seq<u8>)
    ensures
        decode_spec(encode_spec(s)) == s,
{
    lemma_round_trip_step(s);
}

pub open spec fn is_ws(b: u8) -> bool {
    b == SPACE || b == TAB || b == LF || b == CR
}

/// Index of the first non-whitespace byte at or after `i`, or the length.
pub open spec fn ws_start(s: Seq<u8>, i: int) -> int
    decreases s.len() - i,
{
    if i < 0 || i >= s.len() {
        s.len() as int
    } else if is_ws(s[i]) {
        ws_start(s, i + 1)
    } else {
        i
    }
}

/// End of the prefix of `s.take(i)` that remains after stripping
/// trailing whitespace.
pub open spec fn ws_end(s: Seq<u8>, i: int) -> int
    decreases i,
{
    if i <= 0 {
        0
    } else if is_ws(s[i - 1]) {
        ws_end(s, i - 1)
    } else {
        i
    }
}

/// `s` with leading and trailing whitespace stripped.
pub open spec fn trim_spec(s: Seq<u8>) -> Seq<u8> {
    let lo = ws_start(s, 0);
    if lo == s.len() {
        Seq::empty()
    } else {
        s.subrange(lo, ws_end(s, s.len() as int))
    }
}

/// Index of the first occurrence of `target` in `s` within `[i, end)`,
/// or `end` when there is none.
pub open spec fn find_in(s: Seq<u8>, target: u8, i: int, end: int) -> int
    decreases end - i,
{
    if i < 0 || i >= end || i >= s.len() {
        end
    } else if s[i] == target {
        i
    } else {
        find_in(s, target, i + 1, end)
    }
}

pub proof fn lemma_find_in_bounds(s: Seq<u8>, target: u8, i: int, end: int)
    requires
        0 <= i <= end,
    ensures
        i <= find_in(s, target, i, end) <= end,
    decreases end - i,
{
    if i < end && i < s.len() && s[i] != target {
        lemma_find_in_bounds(s, target, i + 1, end);
    }
}

/// The key/value pairs of the space-separated tokens of `s` from `i` on:
/// each token contributes the text before its first `=` as the key and
/// the text between its first and second `=` as the value; a token
/// without any `=` (an empty token included) makes the whole line
/// malformed.
pub open spec fn parse_pairs(s: Seq<u8>, i: int) -> Option<Seq<(Seq<u8>, Seq<u8>)>>
    decreases s.len() - i,
        when 0 <= i
    via parse_pairs_decreases
{
    if i >= s.len() {
        Some(Seq::empty())
    } else {
        let e = find_in(s, SPACE, i, s.len() as int);
        let q1 = find_in(s, ESCAPE, i, e);
        if q1 == e {
            None
        } else {
            let pair = (s.subrange(i, q1), s.subrange(q1 + 1, find_in(s, ESCAPE, q1 + 1, e)));
            if e >= s.len() {
                Some(seq![pair])
            } else {
                match parse_pairs(s, e + 1) {
                    None => None,
                    Some(rest) => Some(seq![pair] + rest),
                }
            }
        }
    }
}

#[via_fn]
proof fn parse_pairs_decreases(s: Seq<u8>, i: int) {
    if 0 <= i <= s.len() {
        lemma_find_in_bounds(s, SPACE, i, s.len() as int);
    }
}

/// Whether `s` is well-formed UTF-8, checked scalar by scalar: leading
/// and continuation byte shapes, no overlong encodings, no surrogates.
pub fn utf8_valid(s: &[u8]) -> (r: bool)
    ensures
        r == valid_utf8(s@),
{
    let n: usize = s.len();
    let mut i: usize = 0;
    assert(s@.skip(0) =~= s@);
    while i < n
        invariant
            i <= n,
            n == s@.len(),
            valid_utf8(s@) == valid_utf8(s@.skip(i as int)),
        decreases n - i,
    {
        let ghost tail = s@.skip(i as int);
        let b0 = s[i];
        assert(tail[0] == b0);
        if b0 <= 0x7f {
            proof {
                assert(b0 & 0x7f == b0) by (bit_vector)
                    requires
                        b0 <= 0x7f,
                ;
                assert(valid_first_scalar(tail));
                assert(length_of_first_scalar(tail) == 1);
                assert(pop_first_scalar(tail) =~= s@.skip(i + 1));
            }
            i = i + 1;
        } else if 0xc0 <= b0 && b0 <= 0xdf {
            if i + 1 >= n {
                assert(!valid_first_scalar(tail));
                return false;
            }
            let b1 = s[i + 1];
            assert(tail[1] == b1);
            if !(0x80 <= b1 && b1 <= 0xbf) {
                assert(!valid_first_scalar(tail));
                return false;
            }
            let cp: u32 = (((b0 & 0x1f) as u32) << 6u32) | ((b1 & 0x3f) as u32);
            assert(cp == decode_first_codepoint(tail));
            proof {
                assert((((b0 & 0x1f) as u32) << 6u32) | ((b1 & 0x3f) as u32) <= 0x7ff)
                    by (bit_vector);
            }
            if cp < 0x80 {
                assert(!valid_first_scalar(tail));
                return false;
            }
            proof {
                assert(valid_first_scalar(tail));
                assert(length_of_first_scalar(tail) == 2);
                assert(pop_first_scalar(tail) =~= s@.skip(i + 2));
            }
            i = i + 2;
        } else if 0xe0 <= b0 && b0 <= 0xef {
            if n - i < 3 {
                assert(!valid_first_scalar(tail));
                return false;
            }
            let b1 = s[i + 1];
            let b2 = s[i + 2];
            assert(tail[1] == b1 && tail[2] == b2);
            if !(0x80 <= b1 && b1 <= 0xbf) || !(0x80 <= b2 && b2 <= 0xbf) {
                assert(!valid_first_scalar(tail));
                return false;
            }
            let cp: u32 = (((b0 & 0x0f) as u32) << 12u32) | (((b1 & 0x3f) as u32) << 6u32) | ((b2
                & 0x3f) as u32);
            assert(cp == decode_first_codepoint(tail));
            if cp < 0x800 || (0xd800 <= cp && cp <= 0xdfff) {
                assert(!valid_first_scalar(tail));
                return false;
            }
            proof {
                assert(valid_first_scalar(tail));
                assert(length_of_first_scalar(tail) == 3);
                assert(pop_first_scalar(tail) =~= s@.skip(i + 3));
            }
            i = i + 3;
        } else if 0xf0 <= b0 && b0 <= 0xf7 {
            if n - i < 4 {
                assert(!valid_first_scalar(tail));
                return false;
            }
            let b1 = s[i + 1];
            let b2 = s[i + 2];
            let b3 = s[i + 3];
            assert(tail[1] == b1 && tail[2] == b2 && tail[3] == b3);
            if !(0x80 <= b1 && b1 <= 0xbf) || !(0x80 <= b2 && b2 <= 0xbf) || !(0x80 <= b3 && b3
                <= 0xbf) {
                assert(!valid_first_scalar(tail));
                return false;
            }
            let cp: u32 = (((b0 & 0x07) as u32) << 18u32) | (((b1 & 0x3f) as u32) << 12u32) | (((
            b2 & 0x3f) as u32) << 6u32) | ((b3 & 0x3f) as u32);
            assert(cp == decode_first_codepoint(tail));
            if cp < 0x10000 || cp > 0x10ffff {
                assert(!valid_first_scalar(tail));
                return false;
            }
            proof {
                assert(valid_first_scalar(tail));
                assert(length_of_first_scalar(tail) == 4);
                assert(pop_first_scalar(tail) =~= s@.skip(i + 4));
            }
            i = i + 4;
        } else {
            assert(!valid_first_scalar(tail));
            return false;
        }
    }
    assert(s@.skip(n as int) =~= Seq::<u8>::empty());
    true
}

/// A directive line's mapping, per the rules of [`parse_pairs`], after
/// trimming surrounding whitespace; a line that is not well-formed
/// UTF-8 is malformed, as is an all-whitespace one.
pub open spec fn parse_command_spec(s: Seq<u8>) -> Option<Seq<(Seq<u8>, Seq<u8>)>> {
    if !valid_utf8(s) {
        None
    } else {
        let t = trim_spec(s);
        if t.len() == 0 {
            None
        } else {
            parse_pairs(t, 0)
        }
    }
}

/// The value bound to `key` among `ps`, the latest binding winning,
/// as an insertion into a map would.
pub open spec fn lookup_pair(ps: Seq<(Seq<u8>, Seq<u8>)>, key: Seq<u8>) -> Option<Seq<u8>>
    decreases ps.len(),
{
    if ps.len() == 0 {
        None
    } else if ps.last().0 == key {
        Some(ps.last().1)
    } else {
        lookup_pair(ps.drop_last(), key)
    }
}

/// Byte-wise equality of two slices.
pub fn bytes_eq(a: &[u8], b: &[u8]) -> (r: bool)
    ensures
        r == (a@ == b@),
{
    let n: usize = a.len();
    if n != b.len() {
        return false;
    }
    let mut i: usize = 0;
    while i < n
        invariant
            n == a@.len(),
            n == b@.len(),
            i <= n,
            forall|k: int| 0 <= k < i ==> a@[k] == b@[k],
        decreases n - i,
    {
        if a[i] != b[i] {
            return false;
        }
        i = i + 1;
    }
    assert(a@ =~= b@);
    true
}

/// Index of the first occurrence of `target` within `s[from..end]`, or
/// `end` when there is none.
pub fn find_byte(s: &[u8], target: u8, from: usize, end: usize) -> (r: usize)
    requires
        from <= end,
        end <= s@.len(),
    ensures
        r == find_in(s@, target, from as int, end as int),
        from <= r <= end,
        r < end ==> s@[r as int] == target,
        forall|k: int| from <= k < r ==> s@[k] != target,
{
    let mut j: usize = from;
    while j < end
        invariant
            from <= j <= end,
            end <= s@.len(),
            find_in(s@, target, from as int, end as int) == find_in(s@, target, j as int, end as int),
            forall|k: int| from <= k < j ==> s@[k] != target,
        decreases end - j,
    {
        if s[j] == target {
            return j;
        }
        j = j + 1;
    }
    j
}

/// `s` with surrounding whitespace removed, as an owned buffer.
pub fn trim_bytes(s: &[u8]) -> (r: Vec<u8>)
    ensures
        r@ == trim_spec(s@),
{
    let n: usize = s.len();
    let mut lo: usize = 0;
    while lo < n && (s[lo] == SPACE || s[lo] == TAB || s[lo] == LF || s[lo] == CR)
        invariant
            lo <= n,
            n == s@.len(),
            ws_start(s@, 0) == ws_start(s@, lo as int),
        decreases n - lo,
    {
        lo = lo + 1;
    }
    if lo == n {
        assert(trim_spec(s@) =~= Seq::<u8>::empty());
        return Vec::new();
    }
    assert(ws_start(s@, 0) == lo);
    assert(!is_ws(s@[lo as int]));
    let mut hi: usize = n;
    while hi > lo && (s[hi - 1] == SPACE || s[hi - 1] == TAB || s[hi - 1] == LF || s[hi - 1] == CR)
        invariant
            lo < hi <= n,
            lo < n,
            n == s@.len(),
            !is_ws(s@[lo as int]),
            ws_end(s@, n as int) == ws_end(s@, hi as int),
        decreases hi,
    {
        hi = hi - 1;
    }
    assert(ws_end(s@, n as int) == hi);
    slice_to_vec(slice_subrange(s, lo, hi))
}

/// The parsed key/value pairs of a directive line, latest binding
/// winning on lookup.
#[derive(Debug)]
pub struct DirectiveMap {
    pub pairs: Vec<(Vec<u8>, Vec<u8>)>,
}

/// The pairs of byte buffers as pairs of byte sequences.
pub open spec fn pairs_view(ps: Seq<(Vec<u8>, Vec<u8>)>) -> Seq<(Seq<u8>, Seq<u8>)> {
    ps.map_values(|p: (Vec<u8>, Vec<u8>)| (p.0@, p.1@))
}

impl View for DirectiveMap {
    type V = Seq<(Seq<u8>, Seq<u8>)>;

    open spec fn view(&self) -> Seq<(Seq<u8>, Seq<u8>)> {
        pairs_view(self.pairs@)
    }
}

impl DirectiveMap {
    /// The value bound to `key`, the latest binding winning.
    pub fn get(&self, key: &[u8]) -> (r: Option<&Vec<u8>>)
        ensures
            match r {
                Some(v) => lookup_pair(self@, key@) == Some(v@),
                None => lookup_pair(self@, key@) is None,
            },
    {
        let n: usize = self.pairs.len();
        assert(self@.take(n as int) =~= self@);
        let mut j: usize = n;
        while j > 0
            invariant
                j <= n,
                n == self.pairs@.len(),
                lookup_pair(self@, key@) == lookup_pair(self@.take(j as int), key@),
            decreases j,
        {
            let p = &self.pairs[j - 1];
            assert(self@.take(j as int).last() == (p.0@, p.1@));
            if bytes_eq(p.0.as_slice(), key) {
                return Some(&p.1);
            }
            assert(self@.take(j as int).drop_last() =~= self@.take(j as int - 1));
            j = j - 1;
        }
        assert(self@.take(0) =~= Seq::<(Seq<u8>, Seq<u8>)>::empty());
        None
    }
}

pub open spec fn opt_prepend(
    pre: Seq<(Seq<u8>, Seq<u8>)>,
    o: Option<Seq<(Seq<u8>, Seq<u8>)>>,
) -> Option<Seq<(Seq<u8>, Seq<u8>)>> {
    match o {
        None => None,
        Some(rest) => Some(pre + rest),
    }
}

/// Split a directive line on spaces and `=` into its key/value mapping.
///
/// Fails exactly when the bytes are not well-formed UTF-8, the trimmed
/// line is empty, or some token lacks an `=`.
pub fn parse_command(cmd: &[u8]) -> (r: Result<DirectiveMap, DownloadError>)
    ensures
        match r {
            Ok(m) => parse_command_spec(cmd@) == Some(m@),
            Err(e) => parse_command_spec(cmd@) is None && e == DownloadError::Format,
        },
{
    if !utf8_valid(cmd) {
        return Err(DownloadError::Format);
    }
    let t: Vec<u8> = trim_bytes(cmd);
    let n: usize = t.len();
    if n == 0 {
        return Err(DownloadError::Format);
    }
    let ghost tseq = t@;
    let mut pairs: Vec<(Vec<u8>, Vec<u8>)> = Vec::new();
    let mut i: usize = 0;
    while i < n
        invariant
            i <= n,
            n == tseq.len(),
            t@ == tseq,
            tseq == trim_spec(cmd@),
            valid_utf8(cmd@),
            0 < n,
            opt_prepend(pairs_view(pairs@), parse_pairs(tseq, i as int)) == parse_pairs(tseq, 0),
        decreases n - i,
    {
        let ghost old_pairs = pairs@;
        let e = find_byte(t.as_slice(), SPACE, i, n);
        let q1 = find_byte(t.as_slice(), ESCAPE, i, e);
        if q1 == e {
            assert(parse_pairs(tseq, i as int) is None);
            return Err(DownloadError::Format);
        }
        let q2 = find_byte(t.as_slice(), ESCAPE, q1 + 1, e);
        let key = slice_to_vec(slice_subrange(t.as_slice(), i, q1));
        let val = slice_to_vec(slice_subrange(t.as_slice(), q1 + 1, q2));
        pairs.push((key, val));
        proof {
            let pair = (tseq.subrange(i as int, q1 as int), tseq.subrange(
                q1 as int + 1,
                find_in(tseq, ESCAPE, q1 as int + 1, e as int),
            ));
            assert(pairs_view(pairs@) =~= pairs_view(old_pairs) + seq![pair]);
        }
        if e >= n {
            proof {
                let pair = (tseq.subrange(i as int, q1 as int), tseq.subrange(
                    q1 as int + 1,
                    find_in(tseq, ESCAPE, q1 as int + 1, e as int),
                ));
                assert(parse_pairs(tseq, i as int) == Some(seq![pair]));
                assert(pairs_view(old_pairs) + seq![pair] =~= pairs_view(pairs@) + Seq::<(
                    Seq<u8>,
                    Seq<u8>,
                )>::empty());
            }
            i = n;
        } else {
            proof {
                let pair = (tseq.subrange(i as int, q1 as int), tseq.subrange(
                    q1 as int + 1,
                    find_in(tseq, ESCAPE, q1 as int + 1, e as int),
                ));
                match parse_pairs(tseq, e as int + 1) {
                    None => {
                        assert(parse_pairs(tseq, i as int) is None);
                    },
                    Some(rest) => {
                        assert(parse_pairs(tseq, i as int) == Some(seq![pair] + rest));
                        assert(pairs_view(old_pairs) + (seq![pair] + rest) =~= pairs_view(pairs@)
                            + rest);
                    },
                }
            }
            i = e + 1;
        }
    }
    proof {
        assert(parse_pairs(tseq, n as int) == Some(Seq::<(Seq<u8>, Seq<u8>)>::empty()));
        assert(pairs_view(pairs@) + Seq::<(Seq<u8>, Seq<u8>)>::empty() =~= pairs_view(pairs@));
    }
    Ok(DirectiveMap { pairs })
}

/// `"=ybegin"`, the header marker, leads the line.
pub open spec fn is_header_line(s: Seq<u8>) -> bool {
    s.len() >= 7 && s[0] == 61 && s[1] == 121 && s[2] == 98 && s[3] == 101 && s[4] == 103 && s[5]
        == 105 && s[6] == 110
}

/// `"=ypart"`, the part marker, leads the line.
pub open spec fn is_part_line(s: Seq<u8>) -> bool {
    s.len() >= 6 && s[0] == 61 && s[1] == 121 && s[2] == 112 && s[3] == 97 && s[4] == 114 && s[5]
        == 116
}

/// `"=yend"`, the trailer marker, leads the line.
pub open spec fn is_trailer_line(s: Seq<u8>) -> bool {
    s.len() >= 5 && s[0] == 61 && s[1] == 121 && s[2] == 101 && s[3] == 110 && s[4] == 100
}

pub fn starts_with_header(line: &[u8]) -> (r: bool)
    ensures
        r == is_header_line(line@),
{
    line.len() >= 7 && line[0] == 61 && line[1] == 121 && line[2] == 98 && line[3] == 101
        && line[4] == 103 && line[5] == 105 && line[6] == 110
}

pub fn starts_with_part(line: &[u8]) -> (r: bool)
    ensures
        r == is_part_line(line@),
{
    line.len() >= 6 && line[0] == 61 && line[1] == 121 && line[2] == 112 && line[3] == 97
        && line[4] == 114 && line[5] == 116
}

pub fn starts_with_trailer(line: &[u8]) -> (r: bool)
    ensures
        r == is_trailer_line(line@),
{
    line.len() >= 5 && line[0] == 61 && line[1] == 121 && line[2] == 101 && line[3] == 110
        && line[4] == 100
}

/// The directive text of a part line: everything after `"=ypart "`.
pub open spec fn part_rest(s: Seq<u8>) -> Seq<u8> {
    if s.len() >= 7 {
        s.subrange(7, s.len() as int)
    } else {
        Seq::empty()
    }
}

/// The directive text of a trailer line: everything after `"=yend "`.
pub open spec fn trailer_rest(s: Seq<u8>) -> Seq<u8> {
    if s.len() >= 6 {
        s.subrange(6, s.len() as int)
    } else {
        Seq::empty()
    }
}

/// `"begin"`.
pub open spec fn begin_key() -> Seq<u8> {
    seq![98u8, 101u8, 103u8, 105u8, 110u8]
}

/// `"pcrc32"`.
pub open spec fn pcrc32_key() -> Seq<u8> {
    seq![112u8, 99u8, 114u8, 99u8, 51u8, 50u8]
}

pub fn begin_key_vec() -> (v: Vec<u8>)
    ensures
        v@ == begin_key(),
{
    let mut v: Vec<u8> = Vec::new();
    v.push(98);
    v.push(101);
    v.push(103);
    v.push(105);
    v.push(110);
    assert(v@ =~= begin_key());
    v
}

pub fn pcrc32_key_vec() -> (v: Vec<u8>)
    ensures
        v@ == pcrc32_key(),
{
    let mut v: Vec<u8> = Vec::new();
    v.push(112);
    v.push(99);
    v.push(114);
    v.push(99);
    v.push(51);
    v.push(50);
    assert(v@ =~= pcrc32_key());
    v
}

/// The `begin` value a part line declares, when its directives parse and
/// carry one that reads as a decimal number.
pub open spec fn begin_value(line: Seq<u8>) -> Option<u64> {
    match parse_command_spec(part_rest(line)) {
        None => None,
        Some(ps) => match lookup_pair(ps, begin_key()) {
            None => None,
            Some(v) => parse_u64_spec(v),
        },
    }
}

/// The working offset after a part line: a declared `begin` is the
/// authoritative 1-based file position, so the offset becomes
/// `begin - 1`; without a usable declaration the scheduled offset stands.
pub open spec fn part_offset(cur: u64, line: Seq<u8>) -> u64 {
    match begin_value(line) {
        Some(b) => if b >= 1 {
            (b - 1) as u64
        } else {
            cur
        },
        None => cur,
    }
}

/// Addition modulo 2^64, the wrap-around of the working offset.
pub open spec fn wrap64(x: int) -> u64 {
    (x % 0x1_0000_0000_0000_0000) as u64
}

pub fn wrap_add_u64(a: u64, b: u64) -> (r: u64)
    ensures
        r == wrap64(a as int + b as int),
{
    if b <= u64::MAX - a {
        assert(wrap64(a as int + b as int) == a as int + b as int);
        a + b
    } else {
        assert(wrap64(a as int + b as int) == a as int + b as int - 0x1_0000_0000_0000_0000);
        b - (u64::MAX - a) - 1
    }
}

/// One decoded chunk, tagged with the absolute file offset it belongs at.
#[derive(Debug)]
pub struct FilePart {
    pub offset: u64,
    pub buff: Vec<u8>,
}

/// The per-article streaming consumer: expects the header line, then the
/// part line, then decodes data lines until the trailer, keeping a
/// running checksum of all decoded bytes and handing out offset-tagged
/// chunks.
pub struct FileWriter {
    pub offset: u64,
    pub has_header: bool,
    pub has_part: bool,
    pub hasher: crc32fast::Hasher,
}

/// What a successful [`FileWriter::consume`] call did, given the state
/// before (`o`), the state after (`n`), the line, and the emitted chunk.
pub open spec fn consume_ok(o: FileWriter, n: FileWriter, line: Seq<u8>, p: Option<
    FilePart,
>) -> bool {
    if !o.has_header {
        is_header_line(line) && p is None && n == (FileWriter { has_header: true, ..o })
    } else if !o.has_part {
        is_part_line(line) && p is None && parse_command_spec(part_rest(line)) is Some && n == (
        FileWriter { has_part: true, offset: part_offset(o.offset, line), ..o })
    } else if is_trailer_line(line) {
        n == o && p is None && (match parse_command_spec(trailer_rest(line)) {
            None => false,
            Some(ps) => match lookup_pair(ps, pcrc32_key()) {
                None => true,
                Some(v) => match parse_hex_u32_spec(v) {
                    None => false,
                    Some(d) => d == crc32_of(hasher_bytes(o.hasher)),
                },
            },
        })
    } else {
        match p {
            None => false,
            Some(part) => part.offset == o.offset && part.buff@ == decode_spec(line)
                && n.has_header && n.has_part && n.offset == wrap64(
                o.offset + decode_spec(line).len(),
            ) && hasher_bytes(n.hasher) == hasher_bytes(o.hasher) + decode_spec(line),
        }
    }
}

/// What a failing [`FileWriter::consume`] call means, given the state
/// before (`o`), the state after (`n`), the line, and the error.
pub open spec fn consume_err(o: FileWriter, n: FileWriter, line: Seq<u8>, e: DownloadError) -> bool {
    if !o.has_header {
        n == o && !is_header_line(line) && e == DownloadError::ExpectHeader
    } else if !o.has_part {
        n == o && (if is_part_line(line) {
            parse_command_spec(part_rest(line)) is None && e == DownloadError::Format
        } else {
            e == DownloadError::ExpectPart
        })
    } else if is_trailer_line(line) {
        n == o && (match parse_command_spec(trailer_rest(line)) {
            None => e == DownloadError::Format,
            Some(ps) => match lookup_pair(ps, pcrc32_key()) {
                None => false,
                Some(v) => match parse_hex_u32_spec(v) {
                    None => e == DownloadError::Format,
                    Some(d) => d != crc32_of(hasher_bytes(o.hasher)) && e == (
                    DownloadError::Integrity {
                        declared: d,
                        computed: crc32_of(hasher_bytes(o.hasher)),
                    }),
                },
            },
        })
    } else {
        false
    }
}

impl FileWriter {
    /// A fresh consumer seeded with the segment's scheduled offset.
    pub fn new(offset: u64) -> (r: FileWriter)
        ensures
            r.offset == offset,
            !r.has_header,
            !r.has_part,
            hasher_bytes(r.hasher) == Seq::<u8>::empty(),
    {
        FileWriter { offset, has_header: false, has_part: false, hasher: hasher_new() }
    }

    /// Feed one article line to the consumer.
    ///
    /// Returns the decoded, offset-tagged chunk of a data line; `None`
    /// for the header, part and trailer lines. A trailer whose declared
    /// `pcrc32` does not match the checksum of all bytes decoded so far
    /// is an integrity error; success on the trailer is the article's
    /// normal completion.
    pub fn consume(&mut self, line: &[u8]) -> (r: Result<Option<FilePart>, DownloadError>)
        ensures
            match r {
                Ok(p) => consume_ok(*old(self), *final(self), line@, p),
                Err(e) => consume_err(*old(self), *final(self), line@, e),
            },
    {
        if !self.has_header {
            if starts_with_header(line) {
                self.has_header = true;
                return Ok(None);
            } else {
                return Err(DownloadError::ExpectHeader);
            }
        }
        if !self.has_part {
            if starts_with_part(line) {
                let rest = if line.len() >= 7 {
                    slice_subrange(line, 7, line.len())
                } else {
                    slice_subrange(line, 0, 0)
                };
                assert(rest@ == part_rest(line@));
                let cmd = match parse_command(rest) {
                    Ok(cmd) => cmd,
                    Err(e) => {
                        return Err(e);
                    },
                };
                let key = begin_key_vec();
                match cmd.get(key.as_slice()) {
                    Some(v) => {
                        match parse_u64_digits(v.as_slice()) {
                            Some(b) => {
                                if b >= 1 {
                                    self.offset = b - 1;
                                }
                            },
                            None => {},
                        }
                    },
                    None => {},
                }
                self.has_part = true;
                return Ok(None);
            } else {
                return Err(DownloadError::ExpectPart);
            }
        }
        if starts_with_trailer(line) {
            let rest = if line.len() >= 6 {
                slice_subrange(line, 6, line.len())
            } else {
                slice_subrange(line, 0, 0)
            };
            assert(rest@ == trailer_rest(line@));
            let cmd = match parse_command(rest) {
                Ok(cmd) => cmd,
                Err(e) => {
                    return Err(e);
                },
            };
            let key = pcrc32_key_vec();
            match cmd.get(key.as_slice()) {
                Some(v) => {
                    match parse_hex_u32(v.as_slice()) {
                        Some(declared) => {
                            let actual = hasher_crc(&self.hasher);
                            if actual != declared {
                                return Err(
                                    DownloadError::Integrity { declared, computed: actual },
                                );
                            }
                            return Ok(None);
                        },
                        None => {
                            return Err(DownloadError::Format);
                        },
                    }
                },
                None => {
                    return Ok(None);
                },
            }
        }
        let mut buff: Vec<u8> = Vec::new();
        decode(line, &mut buff);
        hasher_update(&mut self.hasher, buff.as_slice());
        let size: u64 = buff.len() as u64;
        let offset: u64 = self.offset;
        self.offset = wrap_add_u64(self.offset, size);
        Ok(Some(FilePart { offset, buff }))
    }

    /// Flush hook at end of article; nothing is buffered, so nothing to do.
    pub fn done(&mut self) -> (r: Result<(), DownloadError>)
        ensures
            *final(self) == *old(self),
            r is Ok,
    {
        Ok(())
    }
}

} // verus!
