//! Laws of the head of a WAV file, over the bytes of the file.

use vstd::prelude::*;
use vstd::arithmetic::div_mod;

use crate::wav;
use crate::wav::AudioFormat;

verus! {

/// The number in the four bytes from `i` on, the lowest byte first.
pub open spec fn number4(b: Seq<u8>, i: int) -> int {
    b[i] as int + 256 * (b[i + 1] as int) + 65536 * (b[i + 2] as int) + 16777216 * (b[i + 3] as int)
}

/// The number in the two bytes from `i` on, the lowest byte first.
pub open spec fn number2(b: Seq<u8>, i: int) -> int {
    b[i] as int + 256 * (b[i + 1] as int)
}

/// The four bytes from `i` on are the ASCII characters `w`, `x`, `y`, `z`.
pub open spec fn tag(b: Seq<u8>, i: int, w: char, x: char, y: char, z: char) -> bool {
    b[i] as int == w as int && b[i + 1] as int == x as int && b[i + 2] as int == y as int && b[i + 3] as int == z as int
}

/// A chunk before the audio: its name, its size, its body, and a byte of padding
/// where the size is odd.
pub open spec fn is_chunk(c: Seq<u8>) -> bool {
    &&& c.len() >= 8
    &&& !tag(c, 0, 'd', 'a', 't', 'a')
    &&& c.len() == 8 + number4(c, 4) + number4(c, 4) % 2
}

/// A chunk that tells the format of the audio.
pub open spec fn tells_format(c: Seq<u8>) -> bool {
    tag(c, 0, 'f', 'm', 't', ' ') && c.len() >= 24
}

/// Chunks, one after the other.
pub open spec fn joined(chunks: Seq<Seq<u8>>) -> Seq<u8>
    decreases chunks.len(),
{
    if chunks.len() == 0 {
        Seq::empty()
    } else {
        chunks[0] + joined(chunks.drop_first())
    }
}

/// The chunks behind `have` bytes stay within the largest preamble.
pub open spec fn fits(have: int, chunks: Seq<Seq<u8>>) -> bool
    decreases chunks.len(),
{
    chunks.len() > 0 ==> have + chunks[0].len() - 8 <= 1_000_000 && fits(have + chunks[0].len(), chunks.drop_first())
}

proof fn lemma_tag(b: Seq<u8>, i: int)
    requires
        0 <= i,
        i + 4 <= b.len(),
    ensures
        b.subrange(i, i + 4) == wav::data() <==> tag(b, i, 'd', 'a', 't', 'a'),
        b.subrange(i, i + 4) == wav::fmt() <==> tag(b, i, 'f', 'm', 't', ' '),
        b.subrange(i, i + 4) == wav::riff() <==> tag(b, i, 'R', 'I', 'F', 'F'),
        b.subrange(i, i + 4) == wav::wave() <==> tag(b, i, 'W', 'A', 'V', 'E'),
{
    let s = b.subrange(i, i + 4);
    assert(s[0] == b[i] && s[1] == b[i + 1] && s[2] == b[i + 2] && s[3] == b[i + 3]);
    lemma_four(s, wav::data());
    lemma_four(s, wav::fmt());
    lemma_four(s, wav::riff());
    lemma_four(s, wav::wave());
}

proof fn lemma_four(s: Seq<u8>, t: Seq<u8>)
    requires
        s.len() == 4,
        t.len() == 4,
    ensures
        s == t <==> s[0] == t[0] && s[1] == t[1] && s[2] == t[2] && s[3] == t[3],
{
    if s[0] == t[0] && s[1] == t[1] && s[2] == t[2] && s[3] == t[3] {
        assert(s =~= t);
    }
}

/// The format after some chunks.
spec fn format_behind(f: AudioFormat, chunks: Seq<Seq<u8>>) -> AudioFormat
    decreases chunks.len(),
{
    if chunks.len() == 0 {
        f
    } else {
        format_behind(wav::format_after(f, chunks[0]), chunks.drop_first())
    }
}

proof fn lemma_chunks_are_read(pre: Seq<u8>, f: AudioFormat, chunks: Seq<Seq<u8>>, tail: Seq<u8>, max_secs: int)
    requires
        forall|i: int| 0 <= i < chunks.len() ==> is_chunk(#[trigger] chunks[i]),
    ensures
        fits(pre.len() as int, chunks) ==> wav::head_from(pre, f, joined(chunks) + tail, max_secs) == wav::head_from(
            pre + joined(chunks),
            format_behind(f, chunks),
            tail,
            max_secs,
        ),
        !fits(pre.len() as int, chunks) ==> wav::head_from(pre, f, joined(chunks) + tail, max_secs) is None,
    decreases chunks.len(),
{
    let rest = joined(chunks) + tail;
    if chunks.len() == 0 {
        assert(rest == tail);
        assert(pre + joined(chunks) == pre);
    } else {
        let c = chunks[0];
        let more = chunks.drop_first();
        assert(is_chunk(c));
        lemma_tag(c, 0);
        assert(rest == c + (joined(more) + tail));
        assert(rest.take(4) == c.subrange(0, 4));
        assert(rest.take(c.len() as int) == c);
        assert(rest.skip(c.len() as int) == joined(more) + tail);
        assert(wav::le32(rest, 4) == number4(c, 4));
        assert forall|i: int| 0 <= i < more.len() implies is_chunk(#[trigger] more[i]) by {
            assert(more[i] == chunks[i + 1]);
        }
        lemma_chunks_are_read(pre + c, wav::format_after(f, c), more, tail, max_secs);
        assert(pre + joined(chunks) == pre + c + joined(more));
    }
}

proof fn lemma_last_format_counts(f: AudioFormat, chunks: Seq<Seq<u8>>, k: int)
    requires
        forall|i: int| 0 <= i < chunks.len() ==> is_chunk(#[trigger] chunks[i]),
        0 <= k < chunks.len(),
        tells_format(chunks[k]),
        forall|i: int| k < i < chunks.len() ==> !tells_format(#[trigger] chunks[i]),
    ensures
        format_behind(f, chunks).byte_rate == number4(chunks[k], 16),
        format_behind(f, chunks).block_align == if number2(chunks[k], 20) == 0 {
            1
        } else {
            number2(chunks[k], 20)
        },
    decreases chunks.len(),
{
    let c = chunks[0];
    let more = chunks.drop_first();
    let next = wav::format_after(f, c);
    lemma_tag(c, 0);
    assert(c.take(4) == c.subrange(0, 4));
    assert forall|i: int| 0 <= i < more.len() implies is_chunk(#[trigger] more[i]) && more[i] == chunks[i + 1] by {
        assert(more[i] == chunks[i + 1]);
    }
    if k > 0 {
        assert(more[k - 1] == chunks[k]);
        assert forall|i: int| k - 1 < i < more.len() implies !tells_format(#[trigger] more[i]) by {
            assert(more[i] == chunks[i + 1]);
        }
        lemma_last_format_counts(next, more, k - 1);
    } else {
        assert forall|i: int| 0 <= i < more.len() implies !tells_format(#[trigger] more[i]) by {
            assert(more[i] == chunks[i + 1]);
        }
        lemma_other_chunks_keep_format(next, more);
    }
}

proof fn lemma_other_chunks_keep_format(f: AudioFormat, chunks: Seq<Seq<u8>>)
    requires
        forall|i: int| 0 <= i < chunks.len() ==> is_chunk(#[trigger] chunks[i]) && !tells_format(chunks[i]),
    ensures
        format_behind(f, chunks) == f,
    decreases chunks.len(),
{
    if chunks.len() > 0 {
        let c = chunks[0];
        let more = chunks.drop_first();
        assert(is_chunk(c) && !tells_format(c));
        lemma_tag(c, 0);
        assert(c.take(4) == c.subrange(0, 4));
        assert forall|i: int| 0 <= i < more.len() implies is_chunk(#[trigger] more[i]) && !tells_format(more[i]) by {
            assert(more[i] == chunks[i + 1]);
        }
        lemma_other_chunks_keep_format(wav::format_after(f, c), more);
    }
}

proof fn lemma_cap(f: AudioFormat, max_secs: int, cap: int)
    requires
        0 <= max_secs,
        f.block_align > 0,
        0 <= cap,
        cap % (f.block_align as int) == 0,
        cap <= max_secs * f.byte_rate < cap + f.block_align,
    ensures
        wav::audio_cap(f, max_secs) == cap,
{
    let a = f.block_align as int;
    let m = max_secs * f.byte_rate;
    let q = cap / a;
    div_mod::lemma_fundamental_div_mod(cap, a);
    assert(cap == q * a) by (nonlinear_arith)
        requires
            cap == a * q + cap % a,
            cap % a == 0,
    ;
    div_mod::lemma_fundamental_div_mod_converse(m, a, q, m - cap);
}

/// The bytes of a file: its header, chunks, the header of the audio, and the rest.
pub open spec fn file_of(start: Seq<u8>, chunks: Seq<Seq<u8>>, header: Seq<u8>, rest: Seq<u8>) -> Seq<u8> {
    start + joined(chunks) + header + rest
}

/// What is needed of the parts of a WAV file: a RIFF header of a WAVE file, chunks,
/// and the header of the audio.
pub open spec fn is_wav(start: Seq<u8>, chunks: Seq<Seq<u8>>, header: Seq<u8>) -> bool {
    &&& start.len() == 12
    &&& tag(start, 0, 'R', 'I', 'F', 'F')
    &&& tag(start, 8, 'W', 'A', 'V', 'E')
    &&& forall|i: int| 0 <= i < chunks.len() ==> is_chunk(#[trigger] chunks[i])
    &&& header.len() == 8
    &&& tag(header, 0, 'd', 'a', 't', 'a')
}

proof fn lemma_head_of_parts(start: Seq<u8>, chunks: Seq<Seq<u8>>, header: Seq<u8>, rest: Seq<u8>, max_secs: int)
    requires
        is_wav(start, chunks, header),
    ensures
        ({
            let f = format_behind(wav::unknown_format(), chunks);
            let cap = wav::audio_cap(f, max_secs);
            let pre = joined(chunks);
            wav::head_of(file_of(start, chunks, header, rest), max_secs) == if !fits(0, chunks) || f.byte_rate == 0 || number4(
                header,
                4,
            ) <= cap || rest.len() < cap || 4 + pre.len() + 8 + cap > u32::MAX {
                None
            } else {
                Some(wav::wav_file(pre, (header + rest).subrange(8, 8 + cap)))
            }
        }),
{
    let file = file_of(start, chunks, header, rest);
    let none = Seq::<u8>::empty();
    lemma_tag(start, 0);
    lemma_tag(start, 8);
    lemma_tag(header, 0);
    assert(file.take(4) == start.subrange(0, 4));
    assert(file.subrange(8, 12) == start.subrange(8, 12));
    assert(file.skip(12) == joined(chunks) + (header + rest));
    lemma_chunks_are_read(none, wav::unknown_format(), chunks, header + rest, max_secs);
    assert(none + joined(chunks) == joined(chunks));
    assert((header + rest).take(4) == header.subrange(0, 4));
    assert(wav::le32(header + rest, 4) == number4(header, 4));
}

/// The head of a WAV file is its first `max_secs` seconds. Where the last format
/// chunk holds the byte rate `r` in its bytes 8 to 11 and the block size `b` in its
/// bytes 12 and 13, the head holds the chunks as they are and `cap` bytes of the
/// audio from its beginning, `cap` being the greatest number of whole blocks that
/// `max_secs` times `r` bytes hold. It is cut exactly where there is more audio
/// than that and the file holds that much.
pub proof fn lemma_head_is_the_first_seconds(
    start: Seq<u8>,
    chunks: Seq<Seq<u8>>,
    k: int,
    header: Seq<u8>,
    rest: Seq<u8>,
    max_secs: int,
    cap: int,
)
    requires
        is_wav(start, chunks, header),
        fits(0, chunks),
        0 <= k < chunks.len(),
        tells_format(chunks[k]),
        forall|i: int| k < i < chunks.len() ==> !tells_format(#[trigger] chunks[i]),
        0 <= max_secs,
        0 <= cap,
        ({
            let r = number4(chunks[k], 16);
            let b = number2(chunks[k], 20);
            let block = if b == 0 {
                1
            } else {
                b
            };
            r > 0 && cap % block == 0 && cap <= max_secs * r < cap + block
        }),
    ensures
        ({
            let pre = joined(chunks);
            let head = wav::head_of(file_of(start, chunks, header, rest), max_secs);
            &&& head is Some <==> cap < number4(header, 4) && cap <= rest.len() && 12 + pre.len() + cap <= 0xFFFF_FFFF
            &&& head matches Some(h) ==> {
                let d = 12 + pre.len() as int;
                &&& h.len() == d + 8 + cap
                &&& tag(h, 0, 'R', 'I', 'F', 'F')
                &&& number4(h, 4) == h.len() - 8
                &&& tag(h, 8, 'W', 'A', 'V', 'E')
                &&& h.subrange(12, d) == pre
                &&& tag(h, d, 'd', 'a', 't', 'a')
                &&& number4(h, d + 4) == cap
                &&& h.skip(d + 8) == rest.take(cap)
            }
        }),
{
    let f = format_behind(wav::unknown_format(), chunks);
    let pre = joined(chunks);
    assert(is_chunk(chunks[k]));
    lemma_last_format_counts(wav::unknown_format(), chunks, k);
    lemma_cap(f, max_secs, cap);
    lemma_head_of_parts(start, chunks, header, rest, max_secs);
    if let Some(h) = wav::head_of(file_of(start, chunks, header, rest), max_secs) {
        let audio = (header + rest).subrange(8, 8 + cap);
        assert(audio == rest.take(cap));
        wav::lemma_wav_file_sizes(pre, audio);
        let d = 12 + pre.len() as int;
        assert(h.take(4) == h.subrange(0, 4));
        lemma_tag(h, 0);
        lemma_tag(h, 8);
        assert(h.skip(d).take(4) == h.subrange(d, d + 4));
        lemma_tag(h, d);
    }
}

/// A WAV file without a format, with a byte rate of zero, or with more than a
/// million bytes before its audio is left as it is.
pub proof fn lemma_odd_files_are_left_as_they_are(start: Seq<u8>, chunks: Seq<Seq<u8>>, k: int, header: Seq<u8>, rest: Seq<u8>, max_secs: int)
    requires
        is_wav(start, chunks, header),
        ({
            ||| forall|i: int| 0 <= i < chunks.len() ==> !tells_format(#[trigger] chunks[i])
            ||| !fits(0, chunks)
            ||| 0 <= k < chunks.len() && tells_format(chunks[k]) && number4(chunks[k], 16) == 0 && forall|i: int|
                k < i < chunks.len() ==> !tells_format(#[trigger] chunks[i])
        }),
    ensures
        wav::head_of(file_of(start, chunks, header, rest), max_secs) is None,
{
    lemma_head_of_parts(start, chunks, header, rest, max_secs);
    if forall|i: int| 0 <= i < chunks.len() ==> !tells_format(#[trigger] chunks[i]) {
        lemma_other_chunks_keep_format(wav::unknown_format(), chunks);
    } else if fits(0, chunks) {
        lemma_last_format_counts(wav::unknown_format(), chunks, k);
    }
}

/// What does not begin as a WAV file is left as it is, and so is one that breaks
/// off before its audio.
pub proof fn lemma_other_files_are_left_as_they_are(file: Seq<u8>, max_secs: int)
    requires
        file.len() < 20 || !tag(file, 0, 'R', 'I', 'F', 'F') || !tag(file, 8, 'W', 'A', 'V', 'E'),
    ensures
        wav::head_of(file, max_secs) is None,
{
    if file.len() >= 12 {
        lemma_tag(file, 0);
        lemma_tag(file, 8);
        assert(file.take(4) == file.subrange(0, 4));
    }
}

/// A file that breaks off in the header or in the body of a chunk before its audio
/// is left as it is.
pub proof fn lemma_broken_files_are_left_as_they_are(start: Seq<u8>, chunks: Seq<Seq<u8>>, tail: Seq<u8>, max_secs: int)
    requires
        start.len() == 12,
        forall|i: int| 0 <= i < chunks.len() ==> is_chunk(#[trigger] chunks[i]),
        tail.len() < 8 || !tag(tail, 0, 'd', 'a', 't', 'a') && tail.len() < 8 + number4(tail, 4) + number4(tail, 4) % 2,
    ensures
        wav::head_of(start + joined(chunks) + tail, max_secs) is None,
{
    let file = start + joined(chunks) + tail;
    let none = Seq::<u8>::empty();
    assert(file.skip(12) == joined(chunks) + tail);
    lemma_chunks_are_read(none, wav::unknown_format(), chunks, tail, max_secs);
    if tail.len() >= 8 {
        lemma_tag(tail, 0);
        assert(tail.take(4) == tail.subrange(0, 4));
        assert(wav::le32(tail, 4) == number4(tail, 4));
    }
}

/// The analysis looks at 90 seconds.
pub proof fn lemma_analysis_looks_at_ninety_seconds()
    ensures
        wav::ANALYSIS_SECS == 90,
{
}

} // verus!
