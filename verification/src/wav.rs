//! The beginning of a WAV file.
//!
//! The analysis of a master needs only its first seconds. [`WavHead`] reads a
//! WAV file piece by piece and puts together a shorter, valid one: the chunks
//! before the audio as they are, and the audio up to a whole number of blocks.

use vstd::prelude::*;
use vstd::slice::slice_subrange;

verus! {

/// The largest preamble (the chunks before the audio) that is still copied.
pub const MAX_PREAMBLE: u64 = 1_000_000;

/// How many seconds the analysis of tempo and key looks at.
pub const ANALYSIS_SECS: u64 = 90;

/// "RIFF"
pub open spec fn riff() -> Seq<u8> {
    seq![0x52u8, 0x49u8, 0x46u8, 0x46u8]
}

/// "WAVE"
pub open spec fn wave() -> Seq<u8> {
    seq![0x57u8, 0x41u8, 0x56u8, 0x45u8]
}

/// "fmt "
pub open spec fn fmt() -> Seq<u8> {
    seq![0x66u8, 0x6du8, 0x74u8, 0x20u8]
}

/// "data"
pub open spec fn data() -> Seq<u8> {
    seq![0x64u8, 0x61u8, 0x74u8, 0x61u8]
}

/// The little-endian number in the four bytes from `i` on.
pub open spec fn le32(b: Seq<u8>, i: int) -> int {
    b[i] + 0x100 * b[i + 1] + 0x1_0000 * b[i + 2] + 0x100_0000 * b[i + 3]
}

/// The little-endian number in the two bytes from `i` on.
pub open spec fn le16(b: Seq<u8>, i: int) -> int {
    b[i] + 0x100 * b[i + 1]
}

/// The four bytes of `n`, lowest first.
pub open spec fn le_bytes(n: int) -> Seq<u8> {
    seq![
        (n % 0x100) as u8,
        (n / 0x100 % 0x100) as u8,
        (n / 0x1_0000 % 0x100) as u8,
        (n / 0x100_0000 % 0x100) as u8,
    ]
}

/// What the format chunk says of the audio.
pub struct AudioFormat {
    /// Bytes per second; zero while it is unknown.
    pub byte_rate: u32,
    /// Bytes per block; never zero.
    pub block_align: u32,
}

/// The bytes of audio in `max_secs` seconds, cut to whole blocks.
pub open spec fn audio_cap(f: AudioFormat, max_secs: int) -> int {
    (max_secs * f.byte_rate / (f.block_align as int)) * f.block_align
}

/// The size of a chunk body with its padding to an even length.
pub open spec fn padded(size: int) -> int {
    size + size % 2
}

/// The format after a chunk: a format chunk sets it, any other keeps it.
pub open spec fn format_after(f: AudioFormat, chunk: Seq<u8>) -> AudioFormat {
    if chunk.take(4) == fmt() && chunk.len() >= 24 {
        AudioFormat {
            byte_rate: le32(chunk, 16) as u32,
            block_align: if le16(chunk, 20) == 0 {
                1
            } else {
                le16(chunk, 20) as u32
            },
        }
    } else {
        f
    }
}

/// A WAV file of the preamble `pre` and the audio `audio`.
pub open spec fn wav_file(pre: Seq<u8>, audio: Seq<u8>) -> Seq<u8> {
    riff() + le_bytes((4 + pre.len() + 8 + audio.len()) as int) + wave() + pre + data() + le_bytes(
        audio.len() as int,
    ) + audio
}

/// The head of a WAV file of which `pre` has been read, with `rest` to come:
/// `None` where the file is not understood, or is short enough as it is.
pub open spec fn head_from(pre: Seq<u8>, f: AudioFormat, rest: Seq<u8>, max_secs: int) -> Option<Seq<u8>>
    decreases rest.len(),
{
    if rest.len() < 8 {
        None
    } else {
        let size = le32(rest, 4);
        if rest.take(4) == data() {
            let cap = audio_cap(f, max_secs);
            if f.byte_rate == 0 || size <= cap || rest.len() < 8 + cap || 4 + pre.len() + 8 + cap > u32::MAX {
                None
            } else {
                Some(wav_file(pre, rest.subrange(8, 8 + cap)))
            }
        } else if pre.len() + padded(size) > MAX_PREAMBLE || rest.len() < 8 + padded(size) {
            None
        } else {
            let chunk = rest.take(8 + padded(size));
            head_from(pre + chunk, format_after(f, chunk), rest.skip(8 + padded(size)), max_secs)
        }
    }
}

/// The format before any format chunk was read.
pub open spec fn unknown_format() -> AudioFormat {
    AudioFormat { byte_rate: 0, block_align: 1 }
}

/// The first `max_secs` seconds of a WAV file, as a WAV file: `None` where the
/// file is not understood, or is short enough as it is.
pub open spec fn head_of(file: Seq<u8>, max_secs: int) -> Option<Seq<u8>> {
    if file.len() < 12 || file.take(4) != riff() || file.subrange(8, 12) != wave() {
        None
    } else {
        head_from(seq![], unknown_format(), file.skip(12), max_secs)
    }
}

/// What a [`WavHead`] reads next.
enum Want {
    /// The RIFF header.
    Riff,
    /// The header of a chunk.
    Header,
    /// The body of the chunk with this header, padding included.
    Body { header: Vec<u8>, size: u64 },
    /// The audio, behind this header.
    Audio { header: Vec<u8>, size: u64 },
}

/// Reads the beginning of a WAV file piece by piece.
pub struct WavHead {
    max_secs: u64,
    pre: Vec<u8>,
    format: AudioFormat,
    want: Want,
}

/// What comes of a piece.
pub enum HeadStep {
    /// More pieces are needed.
    More(WavHead),
    /// The reading is over. `None` stands for the file as it is.
    Done(Option<Vec<u8>>),
}

impl WavHead {
    /// The head that results when `rest` is what is left of the file.
    pub closed spec fn outcome(self, rest: Seq<u8>) -> Option<Seq<u8>> {
        match self.want {
            Want::Riff => head_of(rest, self.max_secs as int),
            Want::Header => head_from(self.pre@, self.format, rest, self.max_secs as int),
            Want::Body { header, .. } => head_from(self.pre@, self.format, header@ + rest, self.max_secs as int),
            Want::Audio { header, .. } => head_from(self.pre@, self.format, header@ + rest, self.max_secs as int),
        }
    }

    /// How many bytes the next piece has.
    pub closed spec fn piece_len(self) -> int {
        match self.want {
            Want::Riff => 12,
            Want::Header => 8,
            Want::Body { size, .. } => size as int,
            Want::Audio { size, .. } => size as int,
        }
    }

    /// Whether the next piece is the body of a chunk, which may be empty.
    pub closed spec fn inside_chunk(self) -> bool {
        self.want is Body
    }

    /// The invariant of the reader.
    pub closed spec fn wf(self) -> bool {
        &&& self.format.block_align > 0
        &&& self.pre@.len() <= MAX_PREAMBLE + 8
        &&& match self.want {
            Want::Riff => true,
            Want::Header => true,
            Want::Body { header, size } => {
                &&& header@.len() == 8
                &&& header@.take(4) != data()
                &&& size == padded(le32(header@, 4))
                &&& self.pre@.len() + size <= MAX_PREAMBLE
            },
            Want::Audio { header, size } => {
                &&& header@.len() == 8
                &&& header@.take(4) == data()
                &&& self.format.byte_rate != 0
                &&& size == audio_cap(self.format, self.max_secs as int)
                &&& size < le32(header@, 4)
            },
        }
    }
}

/// The little-endian number in the four bytes from `i` on.
fn read_le32(b: &Vec<u8>, i: usize) -> (r: u32)
    requires
        i + 4 <= b.len(),
    ensures
        r == le32(b@, i as int),
{
    (b[i] as u32) + 0x100 * (b[i + 1] as u32) + 0x1_0000 * (b[i + 2] as u32) + 0x100_0000 * (b[i + 3] as u32)
}

/// The little-endian number in the two bytes from `i` on.
fn read_le16(b: &Vec<u8>, i: usize) -> (r: u32)
    requires
        i + 2 <= b.len(),
    ensures
        r == le16(b@, i as int),
{
    (b[i] as u32) + 0x100 * (b[i + 1] as u32)
}

/// Whether the four bytes from `i` on are `a`, `b`, `c`, `d`.
fn tag_at(v: &Vec<u8>, i: usize, a: u8, b: u8, c: u8, d: u8) -> (r: bool)
    requires
        i + 4 <= v.len(),
    ensures
        r == (v@.subrange(i as int, i + 4) == seq![a, b, c, d]),
{
    let r: bool = v[i] == a && v[i + 1] == b && v[i + 2] == c && v[i + 3] == d;
    proof {
        let s = v@.subrange(i as int, i + 4);
        assert(s[0] == v@[i as int] && s[1] == v@[i + 1] && s[2] == v@[i + 2] && s[3] == v@[i + 3]);
        if r {
            assert(s == seq![a, b, c, d]);
        } else {
            let t = seq![a, b, c, d];
            assert(t[0] == a && t[1] == b && t[2] == c && t[3] == d);
        }
    }
    r
}

/// Appends the four bytes of `n`.
fn push_le(out: &mut Vec<u8>, n: u32)
    ensures
        final(out)@ == old(out)@ + le_bytes(n as int),
{
    out.push((n % 0x100) as u8);
    out.push((n / 0x100 % 0x100) as u8);
    out.push((n / 0x1_0000 % 0x100) as u8);
    out.push((n / 0x100_0000 % 0x100) as u8);
    assert(out@ == old(out)@ + le_bytes(n as int));
}

/// Appends four bytes.
fn push_tag(out: &mut Vec<u8>, a: u8, b: u8, c: u8, d: u8)
    ensures
        final(out)@ == old(out)@ + seq![a, b, c, d],
{
    out.push(a);
    out.push(b);
    out.push(c);
    out.push(d);
    assert(out@ == old(out)@ + seq![a, b, c, d]);
}

/// Appends `more`.
fn push_all(out: &mut Vec<u8>, more: &Vec<u8>)
    ensures
        final(out)@ == old(out)@ + more@,
{
    out.extend_from_slice(more.as_slice());
    assert(out@ == old(out)@ + more@);
}

/// The WAV file of the preamble `pre` and the audio `audio`.
fn build_wav(pre: &Vec<u8>, audio: &Vec<u8>) -> (r: Vec<u8>)
    requires
        4 + pre@.len() + 8 + audio@.len() <= u32::MAX,
    ensures
        r@ == wav_file(pre@, audio@),
{
    let mut out: Vec<u8> = Vec::new();
    push_tag(&mut out, 0x52, 0x49, 0x46, 0x46);
    push_le(&mut out, (4 + pre.len() + 8 + audio.len()) as u32);
    push_tag(&mut out, 0x57, 0x41, 0x56, 0x45);
    push_all(&mut out, pre);
    push_tag(&mut out, 0x64, 0x61, 0x74, 0x61);
    push_le(&mut out, audio.len() as u32);
    push_all(&mut out, audio);
    assert(out@ == wav_file(pre@, audio@));
    out
}

impl WavHead {
    /// A reader for the first `max_secs` seconds of a WAV file.
    pub fn new(max_secs: u64) -> (r: WavHead)
        ensures
            r.wf(),
            forall|file: Seq<u8>| #[trigger] r.outcome(file) == head_of(file, max_secs as int),
    {
        WavHead {
            max_secs,
            pre: Vec::new(),
            format: AudioFormat { byte_rate: 0, block_align: 1 },
            want: Want::Riff,
        }
    }

    /// How many bytes the next piece has. Where the file has fewer left, the head
    /// cannot be read.
    pub fn needs(&self) -> (r: usize)
        requires
            self.wf(),
        ensures
            r == self.piece_len(),
            forall|rest: Seq<u8>| rest.len() < r ==> #[trigger] self.outcome(rest) is None,
    {
        proof {
            assert forall|rest: Seq<u8>| rest.len() < self.piece_len() implies #[trigger] self.outcome(rest) is None by {
                match self.want {
                    Want::Riff => {},
                    Want::Header => {},
                    Want::Body { header, .. } => {
                        let all = header@ + rest;
                        assert(all.take(4) == header@.take(4));
                    },
                    Want::Audio { header, .. } => {
                        let all = header@ + rest;
                        assert(all.take(4) == header@.take(4));
                    },
                }
            }
        }
        match &self.want {
            Want::Riff => 12,
            Want::Header => 8,
            Want::Body { size, .. } => *size as usize,
            Want::Audio { size, .. } => *size as usize,
        }
    }

    /// Takes the next piece of the file.
    pub fn feed(self, piece: Vec<u8>) -> (r: HeadStep)
        requires
            self.wf(),
            piece@.len() == self.piece_len(),
        ensures
            match r {
                HeadStep::More(next) => {
                    &&& next.wf()
                    &&& piece@.len() == 0 ==> self.inside_chunk() && !next.inside_chunk()
                    &&& forall|rest: Seq<u8>| #[trigger] self.outcome(piece@ + rest) == next.outcome(rest)
                },
                HeadStep::Done(None) => forall|rest: Seq<u8>| #[trigger] self.outcome(piece@ + rest) is None,
                HeadStep::Done(Some(head)) => forall|rest: Seq<u8>|
                    #[trigger] self.outcome(piece@ + rest) == Some(head@),
            },
    {
        let max_secs: u64 = self.max_secs;
        let format: AudioFormat = self.format;
        let pre: Vec<u8> = self.pre;
        match self.want {
            Want::Riff => feed_riff(max_secs, piece),
            Want::Header => feed_header(max_secs, pre, format, piece),
            Want::Body { header, .. } => feed_body(max_secs, pre, format, header, piece),
            Want::Audio { header, .. } => feed_audio(max_secs, pre, format, header, piece),
        }
    }
}

/// Takes the header of the file.
fn feed_riff(max_secs: u64, header: Vec<u8>) -> (r: HeadStep)
    requires
        header@.len() == 12,
    ensures
        match r {
            HeadStep::More(next) => next.wf() && !next.inside_chunk() && forall|rest: Seq<u8>|
                head_of(#[trigger] (header@ + rest), max_secs as int) == next.outcome(rest),
            HeadStep::Done(None) => forall|rest: Seq<u8>| head_of(#[trigger] (header@ + rest), max_secs as int) is None,
            HeadStep::Done(Some(_)) => false,
        },
{
    let known: bool = tag_at(&header, 0, 0x52, 0x49, 0x46, 0x46) && tag_at(&header, 8, 0x57, 0x41, 0x56, 0x45);
    assert forall|rest: Seq<u8>| head_of(#[trigger] (header@ + rest), max_secs as int) == (if known {
        head_from(seq![], unknown_format(), rest, max_secs as int)
    } else {
        None
    }) by {
        let all = header@ + rest;
        assert(all.take(4) == header@.subrange(0, 4));
        assert(all.subrange(8, 12) == header@.subrange(8, 12));
        assert(all.skip(12) == rest);
    }
    if known {
        HeadStep::More(
            WavHead {
                max_secs,
                pre: Vec::new(),
                format: AudioFormat { byte_rate: 0, block_align: 1 },
                want: Want::Header,
            },
        )
    } else {
        HeadStep::Done(None)
    }
}

/// Takes the body of the chunk with this header.
fn feed_body(max_secs: u64, pre: Vec<u8>, format: AudioFormat, header: Vec<u8>, body: Vec<u8>) -> (r: HeadStep)
    requires
        format.block_align > 0,
        header@.len() == 8,
        header@.take(4) != data(),
        body@.len() == padded(le32(header@, 4)),
        pre@.len() + body@.len() <= MAX_PREAMBLE,
    ensures
        r matches HeadStep::More(next) && next.wf() && !next.inside_chunk() && forall|rest: Seq<u8>|
            head_from(pre@, format, header@ + #[trigger] (body@ + rest), max_secs as int) == next.outcome(rest),
{
    let mut pre: Vec<u8> = pre;
    let ghost had = pre@;
    let ghost chunk = header@ + body@;
    let ghost size = body@.len() as int;
    assert forall|rest: Seq<u8>| head_from(had, format, header@ + #[trigger] (body@ + rest), max_secs as int) == head_from(
        had + chunk,
        format_after(format, chunk),
        rest,
        max_secs as int,
    ) by {
        let all = header@ + (body@ + rest);
        assert(all.take(4) == header@.take(4));
        assert(le32(all, 4) == le32(header@, 4));
        assert(all.take(8 + size) == chunk);
        assert(all.skip(8 + size) == rest);
    }
    let next: AudioFormat = if tag_at(&header, 0, 0x66, 0x6d, 0x74, 0x20) && body.len() >= 16 {
        let align: u32 = read_le16(&body, 12);
        AudioFormat {
            byte_rate: read_le32(&body, 8),
            block_align: if align == 0 {
                1
            } else {
                align
            },
        }
    } else {
        format
    };
    assert(chunk.take(4) == header@.subrange(0, 4));
    assert(next == format_after(format, chunk));
    push_all(&mut pre, &header);
    push_all(&mut pre, &body);
    assert(pre@ == had + chunk);
    HeadStep::More(WavHead { max_secs, pre, format: next, want: Want::Header })
}

/// Takes the audio behind this header.
fn feed_audio(max_secs: u64, pre: Vec<u8>, format: AudioFormat, header: Vec<u8>, audio: Vec<u8>) -> (r: HeadStep)
    requires
        format.byte_rate != 0,
        pre@.len() <= MAX_PREAMBLE + 8,
        header@.len() == 8,
        header@.take(4) == data(),
        audio@.len() == audio_cap(format, max_secs as int),
        audio@.len() < le32(header@, 4),
    ensures
        match r {
            HeadStep::More(_) => false,
            HeadStep::Done(None) => forall|rest: Seq<u8>|
                head_from(pre@, format, header@ + #[trigger] (audio@ + rest), max_secs as int) is None,
            HeadStep::Done(Some(head)) => forall|rest: Seq<u8>|
                head_from(pre@, format, header@ + #[trigger] (audio@ + rest), max_secs as int) == Some(head@),
        },
{
    let ghost size = audio@.len() as int;
    assert forall|rest: Seq<u8>| head_from(pre@, format, header@ + #[trigger] (audio@ + rest), max_secs as int) == (if 4
        + pre@.len() + 8 + size > u32::MAX {
        None
    } else {
        Some(wav_file(pre@, audio@))
    }) by {
        let all = header@ + (audio@ + rest);
        assert(all.take(4) == header@.take(4));
        assert(le32(all, 4) == le32(header@, 4));
        assert(all.subrange(8, 8 + size) == audio@);
    }
    if 4 + pre.len() as u64 + 8 + audio.len() as u64 > 0xffff_ffff {
        HeadStep::Done(None)
    } else {
        HeadStep::Done(Some(build_wav(&pre, &audio)))
    }
}

/// Takes the header of a chunk.
fn feed_header(max_secs: u64, pre: Vec<u8>, format: AudioFormat, header: Vec<u8>) -> (r: HeadStep)
    requires
        format.block_align > 0,
        pre@.len() <= MAX_PREAMBLE + 8,
        header@.len() == 8,
    ensures
        match r {
            HeadStep::More(next) => next.wf() && forall|rest: Seq<u8>|
                #[trigger] head_from(pre@, format, header@ + rest, max_secs as int) == next.outcome(rest),
            HeadStep::Done(None) => forall|rest: Seq<u8>|
                #[trigger] head_from(pre@, format, header@ + rest, max_secs as int) is None,
            HeadStep::Done(Some(_)) => false,
        },
{
    let size: u64 = read_le32(&header, 4) as u64;
    proof {
        assert forall|rest: Seq<u8>| #[trigger] (header@ + rest).take(4) == header@.subrange(0, 4) by {
            assert((header@ + rest).take(4) == header@.subrange(0, 4));
        }
        assert forall|rest: Seq<u8>| le32(#[trigger] (header@ + rest), 4) == size by {}
        assert(header@.take(4) == header@.subrange(0, 4));
    }
    if tag_at(&header, 0, 0x64, 0x61, 0x74, 0x61) {
        if format.byte_rate == 0 {
            return HeadStep::Done(None);
        }
        assert(0 <= max_secs * format.byte_rate <= 0xffff_ffff_ffff_ffff * 0xffff_ffff) by (nonlinear_arith)
            requires
                0 <= max_secs <= 0xffff_ffff_ffff_ffff,
                0 <= format.byte_rate <= 0xffff_ffff,
        ;
        let bytes: u128 = (max_secs as u128) * (format.byte_rate as u128);
        let align: u128 = format.block_align as u128;
        assert((bytes / align) * align <= bytes) by (nonlinear_arith)
            requires
                align > 0,
        ;
        let cap: u128 = (bytes / align) * align;
        if size as u128 <= cap {
            HeadStep::Done(None)
        } else {
            HeadStep::More(WavHead { max_secs, pre, format, want: Want::Audio { header, size: cap as u64 } })
        }
    } else {
        let whole: u64 = size + size % 2;
        if pre.len() as u64 + whole > MAX_PREAMBLE {
            HeadStep::Done(None)
        } else {
            HeadStep::More(WavHead { max_secs, pre, format, want: Want::Body { header, size: whole } })
        }
    }
}

/// The first `max_secs` seconds of a WAV file, as a WAV file. `None` where the
/// file is not understood, or is short enough as it is.
pub fn read_wav_head(file: &[u8], max_secs: u64) -> (r: Option<Vec<u8>>)
    ensures
        r is Some == head_of(file@, max_secs as int) is Some,
        r matches Some(head) ==> head_of(file@, max_secs as int) == Some(head@),
{
    let mut reader: WavHead = WavHead::new(max_secs);
    let mut pos: usize = 0;
    assert(file@.skip(0) == file@);
    loop
        invariant
            pos <= file@.len() == file.len(),
            reader.wf(),
            reader.outcome(file@.skip(pos as int)) == head_of(file@, max_secs as int),
        decreases file@.len() - pos, reader.inside_chunk() as int,
    {
        let n: usize = reader.needs();
        if n > file.len() - pos {
            return None;
        }
        let piece: Vec<u8> = vstd::slice::slice_to_vec(slice_subrange(file, pos, pos + n));
        assert(file@.skip(pos as int) == piece@ + file@.skip(pos + n));
        match reader.feed(piece) {
            HeadStep::More(next) => {
                reader = next;
                pos = pos + n;
            },
            HeadStep::Done(head) => {
                return head;
            },
        }
    }
}

/// Four bytes hold the number that was written to them.
proof fn lemma_le_bytes(n: int)
    requires
        0 <= n <= u32::MAX,
    ensures
        le32(le_bytes(n), 0) == n,
{
}

/// The sizes in a WAV file that [`wav_file`] puts together are right: the RIFF
/// size counts all that follows it, the data size counts the audio.
pub proof fn lemma_wav_file_sizes(pre: Seq<u8>, audio: Seq<u8>)
    requires
        4 + pre.len() + 8 + audio.len() <= u32::MAX,
    ensures
        wav_file(pre, audio).len() == 12 + pre.len() + 8 + audio.len(),
        wav_file(pre, audio).take(4) == riff(),
        le32(wav_file(pre, audio), 4) == wav_file(pre, audio).len() - 8,
        wav_file(pre, audio).subrange(8, 12) == wave(),
        wav_file(pre, audio).subrange(12, 12 + pre.len() as int) == pre,
        wav_file(pre, audio).skip(12 + pre.len() as int).take(4) == data(),
        le32(wav_file(pre, audio), 12 + pre.len() as int + 4) == audio.len(),
        wav_file(pre, audio).skip(12 + pre.len() as int + 8) == audio,
{
    let w = wav_file(pre, audio);
    let p = 12 + pre.len() as int;
    lemma_le_bytes((4 + pre.len() + 8 + audio.len()) as int);
    lemma_le_bytes(audio.len() as int);
    assert(w.take(4) == riff());
    assert(w.subrange(4, 8) == le_bytes((4 + pre.len() + 8 + audio.len()) as int));
    assert(forall|i: int| 0 <= i < 4 ==> w.subrange(4, 8)[i] == #[trigger] w[4 + i]);
    assert(w[4] == w.subrange(4, 8)[0] && w[5] == w.subrange(4, 8)[1] && w[6] == w.subrange(4, 8)[2] && w[7] == w.subrange(4, 8)[3]);
    assert(w.subrange(8, 12) == wave());
    assert(w.subrange(12, p) == pre);
    assert(w.skip(p).take(4) == data());
    let size = w.subrange(p + 4, p + 8);
    assert(size == le_bytes(audio.len() as int));
    assert(w[p + 4] == size[0] && w[p + 5] == size[1] && w[p + 6] == size[2] && w[p + 7] == size[3]);
    assert(w.skip(p + 8) == audio);
}

/// A head is a WAV file whose preamble begins with what was read so far, and
/// reading its head again finds it short enough.
proof fn lemma_head_from(pre: Seq<u8>, f: AudioFormat, rest: Seq<u8>, max_secs: int)
    requires
        head_from(pre, f, rest, max_secs) is Some,
        0 <= max_secs,
        f.block_align > 0,
    ensures
        ({
            let head = head_from(pre, f, rest, max_secs)->0;
            let start = 12 + pre.len() as int;
            &&& 0x1_0000_0008 > head.len() >= start + 8
            &&& head.take(4) == riff()
            &&& head.subrange(8, 12) == wave()
            &&& le32(head, 4) == head.len() - 8
            &&& head.subrange(12, start) == pre
            &&& head_from(pre, f, head.skip(start), max_secs) is None
        }),
    decreases rest.len(),
{
    let head = head_from(pre, f, rest, max_secs)->0;
    let start = 12 + pre.len() as int;
    let size = le32(rest, 4);
    if rest.take(4) == data() {
        let cap = audio_cap(f, max_secs);
        assert(0 <= cap) by (nonlinear_arith)
            requires
                cap == (max_secs * f.byte_rate / (f.block_align as int)) * f.block_align,
                0 <= max_secs,
                f.block_align > 0,
        ;
        let audio = rest.subrange(8, 8 + cap);
        lemma_wav_file_sizes(pre, audio);
        let again = head.skip(start);
        assert(le32(again, 4) == le32(head, start + 4));
    } else {
        let len = 8 + padded(size);
        let chunk = rest.take(len);
        let next = format_after(f, chunk);
        lemma_head_from(pre + chunk, next, rest.skip(len), max_secs);
        let again = head.skip(start);
        assert(head.subrange(12, 12 + (pre + chunk).len() as int) == pre + chunk);
        assert(head.subrange(12, start) == (pre + chunk).take(pre.len() as int));
        assert((pre + chunk).take(pre.len() as int) == pre);
        assert(again.take(len) == (pre + chunk).skip(pre.len() as int));
        assert((pre + chunk).skip(pre.len() as int) == chunk);
        assert(again.take(4) == chunk.take(4));
        assert(rest.take(4) == chunk.take(4));
        assert(again[4] == chunk[4] && again[5] == chunk[5] && again[6] == chunk[6] && again[7] == chunk[7]);
        assert(le32(again, 4) == size);
        assert(again.skip(len) == head.skip(12 + (pre + chunk).len() as int));
    }
}

/// What [`head_of`] gives is a valid WAV file (it begins as one, and its RIFF
/// size is right) that is short enough: its own head is the file as it is.
pub proof fn lemma_head_is_valid_and_short(file: Seq<u8>, max_secs: int)
    requires
        0 <= max_secs,
        head_of(file, max_secs) is Some,
    ensures
        ({
            let head = head_of(file, max_secs)->0;
            &&& head.len() >= 20
            &&& head.take(4) == riff()
            &&& head.subrange(8, 12) == wave()
            &&& le32(head, 4) == head.len() - 8
            &&& head_of(head, max_secs) is None
        }),
{
    lemma_head_from(seq![], unknown_format(), file.skip(12), max_secs);
}

} // verus!
