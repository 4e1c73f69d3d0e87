//! How far a file has gone up.

use vstd::prelude::*;

use crate::text;
use crate::text::{lower, same};

verus! {

/// The bytes of a file that have gone up, as the window shows them.
#[derive(Debug)]
pub struct FileProgress {
    pub field: String,
    pub filename: String,
    pub sent: u64,
    pub total: u64,
    pub percent: u64,
}

/// The whole percents of `total` that `done` is, at most 100.
pub open spec fn percent_of(done: int, total: int) -> int {
    if total > 0 && done * 100 / total < 100 {
        done * 100 / total
    } else {
        100
    }
}

/// Watches the bytes of one part go by. The position that it reports is the one
/// in the whole file, so that the bar does not fall back at each new part.
pub struct ProgressMeter {
    field: String,
    filename: String,
    total: u64,
    done: u64,
    shown: Option<u64>,
}

/// The model of a [`ProgressMeter`].
pub struct MeterView {
    pub field: Seq<char>,
    pub filename: Seq<char>,
    /// The size of the file.
    pub total: u64,
    /// The position in the file.
    pub done: u64,
    /// The percentage that was last reported.
    pub shown: Option<u64>,
}

impl View for ProgressMeter {
    type V = MeterView;

    closed spec fn view(&self) -> MeterView {
        MeterView {
            field: self.field@,
            filename: self.filename@,
            total: self.total,
            done: self.done,
            shown: self.shown,
        }
    }
}

/// What becomes of a chunk of the file.
pub enum ChunkNext {
    /// The upload was cancelled: the stream breaks off.
    Cancelled,
    /// The chunk goes on; `report` is to be shown.
    Pass { report: Option<FileProgress> },
}

impl MeterView {
    /// The last report, if any, is the percentage at the current position.
    pub open spec fn wf(self) -> bool {
        self.shown matches Some(p) ==> p == percent_of(self.done as int, self.total as int)
    }

    /// The meter after `n` more bytes.
    pub open spec fn moved(self, n: u64) -> MeterView {
        let done = (self.done + n) as u64;
        MeterView {
            done,
            shown: Some(percent_of(done as int, self.total as int) as u64),
            ..self
        }
    }
}

impl MeterView {
    /// The meter after a chunk: `read` is its length, or `None` where reading it
    /// failed.
    pub open spec fn after(self, cancelled: bool, read: Option<u64>) -> MeterView {
        match read {
            Some(n) => if cancelled {
                self
            } else {
                self.moved(n)
            },
            None => self,
        }
    }
}

/// The meter, having been at `before`, reports that it is at `now`.
pub open spec fn is_due(before: MeterView, now: MeterView) -> bool {
    now.shown != before.shown
}

/// `p` reports the position of `m`.
pub open spec fn reports(p: FileProgress, m: MeterView) -> bool {
    &&& p.field@ == m.field
    &&& p.filename@ == m.filename
    &&& p.sent == m.done
    &&& p.total == m.total
    &&& Some(p.percent) == m.shown
}

/// The percentage does not fall as the position grows.
pub proof fn lemma_percent_grows(done: int, later: int, total: int)
    requires
        0 <= done <= later,
    ensures
        0 <= percent_of(done, total) <= percent_of(later, total) <= 100,
{
    if total > 0 {
        assert(0 <= done * 100 / total <= later * 100 / total) by (nonlinear_arith)
            requires
                0 <= done <= later,
                0 < total,
        ;
    }
}

impl ProgressMeter {
    /// A meter for the part of a file of `total` bytes that begins at `offset`.
    pub fn new(field: &str, filename: &str, offset: u64, total: u64) -> (r: ProgressMeter)
        ensures
            r@ == (MeterView { field: field@, filename: filename@, total, done: offset, shown: None }),
            r@.wf(),
    {
        ProgressMeter {
            field: field.to_owned(),
            filename: filename.to_owned(),
            total,
            done: offset,
            shown: None,
        }
    }

    /// Takes the next chunk: `read` is its length, or `None` where reading it
    /// failed. A report comes exactly when the percentage changed, and then it
    /// is higher than the one before.
    pub fn chunk(&mut self, cancelled: bool, read: Option<u64>) -> (r: ChunkNext)
        requires
            old(self)@.wf(),
            read matches Some(n) ==> old(self)@.done + n <= u64::MAX / 100,
        ensures
            final(self)@.wf(),
            final(self)@ == old(self)@.after(cancelled, read),
            r is Cancelled == cancelled,
            r matches ChunkNext::Pass { report } ==> {
                &&& report is Some == is_due(old(self)@, final(self)@)
                &&& report matches Some(p) ==> {
                    &&& reports(p, final(self)@)
                    &&& old(self)@.shown matches Some(q) ==> p.percent > q
                }
            },
    {
        if cancelled {
            return ChunkNext::Cancelled;
        }
        let n: u64 = match read {
            Some(n) => n,
            None => {
                return ChunkNext::Pass { report: None };
            },
        };
        let done: u64 = self.done + n;
        proof {
            lemma_percent_grows(self.done as int, done as int, self.total as int);
        }
        let percent: u64 = if self.total > 0 {
            let p: u64 = done * 100 / self.total;
            if p < 100 {
                p
            } else {
                100
            }
        } else {
            100
        };
        self.done = done;
        let changed: bool = match self.shown {
            Some(p) => p != percent,
            None => true,
        };
        if changed {
            self.shown = Some(percent);
            let report: FileProgress = FileProgress {
                field: self.field.clone(),
                filename: self.filename.clone(),
                sent: done,
                total: self.total,
                percent,
            };
            ChunkNext::Pass { report: Some(report) }
        } else {
            ChunkNext::Pass { report: None }
        }
    }
}

/// The media type of a file whose lowercase extension is `ext`.
pub open spec fn mime_text(ext: Seq<char>) -> Seq<char> {
    if ext == "wav"@ {
        "audio/wav"@
    } else if ext == "mp3"@ {
        "audio/mpeg"@
    } else if ext == "flac"@ {
        "audio/flac"@
    } else if ext == "zip"@ {
        "application/zip"@
    } else if ext == "mid"@ || ext == "midi"@ {
        "audio/midi"@
    } else if ext == "pdf"@ {
        "application/pdf"@
    } else if ext == "mp4"@ {
        "video/mp4"@
    } else if ext == "jpg"@ || ext == "jpeg"@ {
        "image/jpeg"@
    } else if ext == "png"@ {
        "image/png"@
    } else if ext == "webp"@ {
        "image/webp"@
    } else {
        "application/octet-stream"@
    }
}

/// The media type of a file whose lowercase extension is `ext`.
pub fn mime_of(ext: &str) -> (r: &'static str)
    ensures
        r@ == mime_text(ext@),
{
    if same(ext, "wav") {
        "audio/wav"
    } else if same(ext, "mp3") {
        "audio/mpeg"
    } else if same(ext, "flac") {
        "audio/flac"
    } else if same(ext, "zip") {
        "application/zip"
    } else if same(ext, "mid") || same(ext, "midi") {
        "audio/midi"
    } else if same(ext, "pdf") {
        "application/pdf"
    } else if same(ext, "mp4") {
        "video/mp4"
    } else if same(ext, "jpg") || same(ext, "jpeg") {
        "image/jpeg"
    } else if same(ext, "png") {
        "image/png"
    } else if same(ext, "webp") {
        "image/webp"
    } else {
        "application/octet-stream"
    }
}

/// The media type of a file with the extension `ext`, in capitals or not.
pub fn mime_for(ext: &str) -> (r: &'static str)
    ensures
        r@ == mime_text(text::lowercase(ext@)),
        vstd::utf8::is_ascii_chars(ext@) ==> r@ == mime_text(ext@.map_values(|c: char| text::ascii_small(c))),
{
    mime_of(lower(ext).as_str())
}

// ---------------------------------------------------------------------------
// Laws
// ---------------------------------------------------------------------------

/// The percentage is the whole percents that are done: the share of `total` that
/// it stands for is done, and that of one percent more is not. What is done, and
/// an empty file, counts as 100.
pub proof fn lemma_percentage_is_what_is_done(done: int, total: int)
    requires
        0 <= done,
    ensures
        0 < total && done < total ==> percent_of(done, total) * total <= 100 * done < (percent_of(done, total) + 1) * total,
        0 < total && done < total ==> 0 <= percent_of(done, total) < 100,
        done >= total || total <= 0 ==> percent_of(done, total) == 100,
{
    if 0 < total {
        let q = done * 100 / total;
        vstd::arithmetic::div_mod::lemma_fundamental_div_mod(done * 100, total);
        assert(q * total <= 100 * done < (q + 1) * total) by (nonlinear_arith)
            requires
                done * 100 == total * q + (done * 100) % total,
                0 <= (done * 100) % total < total,
        ;
        if done < total {
            assert(0 <= q < 100) by (nonlinear_arith)
                requires
                    q * total <= 100 * done,
                    100 * done < (q + 1) * total,
                    0 <= done < total,
            ;
        } else {
            assert(q >= 100) by (nonlinear_arith)
                requires
                    100 * done < (q + 1) * total,
                    done >= total,
                    total > 0,
            ;
        }
    }
}

/// The meter stands at the position in the whole file: `n` bytes move it by `n`,
/// and what was passed in two chunks counts as what was passed in one.
pub proof fn lemma_meter_stands_at_the_position(m: MeterView, n: u64, k: u64)
    requires
        m.done + n + k <= u64::MAX,
    ensures
        m.moved(n).done == m.done + n,
        m.moved(n).total == m.total && m.moved(n).field == m.field && m.moved(n).filename == m.filename,
        m.moved(n).shown == Some(percent_of(m.done + n, m.total as int) as u64),
        m.moved(n).moved(k) == m.moved((n + k) as u64),
{
}

/// A report shows the field, the name, the position, the size and the percentage.
pub proof fn lemma_report_shows_the_position(p: FileProgress, m: MeterView, n: u64)
    requires
        m.done + n <= u64::MAX,
        reports(p, m.moved(n)),
    ensures
        p.field@ == m.field,
        p.filename@ == m.filename,
        p.sent == m.done + n,
        p.total == m.total,
        p.percent == percent_of(m.done + n, m.total as int),
{
    lemma_percent_grows(0, m.done + n, m.total as int);
}

/// The media types of the files that are sent.
pub proof fn lemma_media_types(ext: Seq<char>)
    ensures
        mime_text("wav"@) == "audio/wav"@,
        mime_text("mp3"@) == "audio/mpeg"@,
        mime_text("flac"@) == "audio/flac"@,
        mime_text("zip"@) == "application/zip"@,
        mime_text("mid"@) == "audio/midi"@ && mime_text("midi"@) == "audio/midi"@,
        mime_text("pdf"@) == "application/pdf"@,
        mime_text("mp4"@) == "video/mp4"@,
        mime_text("jpg"@) == "image/jpeg"@ && mime_text("jpeg"@) == "image/jpeg"@,
        mime_text("png"@) == "image/png"@,
        mime_text("webp"@) == "image/webp"@,
        !(ext == "wav"@ || ext == "mp3"@ || ext == "flac"@ || ext == "zip"@ || ext == "mid"@ || ext == "midi"@ || ext == "pdf"@ || ext == "mp4"@ || ext
            == "jpg"@ || ext == "jpeg"@ || ext == "png"@ || ext == "webp"@) ==> mime_text(ext) == "application/octet-stream"@,
{
    reveal_strlit("wav");
    assert("wav"@.len() == 3);
    assert("wav"@[0] == 'w');
    assert("wav"@[1] == 'a');
    assert("wav"@[2] == 'v');
    reveal_strlit("mp3");
    assert("mp3"@.len() == 3);
    assert("mp3"@[0] == 'm');
    assert("mp3"@[1] == 'p');
    assert("mp3"@[2] == '3');
    reveal_strlit("flac");
    assert("flac"@.len() == 4);
    assert("flac"@[0] == 'f');
    assert("flac"@[1] == 'l');
    assert("flac"@[2] == 'a');
    reveal_strlit("zip");
    assert("zip"@.len() == 3);
    assert("zip"@[0] == 'z');
    assert("zip"@[1] == 'i');
    assert("zip"@[2] == 'p');
    reveal_strlit("mid");
    assert("mid"@.len() == 3);
    assert("mid"@[0] == 'm');
    assert("mid"@[1] == 'i');
    assert("mid"@[2] == 'd');
    reveal_strlit("midi");
    assert("midi"@.len() == 4);
    assert("midi"@[0] == 'm');
    assert("midi"@[1] == 'i');
    assert("midi"@[2] == 'd');
    reveal_strlit("pdf");
    assert("pdf"@.len() == 3);
    assert("pdf"@[0] == 'p');
    assert("pdf"@[1] == 'd');
    assert("pdf"@[2] == 'f');
    reveal_strlit("mp4");
    assert("mp4"@.len() == 3);
    assert("mp4"@[0] == 'm');
    assert("mp4"@[1] == 'p');
    assert("mp4"@[2] == '4');
    reveal_strlit("jpg");
    assert("jpg"@.len() == 3);
    assert("jpg"@[0] == 'j');
    assert("jpg"@[1] == 'p');
    assert("jpg"@[2] == 'g');
    reveal_strlit("jpeg");
    assert("jpeg"@.len() == 4);
    assert("jpeg"@[0] == 'j');
    assert("jpeg"@[1] == 'p');
    assert("jpeg"@[2] == 'e');
    reveal_strlit("png");
    assert("png"@.len() == 3);
    assert("png"@[0] == 'p');
    assert("png"@[1] == 'n');
    assert("png"@[2] == 'g');
    reveal_strlit("webp");
    assert("webp"@.len() == 4);
    assert("webp"@[0] == 'w');
    assert("webp"@[1] == 'e');
    assert("webp"@[2] == 'b');
}

/// Only bytes that are passed on move the meter: a chunk that could not be read, and
/// one that comes after the producer cancelled, leave it where it is.
pub proof fn lemma_only_passed_bytes_count(m: MeterView, n: u64)
    requires
        m.done + n <= u64::MAX,
    ensures
        m.after(false, Some(n)).done == m.done + n,
        m.after(false, Some(n)).shown is Some,
        m.after(false, Some(n)).total == m.total,
        m.after(true, Some(n)) == m,
        m.after(false, None) == m,
        m.after(true, None) == m,
{
}

/// A report is due for the first bytes, and then whenever the percentage is another
/// one than was last shown.
pub proof fn lemma_report_is_due(m: MeterView, n: u64)
    requires
        m.done + n <= u64::MAX / 100,
    ensures
        m.shown is None ==> is_due(m, m.after(false, Some(n))),
        m.shown matches Some(p) ==> (is_due(m, m.after(false, Some(n))) <==> p != percent_of(m.done + n, m.total as int)),
        !is_due(m, m),
{
    lemma_percent_grows(0, m.done + n, m.total as int);
}

} // verus!
