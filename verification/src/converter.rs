//! The conversion of the masters to MP3 by LAME: how it is called, and what is
//! reported of it.

use vstd::prelude::*;

use crate::draft;
use crate::text;
use crate::text::{cat, cat3, chars_of, text_of};

verus! {

/// A master to convert.
#[derive(Debug, Clone)]
pub struct MasterInput {
    pub path: String,
    /// The field of the form that takes the MP3.
    pub field: String,
    /// The file name of the MP3.
    pub out_name: String,
    pub label: String,
}

/// A converted master.
#[derive(Debug, Clone)]
pub struct ConvertedFile {
    pub source: String,
    pub path: String,
    pub field: String,
    pub out_name: String,
    pub label: String,
    pub size: u64,
    pub ok: bool,
    pub error: Option<String>,
}

/// A step of a conversion, as the window shows it.
#[derive(Debug, Clone)]
pub struct Progress {
    pub field: String,
    pub label: String,
    pub out_name: String,
    /// "start", "done" or "error".
    pub status: String,
    pub error: Option<String>,
}

/// What came of a run of LAME.
pub enum LameRun {
    /// The program is not there; the text says why.
    Unavailable { error: String },
    /// The program could not be run; the text says why.
    NotRun { error: String },
    /// The program ended.
    Ended { success: bool, stderr: Vec<u8> },
}

/// The arguments of LAME: a constant bit rate of 320 kbit/s, at the best quality.
pub open spec fn args_for(path: Seq<char>, out: Seq<char>) -> Seq<Seq<char>> {
    seq!["--cbr"@, "-b"@, "320"@, "-q"@, "0"@, path, out]
}

/// The arguments of LAME: a constant bit rate of 320 kbit/s, at the best quality.
pub fn lame_args(path: &str, out: &str) -> (r: Vec<String>)
    ensures
        draft::texts(r@) == args_for(path@, out@),
{
    let mut args: Vec<String> = Vec::new();
    args.push("--cbr".to_owned());
    args.push("-b".to_owned());
    args.push("320".to_owned());
    args.push("-q".to_owned());
    args.push("0".to_owned());
    args.push(path.to_owned());
    args.push(out.to_owned());
    args
}

// ---------------------------------------------------------------------------
// What LAME complained about
// ---------------------------------------------------------------------------

/// The text in `bytes`, with a mark in place of what is no UTF-8.
pub uninterp spec fn lossy_text(bytes: Seq<u8>) -> Seq<char>;

/// `String::from_utf8_lossy`. Bytes that are UTF-8 are read as they are.
#[verifier::external_body]
fn lossy(bytes: &[u8]) -> (r: String)
    ensures
        r@ == lossy_text(bytes@),
        vstd::utf8::valid_utf8(bytes@) ==> r@ == vstd::utf8::decode_utf8(bytes@),
{
    String::from_utf8_lossy(bytes).into_owned()
}

/// The index of the first line feed, or the length where there is none.
pub open spec fn first_break(s: Seq<char>) -> int
    decreases s.len(),
{
    if s.len() == 0 || s[0] == '\n' {
        0
    } else {
        1 + first_break(s.drop_first())
    }
}

/// A line without the carriage return that ends it.
pub open spec fn without_return(s: Seq<char>) -> Seq<char> {
    if s.len() > 0 && s.last() == '\r' {
        s.drop_last()
    } else {
        s
    }
}

/// The lines of a text. A line feed ends a line, together with a carriage return
/// before it.
pub open spec fn lines_of(s: Seq<char>) -> Seq<Seq<char>>
    decreases s.len(),
{
    let k = first_break(s);
    if s.len() == 0 {
        seq![]
    } else if 0 <= k < s.len() {
        seq![without_return(s.take(k))] + lines_of(s.skip(k + 1))
    } else {
        seq![s]
    }
}

/// The lines of a text.
pub fn lines(s: &str) -> (r: Vec<String>)
    ensures
        draft::texts(r@) == lines_of(s@),
{
    let all: Vec<char> = chars_of(s);
    let mut out: Vec<String> = Vec::new();
    let mut start: usize = 0;
    let mut i: usize = 0;
    assert(all@.skip(0) == all@);
    assert(draft::texts(out@) == Seq::<Seq<char>>::empty());
    while i < all.len()
        invariant
            start <= i <= all@.len(),
            draft::texts(out@) + lines_of(all@.skip(start as int)) == lines_of(all@),
            first_break(all@.skip(start as int)) == i - start + first_break(all@.skip(i as int)),
        decreases all@.len() - i,
    {
        let ghost rest = all@.skip(start as int);
        let ghost before = out@;
        proof {
            assert(all@.skip(i as int).drop_first() == all@.skip(i + 1));
        }
        if all[i] == '\n' {
            let end: usize = if i > start && all[i - 1] == '\r' {
                i - 1
            } else {
                i
            };
            out.push(text_of(&all, start, end));
            proof {
                let line = without_return(rest.take(i - start));
                assert(all@.subrange(start as int, end as int) == line);
                assert(rest.skip(i - start + 1) == all@.skip(i + 1));
                assert(lines_of(rest) == seq![line] + lines_of(all@.skip(i + 1)));
                assert(draft::texts(out@) == draft::texts(before).push(line));
                assert(draft::texts(out@) + lines_of(all@.skip(i + 1)) == draft::texts(before) + lines_of(rest));
            }
            start = i + 1;
        }
        i += 1;
    }
    let ghost rest = all@.skip(start as int);
    if start < all.len() {
        let ghost before = out@;
        out.push(text_of(&all, start, all.len()));
        proof {
            assert(all@.subrange(start as int, all@.len() as int) == rest);
            assert(lines_of(rest) == seq![rest]);
            assert(draft::texts(out@) == draft::texts(before) + seq![rest]);
        }
    }
    out
}

/// The last three lines, the last one first.
pub open spec fn tail_of(lines: Seq<Seq<char>>) -> Seq<char> {
    let n = lines.len();
    if n == 0 {
        seq![]
    } else if n == 1 {
        lines[0]
    } else if n == 2 {
        lines[1] + " | "@ + lines[0]
    } else {
        lines[n - 1] + " | "@ + lines[n - 2] + " | "@ + lines[n - 3]
    }
}

/// The last three lines of a text, the last one first.
pub fn tail_lines(s: &str) -> (r: String)
    ensures
        r@ == tail_of(lines_of(s@)),
{
    let all: Vec<String> = lines(s);
    let n: usize = all.len();
    let ghost t = draft::texts(all@);
    if n == 0 {
        String::new()
    } else if n == 1 {
        assert(t[0] == all@[0]@);
        all[0].clone()
    } else if n == 2 {
        assert(t[0] == all@[0]@ && t[1] == all@[1]@);
        cat3(all[1].as_str(), " | ", all[0].as_str())
    } else {
        assert(t[n - 1] == all@[n - 1]@ && t[n - 2] == all@[n - 2]@ && t[n - 3] == all@[n - 3]@);
        let last: String = cat3(all[n - 1].as_str(), " | ", all[n - 2].as_str());
        cat3(last.as_str(), " | ", all[n - 3].as_str())
    }
}

/// Why a run of LAME failed, if it did.
pub open spec fn lame_error(run: LameRun) -> Option<Seq<char>> {
    match run {
        LameRun::Unavailable { error } => Some("LAME sidecar indisponível: "@ + error@),
        LameRun::NotRun { error } => Some("Falha ao executar LAME: "@ + error@),
        LameRun::Ended { success, stderr } => if success {
            None
        } else {
            Some("LAME falhou: "@ + tail_of(lines_of(lossy_text(stderr@))))
        },
    }
}

/// Judges a run of LAME.
pub fn lame_result(run: LameRun) -> (r: Result<(), String>)
    ensures
        r is Ok <==> lame_error(run) is None,
        r matches Err(e) ==> lame_error(run) == Some(e@),
{
    match run {
        LameRun::Unavailable { error } => Err(cat("LAME sidecar indisponível: ", error.as_str())),
        LameRun::NotRun { error } => Err(cat("Falha ao executar LAME: ", error.as_str())),
        LameRun::Ended { success, stderr } => if success {
            Ok(())
        } else {
            let text: String = lossy(stderr.as_slice());
            Err(cat("LAME falhou: ", tail_lines(text.as_str()).as_str()))
        },
    }
}

// ---------------------------------------------------------------------------
// What is reported
// ---------------------------------------------------------------------------

/// The text of an optional string.
pub open spec fn text_option(s: Option<String>) -> Option<Seq<char>> {
    match s {
        Some(t) => Some(t@),
        None => None,
    }
}

impl Progress {
    /// The step is of the conversion of `m`.
    pub open spec fn is_of(&self, m: MasterInput, status: Seq<char>, error: Option<Seq<char>>) -> bool {
        &&& self.field@ == m.field@
        &&& self.label@ == m.label@
        &&& self.out_name@ == m.out_name@
        &&& self.status@ == status
        &&& text_option(self.error) == error
    }

    /// The conversion of `m` begins.
    pub fn start(m: &MasterInput) -> (r: Progress)
        ensures
            r.is_of(*m, "start"@, None),
    {
        Progress {
            field: m.field.clone(),
            label: m.label.clone(),
            out_name: m.out_name.clone(),
            status: "start".to_owned(),
            error: None,
        }
    }

    /// The conversion of `m` ended with `result`.
    pub fn end(m: &MasterInput, result: &Result<(), String>) -> (r: Progress)
        ensures
            *result matches Ok(_) ==> r.is_of(*m, "done"@, None),
            *result matches Err(e) ==> r.is_of(*m, "error"@, Some(e@)),
    {
        let (status, error): (String, Option<String>) = match result {
            Ok(_) => ("done".to_owned(), None),
            Err(e) => ("error".to_owned(), Some(e.clone())),
        };
        Progress { field: m.field.clone(), label: m.label.clone(), out_name: m.out_name.clone(), status, error }
    }
}

impl ConvertedFile {
    /// The file is what became of `m`.
    pub open spec fn is_of(&self, m: MasterInput, path: Seq<char>, size: u64, error: Option<Seq<char>>) -> bool {
        &&& self.source@ == m.path@
        &&& self.path@ == path
        &&& self.field@ == m.field@
        &&& self.out_name@ == m.out_name@
        &&& self.label@ == m.label@
        &&& self.size == size
        &&& self.ok == (error is None)
        &&& text_option(self.error) == error
    }

    /// The conversion of `m` to `path` ended with `result`; `size` is the length
    /// of the file that LAME wrote.
    pub fn of(m: MasterInput, path: String, size: u64, result: Result<(), String>) -> (r: ConvertedFile)
        ensures
            result matches Ok(_) ==> r.is_of(m, path@, size, None),
            result matches Err(e) ==> r.is_of(m, path@, 0, Some(e@)),
    {
        let (size, error): (u64, Option<String>) = match result {
            Ok(_) => (size, None),
            Err(e) => (0, Some(e)),
        };
        ConvertedFile {
            source: m.path,
            path,
            field: m.field,
            out_name: m.out_name,
            label: m.label,
            size,
            ok: error.is_none(),
            error,
        }
    }
}

// ---------------------------------------------------------------------------
// Laws
// ---------------------------------------------------------------------------

/// No line feed in `s`.
pub open spec fn is_one_line(s: Seq<char>) -> bool {
    forall|i: int| 0 <= i < s.len() ==> s[i] as int != 10
}

/// A line feed ends a line, and a carriage return before it belongs to it; what
/// follows is read in the same way. A text without a line feed is one line, and an
/// empty one none.
pub proof fn lemma_line_feed_ends_a_line(line: Seq<char>, rest: Seq<char>)
    requires
        is_one_line(line),
    ensures
        lines_of(line + seq!['\n'] + rest)[0] == if line.len() > 0 && line.last() as int == 13 {
            line.take(line.len() - 1)
        } else {
            line
        },
        lines_of(line + seq!['\n'] + rest).skip(1) == lines_of(rest),
        line.len() > 0 ==> lines_of(line) == seq![line],
        lines_of(Seq::empty()).len() == 0,
{
    let all = line + seq!['\n'] + rest;
    lemma_first_break_ends_line(line, seq!['\n'] + rest);
    assert(all == line + (seq!['\n'] + rest));
    assert(all.take(line.len() as int) == line);
    assert(all.skip(line.len() as int + 1) == rest);
    assert(lines_of(all) == seq![without_return(line)] + lines_of(rest));
    assert(lines_of(all).skip(1) == lines_of(rest));
    lemma_first_break_ends_line(line, Seq::empty());
    assert(line + Seq::<char>::empty() == line);
}

proof fn lemma_first_break_ends_line(line: Seq<char>, rest: Seq<char>)
    requires
        is_one_line(line),
        rest.len() > 0 ==> rest[0] == '\n',
    ensures
        first_break(line + rest) == line.len(),
    decreases line.len(),
{
    let all = line + rest;
    if line.len() == 0 {
        assert(all == rest);
    } else {
        assert(all[0] == line[0]);
        assert(all.drop_first() == line.drop_first() + rest);
        lemma_first_break_ends_line(line.drop_first(), rest);
    }
}

/// Of what LAME said, the last three lines are shown, the last one first; earlier
/// lines do not matter.
pub proof fn lemma_last_three_lines_are_shown(lines: Seq<Seq<char>>, a: Seq<char>, b: Seq<char>, c: Seq<char>)
    ensures
        tail_of(lines + seq![a, b, c]) == c + " | "@ + b + " | "@ + a,
        tail_of(seq![a, b]) == b + " | "@ + a,
        tail_of(seq![a]) == a,
        tail_of(Seq::empty()).len() == 0,
{
    let all = lines + seq![a, b, c];
    let n = all.len();
    assert(all[n - 1] == c && all[n - 2] == b && all[n - 3] == a);
}

/// A run of LAME failed exactly where it could not be started or ended badly, and
/// the message says which.
pub proof fn lemma_failed_runs(run: LameRun)
    ensures
        lame_error(run) is None <==> (run matches LameRun::Ended { success, .. } && success),
        run matches LameRun::Unavailable { error } ==> lame_error(run) == Some("LAME sidecar indisponível: "@ + error@),
        run matches LameRun::NotRun { error } ==> lame_error(run) == Some("Falha ao executar LAME: "@ + error@),
        run matches LameRun::Ended { success, stderr } ==> !success ==> lame_error(run) == Some(
            "LAME falhou: "@ + tail_of(lines_of(lossy_text(stderr@))),
        ),
{
}

/// A report speaks of its own master: its names are kept apart, and a converted
/// file is ok exactly where there is no error.
pub proof fn lemma_reports_speak_of_their_master(f: ConvertedFile, p: Progress, m: MasterInput, path: Seq<char>, size: u64, status: Seq<char>, error: Option<Seq<char>>)
    ensures
        f.is_of(m, path, size, error) ==> {
            &&& f.source@ == m.path@ && f.path@ == path && f.field@ == m.field@ && f.out_name@ == m.out_name@ && f.label@ == m.label@
            &&& f.size == size
            &&& f.ok <==> f.error is None
            &&& f.error matches Some(e) ==> error == Some(e@)
            &&& f.error is None ==> error is None
        },
        p.is_of(m, status, error) ==> {
            &&& p.field@ == m.field@ && p.label@ == m.label@ && p.out_name@ == m.out_name@ && p.status@ == status
            &&& p.error matches Some(e) ==> error == Some(e@)
            &&& p.error is None ==> error is None
        },
{
}

/// LAME reads the source and writes the target, whatever their names: its last two
/// arguments. The others do not depend on them.
pub proof fn lemma_lame_is_given_source_and_target(path: Seq<char>, out: Seq<char>)
    ensures
        args_for(path, out).len() == 7,
        args_for(path, out).take(5) == seq!["--cbr"@, "-b"@, "320"@, "-q"@, "0"@],
        args_for(path, out)[5] == path,
        args_for(path, out)[6] == out,
{
}

} // verus!
