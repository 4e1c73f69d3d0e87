//! The scan of an export folder.
//!
//! A driver lists the folder (asking [`root_of`], [`enters`] and [`unpacks`] what
//! to read) into a tree of [`Entry`]. [`scan`] walks the tree, classifies every
//! file, and puts the files in order. Names are judged in lowercase.

use vstd::prelude::*;

use crate::classify;
use crate::classify::{classify, ext_of, Classification};
use crate::text;
use crate::text::{cat, chars_of, contains, ends_with, lower, precedes, same, starts_with, text_of};

verus! {

/// How deep below the scanned folder files are looked for.
pub const MAX_DEPTH: usize = 5;

/// A WAV file that was taken out of an archive of stems.
pub struct ZippedWav {
    pub filename: String,
    pub path: String,
    pub size: u64,
}

/// What lies in a folder. [`Entry::dir`] and [`Entry::file`] make one of a name.
pub enum Entry {
    /// A folder. One that was not read counts as empty.
    Dir(FolderEntry),
    File(FileEntry),
}

/// A folder, with its name in lowercase.
pub struct FolderEntry {
    name_lower: String,
    entries: Vec<Entry>,
}

/// The model of a [`FolderEntry`].
#[verifier::ext_equal]
pub struct FolderView {
    pub name_lower: Seq<char>,
    pub entries: Seq<Entry>,
}

impl View for FolderEntry {
    type V = FolderView;

    closed spec fn view(&self) -> FolderView {
        FolderView { name_lower: self.name_lower@, entries: self.entries@ }
    }
}

/// A file, with its name and its extension in lowercase, and the WAV files that
/// were taken out of it.
pub struct FileEntry {
    name: String,
    name_lower: String,
    ext: String,
    path: String,
    size: u64,
    wavs: Vec<ZippedWav>,
}

/// The model of a [`FileEntry`].
#[verifier::ext_equal]
pub struct FileView {
    pub name: Seq<char>,
    pub name_lower: Seq<char>,
    pub ext: Seq<char>,
    pub path: Seq<char>,
    pub size: u64,
    pub wavs: Seq<ZippedWav>,
}

impl View for FileEntry {
    type V = FileView;

    closed spec fn view(&self) -> FileView {
        FileView {
            name: self.name@,
            name_lower: self.name_lower@,
            ext: self.ext@,
            path: self.path@,
            size: self.size,
            wavs: self.wavs@,
        }
    }
}

impl FileView {
    /// The lowercase name and the extension are those of the name.
    pub open spec fn wf(self) -> bool {
        &&& is_lower_of(self.name_lower, self.name)
        &&& classify::is_file_name(self.name) ==> classify::is_ext_of(self.ext, self.name)
    }
}

impl FileEntry {
    #[verifier::type_invariant]
    closed spec fn inv(&self) -> bool {
        self@.wf()
    }
}

/// A classified file.
#[derive(Debug, Clone)]
pub struct ScannedFile {
    pub filename: String,
    pub path: String,
    pub ext: String,
    pub size: u64,
    pub category: String,
    pub label: String,
    pub role: String,
    /// The field of the upload form; `None` for what is not uploaded.
    pub upload_field: Option<String>,
    pub is_master: bool,
}

/// The model of a [`ScannedFile`].
#[verifier::ext_equal]
pub struct ScannedView {
    pub filename: Seq<char>,
    pub path: Seq<char>,
    pub ext: Seq<char>,
    pub size: u64,
    pub category: Seq<char>,
    pub label: Seq<char>,
    pub role: Seq<char>,
    pub upload_field: Option<Seq<char>>,
    pub is_master: bool,
}

impl View for ScannedFile {
    type V = ScannedView;

    open spec fn view(&self) -> ScannedView {
        ScannedView {
            filename: self.filename@,
            path: self.path@,
            ext: self.ext@,
            size: self.size,
            category: self.category@,
            label: self.label@,
            role: self.role@,
            upload_field: match self.upload_field {
                Some(f) => Some(f@),
                None => None,
            },
            is_master: self.is_master,
        }
    }
}

/// The models of some files.
pub open spec fn views(files: Seq<ScannedFile>) -> Seq<ScannedView> {
    files.map_values(|f: ScannedFile| f@)
}

/// The result of a scan.
#[derive(Debug)]
pub struct ScanResult {
    pub folder: String,
    pub files: Vec<ScannedFile>,
    pub undefined_count: usize,
    pub has_extended_master: bool,
}

/// What the path that is to be scanned is.
pub enum Place {
    /// There is nothing.
    Missing,
    /// It is a folder.
    Folder,
    /// It is something else, in this folder.
    InFolder { parent: String },
    /// It is something else, and the folder it is in cannot be told.
    Elsewhere,
}

// ---------------------------------------------------------------------------
// The rules
// ---------------------------------------------------------------------------

/// A hidden name begins with a dot.
pub open spec fn is_hidden(name_lower: Seq<char>) -> bool {
    text::begins(name_lower, "."@)
}

/// What lies in a folder or an archive of this name is a stem, and so is all that
/// lies below a folder of stems.
pub open spec fn holds_stems(name_lower: Seq<char>, in_stems: bool) -> bool {
    in_stems || text::has(name_lower, "stem"@)
}

/// A folder of this name, `depth` levels below the scanned one, is read.
pub open spec fn is_entered(name_lower: Seq<char>, depth: nat) -> bool {
    !is_hidden(name_lower) && depth <= MAX_DEPTH
}

/// The WAV files in an archive of this name are looked at too.
pub open spec fn is_unpacked(name_lower: Seq<char>, ext: Seq<char>, in_stems: bool) -> bool {
    ext == "zip"@ && holds_stems(name_lower, in_stems)
}

/// The WAV files in an archive that stands in a folder are looked at: those of a
/// hidden one are not.
pub open spec fn is_looked_into(name_lower: Seq<char>, ext: Seq<char>, in_stems: bool) -> bool {
    !is_hidden(name_lower) && is_unpacked(name_lower, ext, in_stems)
}

/// A file with its classification.
pub open spec fn scanned(file: FileView, c: Classification) -> ScannedView {
    ScannedView {
        filename: file.name,
        path: file.path,
        ext: file.ext,
        size: file.size,
        category: c.category@,
        label: c.label@,
        role: c.role@,
        upload_field: match c.upload_field {
            Some(f) => Some(f@),
            None => None,
        },
        is_master: c.is_master,
    }
}

/// A WAV file out of an archive of stems: looked at, never uploaded.
pub open spec fn zipped(w: ZippedWav) -> ScannedView {
    ScannedView {
        filename: w.filename@,
        path: w.path@,
        ext: "wav"@,
        size: w.size,
        category: "stems"@,
        label: "Stem (from zip)"@,
        role: "skip"@,
        upload_field: None,
        is_master: false,
    }
}

/// The files that a scan finds in `entries`, in the order of the tree. Hidden
/// files and folders are passed over, and so is what lies too deep.
pub open spec fn found(entries: Seq<Entry>, in_stems: bool, depth: nat) -> Seq<ScannedView>
    decreases MAX_DEPTH + 1 - depth, entries.len(),
{
    if depth > MAX_DEPTH || entries.len() == 0 {
        seq![]
    } else {
        found(entries.drop_last(), in_stems, depth) + match entries.last() {
            Entry::Dir(dir) => if is_hidden(dir@.name_lower) {
                seq![]
            } else {
                found(dir@.entries, holds_stems(dir@.name_lower, in_stems), depth + 1)
            },
            Entry::File(file) => if is_hidden(file@.name_lower) {
                seq![]
            } else {
                seq![scanned(file@, classify::class_of(file@.name_lower, file@.ext, in_stems))]
                    + if is_unpacked(file@.name_lower, file@.ext, in_stems) {
                    file@.wavs.map_values(|w: ZippedWav| zipped(w))
                } else {
                    seq![]
                }
            },
        }
    }
}

/// A file that was not identified.
pub open spec fn is_undefined(f: ScannedView) -> bool {
    f.category == "undefined"@
}

/// `a` stands strictly before `b`: identified files first, then by category, then
/// by file name.
pub open spec fn comes_before(a: ScannedView, b: ScannedView) -> bool {
    if is_undefined(a) != is_undefined(b) {
        is_undefined(b)
    } else if a.category != b.category {
        text::before(a.category, b.category)
    } else {
        text::before(a.filename, b.filename)
    }
}

/// `p` names every index below `n` once.
pub open spec fn is_order_of(p: Seq<int>, n: nat) -> bool {
    &&& p.len() == n
    &&& forall|i: int| 0 <= i < n ==> 0 <= #[trigger] p[i] < n
    &&& forall|i: int, j: int| 0 <= i < j < n ==> p[i] != p[j]
}

/// `sorted` is `files` in order, through `p`: no file stands behind one that it
/// comes before, and files that are equal in order keep their places.
pub open spec fn sorted_by(files: Seq<ScannedView>, sorted: Seq<ScannedView>, p: Seq<int>) -> bool {
    &&& is_order_of(p, files.len())
    &&& sorted.len() == files.len()
    &&& forall|i: int| 0 <= i < sorted.len() ==> #[trigger] sorted[i] == files[p[i]]
    &&& forall|i: int, j: int| 0 <= i < j < sorted.len() ==> !comes_before(#[trigger] sorted[j], #[trigger] sorted[i])
    &&& forall|i: int, j: int|
        0 <= i < j < sorted.len() && !comes_before(sorted[i], sorted[j]) ==> #[trigger] p[i] < #[trigger] p[j]
}

/// `sorted` is `files`, stably sorted.
pub open spec fn is_sorted_of(files: Seq<ScannedView>, sorted: Seq<ScannedView>) -> bool {
    exists|p: Seq<int>| sorted_by(files, sorted, p)
}

/// How many of the files are not identified.
pub open spec fn undefined_among(files: Seq<ScannedView>) -> nat
    decreases files.len(),
{
    if files.len() == 0 {
        0
    } else {
        undefined_among(files.drop_last()) + if is_undefined(files.last()) {
            1nat
        } else {
            0nat
        }
    }
}

/// One of the files is the Extended master.
pub open spec fn extended_master_among(files: Seq<ScannedView>) -> bool {
    exists|i: int| 0 <= i < files.len() && (#[trigger] files[i]).category == "extended_mix"@
}

// ---------------------------------------------------------------------------
// The order of texts and files
// ---------------------------------------------------------------------------

/// `before` is a strict total order of texts.
pub proof fn lemma_before_is_total(a: Seq<char>, b: Seq<char>)
    ensures
        !(text::before(a, b) && text::before(b, a)),
        !text::before(a, a),
        text::before(a, b) || text::before(b, a) || a == b,
    decreases a.len(),
{
    if a.len() > 0 && b.len() > 0 {
        lemma_before_is_total(a.drop_first(), b.drop_first());
        if a[0] == b[0] && a.drop_first() == b.drop_first() {
            assert(a == seq![a[0]] + a.drop_first());
            assert(b == seq![b[0]] + b.drop_first());
        }
    } else if a.len() > 0 {
        lemma_before_is_total(a.drop_first(), a.drop_first());
    } else if b.len() == 0 {
        assert(a == b);
    }
}

/// What lies between two texts is behind the first or before the second.
proof fn lemma_before_splits(a: Seq<char>, b: Seq<char>, c: Seq<char>)
    requires
        text::before(a, c),
    ensures
        text::before(a, b) || text::before(b, c),
    decreases a.len(),
{
    if a.len() > 0 && b.len() > 0 && a[0] == b[0] && b[0] == c[0] {
        lemma_before_splits(a.drop_first(), b.drop_first(), c.drop_first());
    }
}

/// Of two files at most one comes before the other.
proof fn lemma_order_is_strict(a: ScannedView, b: ScannedView)
    ensures
        !(comes_before(a, b) && comes_before(b, a)),
        !comes_before(a, a),
{
    lemma_before_is_total(a.category, b.category);
    lemma_before_is_total(a.filename, b.filename);
}

/// What lies between two files is behind the first or before the second.
proof fn lemma_order_splits(a: ScannedView, b: ScannedView, c: ScannedView)
    requires
        comes_before(a, c),
    ensures
        comes_before(a, b) || comes_before(b, c),
{
    lemma_before_is_total(a.category, b.category);
    lemma_before_is_total(b.category, c.category);
    if a.category == c.category {
        lemma_before_splits(a.filename, b.filename, c.filename);
    } else if is_undefined(a) == is_undefined(c) {
        lemma_before_splits(a.category, b.category, c.category);
    }
}

/// The order of `files` with one more file in front, which was put at `pos` of
/// the sorted files.
spec fn order_with(p: Seq<int>, pos: int) -> Seq<int> {
    p.map_values(|i: int| i + 1).insert(pos, 0)
}

proof fn lemma_sorted_with(files: Seq<ScannedView>, sorted: Seq<ScannedView>, p: Seq<int>, f: ScannedView, pos: int)
    requires
        sorted_by(files, sorted, p),
        0 <= pos <= sorted.len(),
        forall|i: int| 0 <= i < pos ==> comes_before(#[trigger] sorted[i], f),
        forall|i: int| pos <= i < sorted.len() ==> !comes_before(#[trigger] sorted[i], f),
    ensures
        sorted_by(seq![f] + files, sorted.insert(pos, f), order_with(p, pos)),
{
    let all = seq![f] + files;
    let s = sorted.insert(pos, f);
    let q = order_with(p, pos);
    assert forall|i: int, j: int| 0 <= i < j < s.len() implies !comes_before(#[trigger] s[j], #[trigger] s[i]) by {
        if j == pos {
            lemma_order_is_strict(sorted[i], f);
        }
    }
    assert forall|i: int, j: int|
        0 <= i < j < s.len() && !comes_before(s[i], s[j]) implies #[trigger] q[i] < #[trigger] q[j] by {
        if i < pos && j > pos {
            assert(s[i] == sorted[i] && s[j] == sorted[j - 1]);
            assert(p[i] < p[j - 1]);
        } else if i > pos {
            assert(s[i] == sorted[i - 1] && s[j] == sorted[j - 1]);
            assert(p[i - 1] < p[j - 1]);
        } else if j < pos {
            assert(s[i] == sorted[i] && s[j] == sorted[j]);
            assert(p[i] < p[j]);
        } else if i == pos {
            assert(0 <= p[j - 1]);
        }
    }
}

// ---------------------------------------------------------------------------
// Sorting
// ---------------------------------------------------------------------------

/// Whether a file was not identified.
fn undefined(f: &ScannedFile) -> (r: bool)
    ensures
        r == is_undefined(f@),
{
    same(f.category.as_str(), "undefined")
}

/// Whether `a` stands strictly before `b`.
fn goes_before(a: &ScannedFile, b: &ScannedFile) -> (r: bool)
    ensures
        r == comes_before(a@, b@),
{
    let a_undefined: bool = undefined(a);
    let b_undefined: bool = undefined(b);
    if a_undefined != b_undefined {
        b_undefined
    } else if !same(a.category.as_str(), b.category.as_str()) {
        precedes(a.category.as_str(), b.category.as_str())
    } else {
        precedes(a.filename.as_str(), b.filename.as_str())
    }
}

/// The place for `f` in sorted files: behind those that come before it.
fn place_of(sorted: &Vec<ScannedFile>, f: &ScannedFile) -> (pos: usize)
    requires
        forall|i: int, j: int| 0 <= i < j < sorted@.len() ==> !comes_before(#[trigger] sorted@[j]@, #[trigger] sorted@[i]@),
    ensures
        pos <= sorted@.len(),
        forall|i: int| 0 <= i < pos ==> comes_before(#[trigger] sorted@[i]@, f@),
        forall|i: int| pos <= i < sorted@.len() ==> !comes_before(#[trigger] sorted@[i]@, f@),
{
    let mut lo: usize = 0;
    let mut hi: usize = sorted.len();
    while lo < hi
        invariant
            lo <= hi <= sorted@.len(),
            forall|i: int, j: int| 0 <= i < j < sorted@.len() ==> !comes_before(#[trigger] sorted@[j]@, #[trigger] sorted@[i]@),
            forall|i: int| 0 <= i < lo ==> comes_before(#[trigger] sorted@[i]@, f@),
            forall|i: int| hi <= i < sorted@.len() ==> !comes_before(#[trigger] sorted@[i]@, f@),
        decreases hi - lo,
    {
        let mid: usize = lo + (hi - lo) / 2;
        if goes_before(&sorted[mid], f) {
            assert forall|i: int| 0 <= i < mid + 1 implies comes_before(#[trigger] sorted@[i]@, f@) by {
                lemma_order_splits(sorted@[mid as int]@, sorted@[i]@, f@);
            }
            lo = mid + 1;
        } else {
            assert forall|i: int| mid <= i < sorted@.len() implies !comes_before(#[trigger] sorted@[i]@, f@) by {
                if comes_before(sorted@[i]@, f@) {
                    lemma_order_splits(sorted@[i]@, sorted@[mid as int]@, f@);
                }
            }
            hi = mid;
        }
    }
    lo
}

/// Sorts the files: identified ones first, by category and file name.
pub fn sort_files(files: Vec<ScannedFile>) -> (r: Vec<ScannedFile>)
    ensures
        is_sorted_of(views(files@), views(r@)),
        views(r@).to_multiset() == views(files@).to_multiset(),
{
    let ghost all = views(files@);
    let ghost mut p: Seq<int> = seq![];
    let mut rest: Vec<ScannedFile> = files;
    let mut sorted: Vec<ScannedFile> = Vec::new();
    proof {
        assert(all.skip(all.len() as int) == Seq::<ScannedView>::empty());
        assert(views(sorted@) == Seq::<ScannedView>::empty());
    }
    while rest.len() > 0
        invariant
            rest@.len() <= all.len(),
            views(rest@) == all.take(rest@.len() as int),
            sorted_by(all.skip(rest@.len() as int), views(sorted@), p),
            views(sorted@).to_multiset() == all.skip(rest@.len() as int).to_multiset(),
        decreases rest@.len(),
    {
        let ghost before = rest@;
        let ghost done = views(sorted@);
        if let Some(f) = rest.pop() {
            proof {
                assert(views(before).last() == f@);
                assert(all[before.len() - 1] == f@);
                assert(views(rest@) == all.take(rest@.len() as int));
                assert forall|i: int, j: int| 0 <= i < j < sorted@.len() implies !comes_before(#[trigger] sorted@[j]@, #[trigger] sorted@[i]@) by {
                    assert(done[i] == sorted@[i]@ && done[j] == sorted@[j]@);
                }
            }
            let pos: usize = place_of(&sorted, &f);
            let ghost v = f@;
            sorted.insert(pos, f);
            proof {
                let tail = all.skip(before.len() as int);
                lemma_sorted_with(tail, done, p, v, pos as int);
                p = order_with(p, pos as int);
                assert(views(sorted@) == done.insert(pos as int, v));
                assert(all.skip(rest@.len() as int) == seq![v] + tail);
                assert(seq![v] + tail == tail.insert(0, v));
                broadcast use vstd::seq_lib::group_to_multiset_ensures;
            }
        }
    }
    assert(all.skip(0) == all);
    sorted
}

// ---------------------------------------------------------------------------
// Reading the folder
// ---------------------------------------------------------------------------

/// A character that separates folders.
pub open spec fn is_separator(c: char) -> bool {
    c == '/' || c == '\\'
}

/// The index of the first character behind the last separator of `name`.
pub open spec fn base_start(name: Seq<char>) -> int
    decreases name.len(),
{
    if name.len() == 0 {
        0
    } else if is_separator(name.last()) {
        name.len() as int
    } else {
        base_start(name.drop_last())
    }
}

/// The name behind the last separator: that of a file without its folders.
pub fn base_of(name: &str) -> (r: String)
    ensures
        r@ == name@.skip(base_start(name@)),
{
    let chars: Vec<char> = chars_of(name);
    let mut start: usize = chars.len();
    assert(chars@.take(start as int) == chars@);
    while start > 0 && chars[start - 1] != '/' && chars[start - 1] != '\\'
        invariant
            start <= chars@.len(),
            base_start(chars@.take(start as int)) == base_start(chars@),
        decreases start,
    {
        assert(chars@.take(start as int).drop_last() == chars@.take(start - 1));
        start -= 1;
    }
    text_of(&chars, start, chars.len())
}

/// The entry of an archive is a WAV file, by its name in lowercase.
pub open spec fn is_wav_entry(lowered: Seq<char>) -> bool {
    text::ends(lowered, ".wav"@)
}

/// The file name under which an entry of an archive is unpacked, its folders left
/// out; `None` where it is not a WAV file.
pub fn wav_base(entry_name: &str) -> (r: Option<String>)
    ensures
        r is Some == is_wav_entry(text::lowercase(entry_name@)),
        vstd::utf8::is_ascii_chars(entry_name@) ==> r is Some == is_wav_entry(
            entry_name@.map_values(|c: char| text::ascii_small(c)),
        ),
        r matches Some(base) ==> base@ == entry_name@.skip(base_start(entry_name@)),
{
    if ends_with(lower(entry_name).as_str(), ".wav") {
        Some(base_of(entry_name))
    } else {
        None
    }
}

/// `lowered` is `name` in lowercase.
pub open spec fn is_lower_of(lowered: Seq<char>, name: Seq<char>) -> bool {
    &&& lowered == text::lowercase(name)
    &&& vstd::utf8::is_ascii_chars(name) ==> lowered == name.map_values(|c: char| text::ascii_small(c))
}

/// A name in lowercase.
pub fn lower_name(name: &str) -> (r: String)
    ensures
        is_lower_of(r@, name@),
{
    lower(name)
}

/// Whether a folder of this name, `depth` levels below the scanned one, is read.
pub fn enters(name_lower: &str, depth: usize) -> (r: bool)
    ensures
        r == is_entered(name_lower@, depth as nat),
{
    depth <= MAX_DEPTH && !hidden(name_lower)
}

/// Whether what lies in a folder or an archive of this name is a stem.
pub fn stems_inside(name_lower: &str, in_stems_dir: bool) -> (r: bool)
    ensures
        r == holds_stems(name_lower@, in_stems_dir),
{
    in_stems_dir || contains(name_lower, "stem")
}

/// Whether the WAV files in an archive are looked at. Those of a hidden one are
/// not.
pub fn unpacks(name_lower: &str, ext: &str, in_stems_dir: bool) -> (r: bool)
    ensures
        r == is_looked_into(name_lower@, ext@, in_stems_dir),
{
    !hidden(name_lower) && same(ext, "zip") && stems_inside(name_lower, in_stems_dir)
}

fn hidden(name_lower: &str) -> (r: bool)
    ensures
        r == is_hidden(name_lower@),
{
    starts_with(name_lower, ".")
}

impl Entry {
    /// The folder `name`.
    pub fn dir(name: &str, entries: Vec<Entry>) -> (r: Entry)
        ensures
            r matches Entry::Dir(dir) && is_lower_of(dir@.name_lower, name@) && dir@.entries == entries@,
    {
        Entry::Dir(FolderEntry { name_lower: lower_name(name), entries })
    }

    /// The file `name`, its extension told by the name.
    pub fn file(name: String, path: String, size: u64, wavs: Vec<ZippedWav>) -> (r: Entry)
        ensures
            r matches Entry::File(file) && {
                &&& file@.wf()
                &&& file@.name == name@
                &&& file@.path == path@
                &&& file@.size == size
                &&& file@.wavs == wavs@
            },
    {
        let name_lower: String = lower_name(name.as_str());
        let ext: String = ext_of(name.as_str());
        Entry::File(FileEntry { name, name_lower, ext, path, size, wavs })
    }
}

/// A file with its classification.
fn scanned_file(file: &FileEntry, c: Classification) -> (r: ScannedFile)
    ensures
        r@ == scanned(file@, c),
{
    ScannedFile {
        filename: file.name.clone(),
        path: file.path.clone(),
        ext: file.ext.clone(),
        size: file.size,
        category: c.category.to_owned(),
        label: c.label.to_owned(),
        role: c.role.to_owned(),
        upload_field: match c.upload_field {
            Some(f) => Some(f.to_owned()),
            None => None,
        },
        is_master: c.is_master,
    }
}

/// A WAV file out of an archive of stems.
fn zipped_file(w: &ZippedWav) -> (r: ScannedFile)
    ensures
        r@ == zipped(*w),
{
    ScannedFile {
        filename: w.filename.clone(),
        path: w.path.clone(),
        ext: "wav".to_owned(),
        size: w.size,
        category: "stems".to_owned(),
        label: "Stem (from zip)".to_owned(),
        role: "skip".to_owned(),
        upload_field: None,
        is_master: false,
    }
}

/// Adds the WAV files out of an archive to `out`.
fn add_zipped(wavs: &Vec<ZippedWav>, out: &mut Vec<ScannedFile>)
    ensures
        views(final(out)@) == views(old(out)@) + wavs@.map_values(|w: ZippedWav| zipped(w)),
{
    let ghost start = views(out@);
    let mut i: usize = 0;
    while i < wavs.len()
        invariant
            i <= wavs@.len(),
            views(out@) == start + wavs@.take(i as int).map_values(|w: ZippedWav| zipped(w)),
        decreases wavs@.len() - i,
    {
        let ghost before = out@;
        out.push(zipped_file(&wavs[i]));
        proof {
            assert(views(out@) == views(before).push(zipped(wavs@[i as int])));
            assert(wavs@.take(i + 1).map_values(|w: ZippedWav| zipped(w)) == wavs@.take(i as int).map_values(
                |w: ZippedWav| zipped(w),
            ).push(zipped(wavs@[i as int])));
        }
        i += 1;
    }
    assert(wavs@.take(i as int) == wavs@);
}

/// Adds the files that lie in a folder, and in the folders below it, to `out`.
pub fn walk(entries: &Vec<Entry>, in_stems_dir: bool, depth: usize, out: &mut Vec<ScannedFile>)
    ensures
        views(final(out)@) == views(old(out)@) + found(entries@, in_stems_dir, depth as nat),
    decreases MAX_DEPTH + 1 - depth,
{
    if depth > MAX_DEPTH {
        return;
    }
    let ghost start = views(out@);
    let mut i: usize = 0;
    while i < entries.len()
        invariant
            i <= entries@.len(),
            depth <= MAX_DEPTH,
            views(out@) == start + found(entries@.take(i as int), in_stems_dir, depth as nat),
        decreases entries@.len() - i,
    {
        let ghost before = out@;
        let ghost upto = entries@.take(i + 1);
        assert(upto.drop_last() == entries@.take(i as int));
        match &entries[i] {
            Entry::Dir(dir) => {
                if !hidden(dir.name_lower.as_str()) {
                    walk(&dir.entries, stems_inside(dir.name_lower.as_str(), in_stems_dir), depth + 1, out);
                }
            },
            Entry::File(file) => {
                if !hidden(file.name_lower.as_str()) {
                    let c: Classification = classify(file.name_lower.as_str(), file.ext.as_str(), in_stems_dir);
                    out.push(scanned_file(file, c));
                    assert(views(out@) == views(before) + seq![scanned(file@, c)]);
                    if unpacks(file.name_lower.as_str(), file.ext.as_str(), in_stems_dir) {
                        add_zipped(&file.wavs, out);
                    }
                }
            },
        }
        assert(views(out@) == start + found(upto, in_stems_dir, depth as nat));
        i += 1;
    }
    assert(entries@.take(i as int) == entries@);
}

/// The folder that is scanned when `folder` is asked for: for a file, the one it
/// lies in.
pub open spec fn root_in(folder: Seq<char>, place: Place) -> Result<Seq<char>, Seq<char>> {
    match place {
        Place::Missing => Err("Folder not found: "@ + folder),
        Place::Folder => Ok(folder),
        Place::InFolder { parent } => Ok(parent@),
        Place::Elsewhere => Err("Path is not a folder: "@ + folder),
    }
}

/// The folder to scan, or why there is none.
pub fn root_of(folder: &str, place: &Place) -> (r: Result<String, String>)
    ensures
        r matches Ok(root) ==> root_in(folder@, *place) == Ok::<Seq<char>, Seq<char>>(root@),
        r matches Err(e) ==> root_in(folder@, *place) == Err::<Seq<char>, Seq<char>>(e@),
{
    match place {
        Place::Missing => Err(cat("Folder not found: ", folder)),
        Place::Folder => Ok(folder.to_owned()),
        Place::InFolder { parent } => Ok(parent.clone()),
        Place::Elsewhere => Err(cat("Path is not a folder: ", folder)),
    }
}

/// A path without the separators that it ends in.
pub open spec fn without_end(path: Seq<char>) -> Seq<char>
    decreases path.len(),
{
    if path.len() > 0 && is_separator(path.last()) {
        without_end(path.drop_last())
    } else {
        path
    }
}

/// The name of the folder at a path.
pub open spec fn folder_name(path: Seq<char>) -> Seq<char> {
    without_end(path).skip(base_start(without_end(path)))
}

/// The name of the folder at a path.
pub fn name_of_folder(path: &str) -> (r: String)
    ensures
        r@ == folder_name(path@),
{
    let chars: Vec<char> = chars_of(path);
    let mut end: usize = chars.len();
    assert(chars@.take(end as int) == chars@);
    while end > 0 && (chars[end - 1] == '/' || chars[end - 1] == '\\')
        invariant
            end <= chars@.len(),
            without_end(chars@.take(end as int)) == without_end(chars@),
        decreases end,
    {
        assert(chars@.take(end as int).drop_last() == chars@.take(end - 1));
        end -= 1;
    }
    assert(without_end(chars@) == chars@.take(end as int));
    let trimmed: String = text_of(&chars, 0, end);
    assert(trimmed@ == chars@.take(end as int));
    base_of(trimmed.as_str())
}

/// The scanned folder is itself a folder of stems.
pub open spec fn root_is_stems(root: Seq<char>) -> bool {
    holds_stems(text::lowercase(folder_name(root)), false)
}

/// `flag` tells whether the folder at `root` is a folder of stems. Of a name of
/// ASCII characters alone, its small letters decide.
pub open spec fn is_root_flag(flag: bool, root: Seq<char>) -> bool {
    &&& flag == root_is_stems(root)
    &&& vstd::utf8::is_ascii_chars(folder_name(root)) ==> flag == holds_stems(
        folder_name(root).map_values(|c: char| text::ascii_small(c)),
        false,
    )
}

/// Whether the scanned folder is itself a folder of stems.
pub fn root_in_stems(root: &str) -> (r: bool)
    ensures
        is_root_flag(r, root@),
{
    let name: String = name_of_folder(root);
    stems_inside(lower_name(name.as_str()).as_str(), false)
}

/// Scans the folder at `root`, in which `entries` lie; `in_stems_dir` tells
/// whether it is a folder of stems.
pub fn scan_entries(root: String, in_stems_dir: bool, entries: &Vec<Entry>) -> (r: ScanResult)
    ensures
        r.folder@ == root@,
        is_sorted_of(found(entries@, in_stems_dir, 0), views(r.files@)),
        views(r.files@).to_multiset() == found(entries@, in_stems_dir, 0).to_multiset(),
        r.undefined_count == undefined_among(views(r.files@)),
        r.has_extended_master == extended_master_among(views(r.files@)),
{
    let mut listed: Vec<ScannedFile> = Vec::new();
    walk(entries, in_stems_dir, 0, &mut listed);
    assert(views(Seq::<ScannedFile>::empty()) + found(entries@, in_stems_dir, 0) == found(entries@, in_stems_dir, 0));
    let files: Vec<ScannedFile> = sort_files(listed);
    let mut undefined_count: usize = 0;
    let mut has_extended_master: bool = false;
    let mut i: usize = 0;
    while i < files.len()
        invariant
            i <= files@.len(),
            undefined_count <= i,
            undefined_count == undefined_among(views(files@).take(i as int)),
            has_extended_master == extended_master_among(views(files@).take(i as int)),
        decreases files@.len() - i,
    {
        let ghost part = views(files@).take(i + 1);
        let ghost so_far = views(files@).take(i as int);
        proof {
            assert(part.drop_last() == so_far);
            assert(part.last() == files@[i as int]@);
        }
        if undefined(&files[i]) {
            undefined_count += 1;
        }
        if same(files[i].category.as_str(), "extended_mix") {
            assert(part[i as int].category == "extended_mix"@);
            has_extended_master = true;
        } else {
            assert forall|k: int| 0 <= k < part.len() && (#[trigger] part[k]).category == "extended_mix"@ implies has_extended_master by {
                assert(so_far[k].category == "extended_mix"@);
            }
            proof {
                if has_extended_master {
                    let k = choose|k: int| 0 <= k < so_far.len() && (#[trigger] so_far[k]).category == "extended_mix"@;
                    assert(part[k].category == "extended_mix"@);
                }
            }
        }
        i += 1;
    }
    assert(views(files@).take(i as int) == views(files@));
    ScanResult { folder: root, files, undefined_count, has_extended_master }
}

/// Scans a folder: `place` tells what `folder` is, and `entries` what lies in the
/// folder that [`root_of`] names. A scanned folder that is a folder of stems is
/// treated as one.
pub fn scan(folder: &str, place: &Place, entries: &Vec<Entry>) -> (r: Result<ScanResult, String>)
    ensures
        r matches Err(e) ==> root_in(folder@, *place) == Err::<Seq<char>, Seq<char>>(e@),
        r matches Ok(result) ==> {
            &&& root_in(folder@, *place) == Ok::<Seq<char>, Seq<char>>(result.folder@)
            &&& is_root_flag(root_is_stems(result.folder@), result.folder@)
            &&& is_sorted_of(found(entries@, root_is_stems(result.folder@), 0), views(result.files@))
            &&& views(result.files@).to_multiset() == found(entries@, root_is_stems(result.folder@), 0).to_multiset()
            &&& result.undefined_count == undefined_among(views(result.files@))
            &&& result.has_extended_master == extended_master_among(views(result.files@))
        },
{
    let root: String = match root_of(folder, place) {
        Ok(root) => root,
        Err(e) => return Err(e),
    };
    let in_stems_dir: bool = root_in_stems(root.as_str());
    Ok(scan_entries(root, in_stems_dir, entries))
}

// ---------------------------------------------------------------------------
// Laws
// ---------------------------------------------------------------------------

/// The files that were not identified stand behind all the others.
pub proof fn lemma_undefined_files_are_last(files: Seq<ScannedView>, sorted: Seq<ScannedView>, i: int, j: int)
    requires
        is_sorted_of(files, sorted),
        0 <= i < j < sorted.len(),
        is_undefined(sorted[i]),
    ensures
        is_undefined(sorted[j]),
{
    let p = choose|p: Seq<int>| sorted_by(files, sorted, p);
    assert(!comes_before(sorted[j], sorted[i]));
}

/// The result of sorting is the only one: files in the same order of the tree are
/// always shown in the same order.
pub proof fn lemma_sorted_is_unique(files: Seq<ScannedView>, a: Seq<ScannedView>, b: Seq<ScannedView>)
    requires
        is_sorted_of(files, a),
        is_sorted_of(files, b),
    ensures
        a == b,
{
    let p = choose|p: Seq<int>| sorted_by(files, a, p);
    let q = choose|q: Seq<int>| sorted_by(files, b, q);
    lemma_same_order(files, a, p, b, q, files.len() as int);
    assert(a =~= b);
}

/// Two orders that sort the same files agree on their first `n` places.
proof fn lemma_same_order(files: Seq<ScannedView>, a: Seq<ScannedView>, p: Seq<int>, b: Seq<ScannedView>, q: Seq<int>, n: int)
    requires
        sorted_by(files, a, p),
        sorted_by(files, b, q),
        0 <= n <= files.len(),
    ensures
        forall|i: int| 0 <= i < n ==> #[trigger] p[i] == q[i],
    decreases n,
{
    if n > 0 {
        let m = n - 1;
        lemma_same_order(files, a, p, b, q, m);
        if p[m] != q[m] {
            lemma_order_covers(p, files.len(), q[m]);
            lemma_order_covers(q, files.len(), p[m]);
            let x = choose|x: int| 0 <= x < files.len() && #[trigger] p[x] == q[m];
            let y = choose|y: int| 0 <= y < files.len() && #[trigger] q[y] == p[m];
            assert(x > m) by {
                if x < m {
                    assert(q[x] == p[x]);
                }
            }
            assert(y > m) by {
                if y < m {
                    assert(p[y] == q[y]);
                }
            }
            assert(a[m] == files[p[m]] && a[x] == files[q[m]]);
            assert(b[m] == files[q[m]] && b[y] == files[p[m]]);
            assert(!comes_before(a[x], a[m]));
            assert(!comes_before(b[y], b[m]));
            assert(p[m] < p[x]);
            assert(q[m] < q[y]);
            assert(false);
        }
    }
}

/// An order of `n` indices names each of them.
proof fn lemma_order_covers(p: Seq<int>, n: nat, v: int)
    requires
        is_order_of(p, n),
        0 <= v < n,
    ensures
        exists|x: int| 0 <= x < n && #[trigger] p[x] == v,
    decreases n,
{
    if p.last() != v {
        let top = p.last();
        let shorter = p.drop_last().map_values(|i: int| if i > top { i - 1 } else { i });
        let m = (n - 1) as nat;
        assert forall|i: int| 0 <= i < m implies 0 <= #[trigger] shorter[i] < m by {
            assert(p[i] != p[n - 1]);
        }
        assert forall|i: int, j: int| 0 <= i < j < m implies shorter[i] != shorter[j] by {
            assert(p[i] != p[j] && p[i] != p[n - 1] && p[j] != p[n - 1]);
        }
        let w = if v > top { v - 1 } else { v };
        lemma_order_covers(shorter, m, w);
        let x = choose|x: int| 0 <= x < m && #[trigger] shorter[x] == w;
        assert(p[x] != p[n - 1]);
        assert(p[x] == v);
    } else {
        assert(p[n - 1] == v);
    }
}

/// What lies more than five folders deep is not found.
pub proof fn lemma_deep_files_are_not_found(entries: Seq<Entry>, in_stems: bool, depth: nat)
    requires
        depth > 5,
    ensures
        found(entries, in_stems, depth) == Seq::<ScannedView>::empty(),
{
}

/// A hidden file or folder adds nothing to what is found, whatever it holds.
pub proof fn lemma_hidden_entries_are_not_found(entries: Seq<Entry>, hidden: Entry, in_stems: bool, depth: nat)
    requires
        match hidden {
            Entry::Dir(dir) => is_hidden(dir@.name_lower),
            Entry::File(file) => is_hidden(file@.name_lower),
        },
    ensures
        found(entries.push(hidden), in_stems, depth) == found(entries, in_stems, depth),
{
    assert(entries.push(hidden).drop_last() == entries);
}

/// What a scan says of a file is sound.
pub open spec fn is_sound(f: ScannedView) -> bool {
    &&& f.is_master ==> f.ext == "wav"@ && f.upload_field is Some
    &&& f.role == "skip"@ || is_undefined(f) ==> f.upload_field is None
    &&& f.upload_field == Some("file"@) <==> f.category == "extended_mix"@
    &&& f.category == "extended_mix"@ ==> f.is_master
}

/// Masters are WAV files that are uploaded; files that are skipped or were not
/// identified are not uploaded; the main field takes the Extended master and
/// nothing else; and below a folder of stems there are no masters.
pub proof fn lemma_found_files_are_sound(entries: Seq<Entry>, in_stems: bool, depth: nat, i: int)
    requires
        0 <= i < found(entries, in_stems, depth).len(),
    ensures
        is_sound(found(entries, in_stems, depth)[i]),
        in_stems ==> !found(entries, in_stems, depth)[i].is_master,
    decreases MAX_DEPTH + 1 - depth, entries.len(),
{
    let rest = found(entries.drop_last(), in_stems, depth);
    if i < rest.len() {
        lemma_found_files_are_sound(entries.drop_last(), in_stems, depth, i);
    } else {
        match entries.last() {
            Entry::Dir(dir) => {
                lemma_found_files_are_sound(dir@.entries, holds_stems(dir@.name_lower, in_stems), depth + 1, i - rest.len());
            },
            Entry::File(file) => {
                let c = classify::class_of(file@.name_lower, file@.ext, in_stems);
                lemma_classes_are_sound(file@, in_stems);
                reveal_strlit("stems");
                reveal_strlit("extended_mix");
                assert("stems"@.len() == 5);
                assert("extended_mix"@.len() == 12);
                if i == rest.len() {
                    assert(found(entries, in_stems, depth)[i] == scanned(file@, c));
                } else {
                    assert(found(entries, in_stems, depth)[i] == zipped(file@.wavs[i - rest.len() - 1]));
                }
            },
        }
    }
}

/// A scanned folder of stems shows no master, whatever its files are called, and
/// so no Extended master.
pub proof fn lemma_stems_folder_has_no_master(entries: Seq<Entry>, sorted: Seq<ScannedView>)
    requires
        is_sorted_of(found(entries, true, 0), sorted),
    ensures
        forall|i: int| 0 <= i < sorted.len() ==> !(#[trigger] sorted[i]).is_master,
        !extended_master_among(sorted),
{
    let files = found(entries, true, 0);
    let p = choose|p: Seq<int>| sorted_by(files, sorted, p);
    assert forall|i: int| 0 <= i < sorted.len() implies !(#[trigger] sorted[i]).is_master && sorted[i].category != "extended_mix"@ by {
        assert(sorted[i] == files[p[i]]);
        lemma_found_files_are_sound(entries, true, 0, p[i]);
    }
}

proof fn lemma_classes_are_sound(file: FileView, in_stems: bool)
    ensures
        is_sound(scanned(file, classify::class_of(file.name_lower, file.ext, in_stems))),
        in_stems ==> !classify::class_of(file.name_lower, file.ext, in_stems).is_master,
{
    reveal_strlit("file");
    assert("file"@.len() == 4);
    reveal_strlit("cover");
    assert("cover"@.len() == 5);
    reveal_strlit("xf_radio_mix");
    assert("xf_radio_mix"@.len() == 12);
    reveal_strlit("xf_extended_instrumental_mixdown");
    assert("xf_extended_instrumental_mixdown"@.len() == 32);
    reveal_strlit("xf_extended_instrumental");
    assert("xf_extended_instrumental"@.len() == 24);
    reveal_strlit("xf_extended_mixdown");
    assert("xf_extended_mixdown"@.len() == 19);
    reveal_strlit("xf_stems");
    assert("xf_stems"@.len() == 8);
    reveal_strlit("xf_radio_mp3");
    assert("xf_radio_mp3"@.len() == 12);
    reveal_strlit("xf_extended_mp3");
    assert("xf_extended_mp3"@.len() == 15);
    reveal_strlit("xf_midi");
    assert("xf_midi"@.len() == 7);
    reveal_strlit("xf_project");
    assert("xf_project"@.len() == 10);
    reveal_strlit("xf_license");
    assert("xf_license"@.len() == 10);
    reveal_strlit("xf_video");
    assert("xf_video"@.len() == 8);
    reveal_strlit("undefined");
    assert("undefined"@.len() == 9);
    reveal_strlit("radio_instrumental_mixdown");
    assert("radio_instrumental_mixdown"@.len() == 26);
    reveal_strlit("radio_instrumental");
    assert("radio_instrumental"@.len() == 18);
    reveal_strlit("radio_mixdown");
    assert("radio_mixdown"@.len() == 13);
    reveal_strlit("radio_mix");
    assert("radio_mix"@.len() == 9);
    reveal_strlit("extended_instrumental_mixdown");
    assert("extended_instrumental_mixdown"@.len() == 29);
    reveal_strlit("extended_instrumental");
    assert("extended_instrumental"@.len() == 21);
    reveal_strlit("extended_mixdown");
    assert("extended_mixdown"@.len() == 16);
    reveal_strlit("extended_mix");
    assert("extended_mix"@.len() == 12);
    reveal_strlit("stems");
    assert("stems"@.len() == 5);
    reveal_strlit("radio_mp3");
    assert("radio_mp3"@.len() == 9);
    reveal_strlit("extended_mp3");
    assert("extended_mp3"@.len() == 12);
    reveal_strlit("midi");
    assert("midi"@.len() == 4);
    reveal_strlit("project");
    assert("project"@.len() == 7);
    reveal_strlit("license");
    assert("license"@.len() == 7);
    reveal_strlit("video");
    assert("video"@.len() == 5);
    reveal_strlit("skip");
    assert("skip"@.len() == 4);
    reveal_strlit("master");
    assert("master"@.len() == 6);
    reveal_strlit("mixdown");
    assert("mixdown"@.len() == 7);
    reveal_strlit("instrumental");
    assert("instrumental"@.len() == 12);
    reveal_strlit("support");
    assert("support"@.len() == 7);
    reveal_strlit("image");
    assert("image"@.len() == 5);
    reveal_strlit("mp3");
    assert("mp3"@.len() == 3);
    assert("undefined"@[0] == 'u');
    assert("radio_mix"@[0] == 'r');
    assert("radio_mp3"@[0] == 'r');
    assert("extended_mp3"@[10] == 'p');
    assert("extended_mix"@[10] == 'i');
}

} // verus!
