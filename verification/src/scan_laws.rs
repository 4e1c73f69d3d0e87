//! Laws of a scan: what is found, and in what order it is shown.

use vstd::prelude::*;

use crate::classify;
use crate::classify::Classification;
use crate::scanner;
use crate::scanner::{Entry, FileEntry, FileView, FolderEntry, Place, ScannedView, ZippedWav};
use crate::text;

verus! {

/// A name that begins with a dot.
pub open spec fn starts_with_dot(name: Seq<char>) -> bool {
    name.len() > 0 && name[0] == '.'
}

proof fn lemma_hidden(name: Seq<char>)
    ensures
        scanner::is_hidden(name) <==> starts_with_dot(name),
{
    reveal_strlit(".");
    if starts_with_dot(name) {
        assert(name.subrange(0, 1) == "."@);
    }
    if scanner::is_hidden(name) {
        assert(name.subrange(0, 1)[0] == '.');
    }
}

// ---------------------------------------------------------------------------
// What is found
// ---------------------------------------------------------------------------

/// What is found in a folder is what is found in its entries, one after the other.
pub proof fn lemma_entries_are_found_one_by_one(a: Seq<Entry>, b: Seq<Entry>, in_stems: bool, depth: nat)
    ensures
        scanner::found(a + b, in_stems, depth) == scanner::found(a, in_stems, depth) + scanner::found(b, in_stems, depth),
    decreases b.len(),
{
    if b.len() == 0 {
        assert(a + b == a);
        assert(scanner::found(a + b, in_stems, depth) == scanner::found(a, in_stems, depth) + scanner::found(b, in_stems, depth));
    } else if depth <= 5 {
        assert((a + b).drop_last() == a + b.drop_last());
        assert((a + b).last() == b.last());
        lemma_entries_are_found_one_by_one(a, b.drop_last(), in_stems, depth);
        assert(scanner::found(a + b, in_stems, depth) == scanner::found(a, in_stems, depth) + scanner::found(b, in_stems, depth));
    }
}

/// A folder contributes all that is found in its own entries, as stems if it lies
/// among the stems or has "stem" in its name, wherever it lies; only a hidden one
/// contributes nothing.
pub proof fn lemma_folder_contributes_all_it_holds(dir: FolderEntry, in_stems: bool, depth: nat)
    ensures
        starts_with_dot(dir@.name_lower) ==> scanner::found(seq![Entry::Dir(dir)], in_stems, depth).len() == 0,
        !starts_with_dot(dir@.name_lower) && depth <= 5 ==> scanner::found(seq![Entry::Dir(dir)], in_stems, depth) == scanner::found(
            dir@.entries,
            in_stems || text::has(dir@.name_lower, "stem"@),
            depth + 1,
        ),
        depth > 5 ==> scanner::found(seq![Entry::Dir(dir)], in_stems, depth).len() == 0,
{
    lemma_hidden(dir@.name_lower);
    let one = seq![Entry::Dir(dir)];
    assert(one.drop_last() == Seq::<Entry>::empty());
    assert(scanner::found(one.drop_last(), in_stems, depth) == Seq::<ScannedView>::empty());
    assert(one.last() == Entry::Dir(dir));
}

/// `s` is what is shown of `file` with the classification `c`.
pub open spec fn shows(s: ScannedView, file: FileView, c: Classification) -> bool {
    &&& s.filename == file.name
    &&& s.path == file.path
    &&& s.ext == file.ext
    &&& s.size == file.size
    &&& s.category == c.category@
    &&& s.label == c.label@
    &&& s.role == c.role@
    &&& s.is_master == c.is_master
    &&& s.upload_field is Some <==> c.upload_field is Some
    &&& c.upload_field matches Some(f) ==> s.upload_field == Some(f@)
}

/// `s` is what is shown of a WAV out of an archive of stems: a stem that is not
/// uploaded.
pub open spec fn shows_zipped(s: ScannedView, w: ZippedWav) -> bool {
    &&& s.filename == w.filename@
    &&& s.path == w.path@
    &&& s.ext == "wav"@
    &&& s.size == w.size
    &&& s.category == "stems"@
    &&& s.label == "Stem (from zip)"@
    &&& s.role == "skip"@
    &&& s.upload_field is None
    &&& !s.is_master
}

/// A file that is not hidden is shown once, with its own name, path, extension and
/// size and its classification; behind an archive of stems come the WAV files out
/// of it, one for one.
pub proof fn lemma_file_is_shown(file: FileEntry, in_stems: bool, depth: nat)
    requires
        depth <= 5,
    ensures
        ({
            let f = file@;
            let shown = scanner::found(seq![Entry::File(file)], in_stems, depth);
            let archive = f.ext == "zip"@ && (in_stems || text::has(f.name_lower, "stem"@));
            &&& starts_with_dot(f.name_lower) ==> shown.len() == 0
            &&& !starts_with_dot(f.name_lower) ==> {
                &&& shown.len() == 1 + if archive {
                    f.wavs.len() as int
                } else {
                    0
                }
                &&& shows(shown[0], f, classify::class_of(f.name_lower, f.ext, in_stems))
                &&& archive ==> forall|i: int| 0 <= i < f.wavs.len() ==> shows_zipped(#[trigger] shown[i + 1], f.wavs[i])
            }
        }),
{
    let f = file@;
    lemma_hidden(f.name_lower);
    let one = seq![Entry::File(file)];
    assert(one.drop_last() == Seq::<Entry>::empty());
    assert(scanner::found(one.drop_last(), in_stems, depth) == Seq::<ScannedView>::empty());
    assert(one.last() == Entry::File(file));
}

/// The entry that is reached through the folders at the indices `way`.
pub open spec fn reached(entries: Seq<Entry>, way: Seq<int>) -> Option<Entry>
    decreases way.len(),
{
    if way.len() == 0 || !(0 <= way[0] < entries.len()) {
        None
    } else if way.len() == 1 {
        Some(entries[way[0]])
    } else {
        match entries[way[0]] {
            Entry::Dir(dir) => reached(dir@.entries, way.drop_first()),
            Entry::File(_) => None,
        }
    }
}

/// None of the folders on the way is hidden.
pub open spec fn is_open_way(entries: Seq<Entry>, way: Seq<int>) -> bool
    decreases way.len(),
{
    way.len() > 1 ==> match entries[way[0]] {
        Entry::Dir(dir) => !starts_with_dot(dir@.name_lower) && is_open_way(dir@.entries, way.drop_first()),
        Entry::File(_) => false,
    }
}

/// The way leads through a folder of stems.
pub open spec fn leads_through_stems(entries: Seq<Entry>, way: Seq<int>) -> bool
    decreases way.len(),
{
    way.len() > 1 && match entries[way[0]] {
        Entry::Dir(dir) => text::has(dir@.name_lower, "stem"@) || leads_through_stems(dir@.entries, way.drop_first()),
        Entry::File(_) => false,
    }
}

/// Every file that is not hidden, and is reached through at most five folders none
/// of which is hidden, is found, whatever folders these are. It is a stem where
/// one of them is a folder of stems.
pub proof fn lemma_every_file_is_found(entries: Seq<Entry>, way: Seq<int>, file: FileEntry, in_stems: bool, depth: nat)
    requires
        reached(entries, way) == Some(Entry::File(file)),
        is_open_way(entries, way),
        !starts_with_dot(file@.name_lower),
        depth + way.len() <= 6,
    ensures
        exists|i: int|
            0 <= i < scanner::found(entries, in_stems, depth).len() && shows(
                #[trigger] scanner::found(entries, in_stems, depth)[i],
                file@,
                classify::class_of(file@.name_lower, file@.ext, in_stems || leads_through_stems(entries, way)),
            ),
    decreases way.len(),
{
    let k = way[0];
    let one = seq![entries[k]];
    let all = scanner::found(entries, in_stems, depth);
    let head = scanner::found(entries.take(k), in_stems, depth);
    let here = scanner::found(one, in_stems, depth);
    assert(entries == entries.take(k) + one + entries.skip(k + 1));
    lemma_entries_are_found_one_by_one(entries.take(k), one, in_stems, depth);
    lemma_entries_are_found_one_by_one(entries.take(k) + one, entries.skip(k + 1), in_stems, depth);
    if way.len() == 1 {
        lemma_file_is_shown(file, in_stems, depth);
        assert(all[head.len() as int] == here[0]);
    } else if let Entry::Dir(dir) = entries[k] {
        let below = in_stems || text::has(dir@.name_lower, "stem"@);
        lemma_folder_contributes_all_it_holds(dir, in_stems, depth);
        lemma_every_file_is_found(dir@.entries, way.drop_first(), file, below, depth + 1);
        let c = classify::class_of(file@.name_lower, file@.ext, below || leads_through_stems(dir@.entries, way.drop_first()));
        let i = choose|i: int| 0 <= i < here.len() && shows(#[trigger] here[i], file@, c);
        assert(all[head.len() + i] == here[i]);
    }
}

/// `s` is shown for `file`: it is the file itself, or a WAV out of it.
pub open spec fn is_shown_for(s: ScannedView, file: FileView, in_stems: bool) -> bool {
    ||| shows(s, file, classify::class_of(file.name_lower, file.ext, in_stems))
    ||| file.ext == "zip"@ && (in_stems || text::has(file.name_lower, "stem"@)) && exists|w: int|
        0 <= w < file.wavs.len() && shows_zipped(s, #[trigger] file.wavs[w])
}

/// `way` leads to a file that may be found and for which `s` is shown.
pub open spec fn comes_from(s: ScannedView, entries: Seq<Entry>, way: Seq<int>, in_stems: bool, depth: nat) -> bool {
    &&& depth + way.len() <= 6
    &&& is_open_way(entries, way)
    &&& reached(entries, way) matches Some(Entry::File(file))
    &&& !starts_with_dot(file@.name_lower)
    &&& is_shown_for(s, file@, in_stems || leads_through_stems(entries, way))
}

/// Nothing else is found: all that is shown is shown for a file that is not hidden
/// and is reached through at most five folders, none of them hidden.
pub proof fn lemma_nothing_else_is_found(entries: Seq<Entry>, in_stems: bool, depth: nat, i: int)
    requires
        0 <= i < scanner::found(entries, in_stems, depth).len(),
    ensures
        exists|way: Seq<int>| comes_from(scanner::found(entries, in_stems, depth)[i], entries, way, in_stems, depth),
    decreases 6 - depth, entries.len(),
{
    let all = scanner::found(entries, in_stems, depth);
    let rest = entries.drop_last();
    let k = entries.len() - 1;
    let one = seq![entries[k]];
    let head = scanner::found(rest, in_stems, depth);
    let here = scanner::found(one, in_stems, depth);
    assert(entries == rest + one);
    lemma_entries_are_found_one_by_one(rest, one, in_stems, depth);
    if i < head.len() {
        lemma_nothing_else_is_found(rest, in_stems, depth, i);
        let way = choose|way: Seq<int>| comes_from(head[i], rest, way, in_stems, depth);
        assert(rest[way[0]] == entries[way[0]]);
        assert(comes_from(all[i], entries, way, in_stems, depth));
    } else {
        let s = here[i - head.len()];
        assert(s == all[i]);
        match entries[k] {
            Entry::Dir(dir) => {
                let below = in_stems || text::has(dir@.name_lower, "stem"@);
                lemma_folder_contributes_all_it_holds(dir, in_stems, depth);
                lemma_nothing_else_is_found(dir@.entries, below, depth + 1, i - head.len());
                let deeper = (depth + 1) as nat;
                let inner = choose|way: Seq<int>| comes_from(s, dir@.entries, way, below, deeper);
                let way = seq![k] + inner;
                assert(way.drop_first() == inner);
                assert(comes_from(s, entries, way, in_stems, depth));
            },
            Entry::File(file) => {
                lemma_file_is_shown(file, in_stems, depth);
                let way = seq![k];
                if i > head.len() {
                    let w = i - head.len() - 1;
                    assert(shows_zipped(here[w + 1], file@.wavs[w]));
                }
                assert(comes_from(s, entries, way, in_stems, depth));
            },
        }
    }
}

/// A folder need not be read exactly where [`scanner::is_entered`] says so: what it
/// holds is then not found, and else all of it is.
pub proof fn lemma_unread_folders_do_not_matter(dir: FolderEntry, in_stems: bool, depth: nat)
    ensures
        !scanner::is_entered(dir@.name_lower, depth + 1) ==> scanner::found(seq![Entry::Dir(dir)], in_stems, depth).len() == 0,
        scanner::is_entered(dir@.name_lower, depth + 1) <==> !starts_with_dot(dir@.name_lower) && depth + 1 <= 5,
        scanner::is_entered(dir@.name_lower, depth + 1) ==> scanner::found(seq![Entry::Dir(dir)], in_stems, depth) == scanner::found(
            dir@.entries,
            in_stems || text::has(dir@.name_lower, "stem"@),
            depth + 1,
        ),
{
    lemma_hidden(dir@.name_lower);
    lemma_folder_contributes_all_it_holds(dir, in_stems, depth);
}

/// An archive is unpacked exactly where it is a ZIP file that holds stems by its
/// name or by the folders that it lies in.
pub proof fn lemma_archives_of_stems_are_unpacked(name_lower: Seq<char>, ext: Seq<char>, in_stems: bool)
    ensures
        scanner::is_unpacked(name_lower, ext, in_stems) <==> ext == "zip"@ && (in_stems || text::has(name_lower, "stem"@)),
        scanner::holds_stems(name_lower, in_stems) <==> in_stems || text::has(name_lower, "stem"@),
        scanner::is_looked_into(name_lower, ext, in_stems) <==> !starts_with_dot(name_lower) && ext == "zip"@ && (in_stems || text::has(
            name_lower,
            "stem"@,
        )),
{
    lemma_hidden(name_lower);
}

/// What is unpacked of an archive is every entry whose name, in small letters, ends
/// in ".wav", and nothing else.
pub proof fn lemma_wav_entries_are_unpacked(lowered: Seq<char>)
    ensures
        scanner::is_wav_entry(lowered) <==> exists|x: Seq<char>| lowered == #[trigger] (x + ".wav"@),
{
    text::lemma_ends_means_cut(lowered, ".wav"@);
    if scanner::is_wav_entry(lowered) {
        let x = lowered.take(lowered.len() - ".wav"@.len());
        assert(lowered == x + ".wav"@);
    }
    if exists|x: Seq<char>| lowered == #[trigger] (x + ".wav"@) {
        let x = choose|x: Seq<char>| lowered == #[trigger] (x + ".wav"@);
        assert(lowered.skip(x.len() as int) == ".wav"@);
    }
}

// ---------------------------------------------------------------------------
// The order
// ---------------------------------------------------------------------------

/// In the list that is shown, files that were not identified stand behind all the
/// others; the others stand by category; files of one category stand by name; and
/// those of one category and name stand as they were found.
pub proof fn lemma_list_is_in_order(files: Seq<ScannedView>, sorted: Seq<ScannedView>, i: int, j: int)
    requires
        scanner::is_sorted_of(files, sorted),
        0 <= i < j < sorted.len(),
    ensures
        sorted[i].category == "undefined"@ ==> sorted[j].category == "undefined"@,
        sorted[j].category != "undefined"@ ==> !text::before(sorted[j].category, sorted[i].category),
        sorted[i].category == sorted[j].category ==> !text::before(sorted[j].filename, sorted[i].filename),
        exists|p: Seq<int>| is_place_of(files, sorted, p) && (sorted[i].category == sorted[j].category && sorted[i].filename == sorted[j].filename ==> p[i] < p[j]),
{
    let p = choose|p: Seq<int>| scanner::sorted_by(files, sorted, p);
    assert(!scanner::comes_before(sorted[j], sorted[i]));
    scanner::lemma_before_is_total(sorted[i].filename, sorted[j].filename);
    scanner::lemma_before_is_total(sorted[i].category, sorted[j].category);
    assert(is_place_of(files, sorted, p));
}

/// Each place of `sorted` shows the file at one place of `files`, each of them
/// once.
pub open spec fn is_place_of(files: Seq<ScannedView>, sorted: Seq<ScannedView>, p: Seq<int>) -> bool {
    &&& p.len() == sorted.len() == files.len()
    &&& forall|i: int| 0 <= i < p.len() ==> 0 <= #[trigger] p[i] < files.len() && sorted[i] == files[p[i]]
    &&& forall|i: int, j: int| 0 <= i < j < p.len() ==> p[i] != p[j]
}

/// No file is lost, none is added, and none is shown more often than it was found.
pub proof fn lemma_list_is_complete(files: Seq<ScannedView>, sorted: Seq<ScannedView>)
    requires
        scanner::is_sorted_of(files, sorted),
    ensures
        exists|p: Seq<int>| is_place_of(files, sorted, p),
{
    let p = choose|p: Seq<int>| scanner::sorted_by(files, sorted, p);
    assert(is_place_of(files, sorted, p));
}

/// The count of unidentified files is that of the files of the category
/// "undefined".
pub proof fn lemma_unidentified_are_counted(files: Seq<ScannedView>)
    ensures
        scanner::undefined_among(files) == files.filter(|f: ScannedView| f.category == "undefined"@).len(),
    decreases files.len(),
{
    reveal(Seq::filter);
    if files.len() > 0 {
        lemma_unidentified_are_counted(files.drop_last());
    }
}

/// There is an Extended master exactly where a file goes into the main field of
/// the form.
pub proof fn lemma_extended_master_means_main_file(entries: Seq<Entry>, in_stems: bool)
    ensures
        scanner::extended_master_among(scanner::found(entries, in_stems, 0)) <==> exists|i: int|
            0 <= i < scanner::found(entries, in_stems, 0).len() && (#[trigger] scanner::found(entries, in_stems, 0)[i]).upload_field
                == Some("file"@),
{
    let f = scanner::found(entries, in_stems, 0);
    assert forall|i: int| 0 <= i < f.len() implies ((#[trigger] f[i]).category == "extended_mix"@ <==> f[i].upload_field == Some("file"@)) by {
        scanner::lemma_found_files_are_sound(entries, in_stems, 0, i);
    }
    if scanner::extended_master_among(f) {
        let i = choose|i: int| 0 <= i < f.len() && (#[trigger] f[i]).category == "extended_mix"@;
        assert(f[i].upload_field == Some("file"@));
    }
}

/// [`scanner::extended_master_among`] tells whether a file has that category.
pub proof fn lemma_extended_master_is_told_by_category(files: Seq<ScannedView>)
    ensures
        scanner::extended_master_among(files) <==> exists|i: int| 0 <= i < files.len() && (#[trigger] files[i]).category == "extended_mix"@,
{
}

// ---------------------------------------------------------------------------
// Names and folders
// ---------------------------------------------------------------------------

/// No character of `s` separates folders.
pub open spec fn has_no_separator(s: Seq<char>) -> bool {
    forall|i: int| 0 <= i < s.len() ==> s[i] != '/' && s[i] != '\\'
}

/// `s` is empty or ends in a separator.
pub open spec fn ends_folder(s: Seq<char>) -> bool {
    s.len() > 0 ==> s.last() == '/' || s.last() == '\\'
}

/// All characters of `s` separate folders.
pub open spec fn is_all_separators(s: Seq<char>) -> bool {
    forall|i: int| 0 <= i < s.len() ==> s[i] == '/' || s[i] == '\\'
}

/// The name of a file without its folders is what stands behind them.
pub proof fn lemma_base_stands_behind_folders(folders: Seq<char>, base: Seq<char>)
    requires
        ends_folder(folders),
        has_no_separator(base),
    ensures
        (folders + base).skip(scanner::base_start(folders + base)) == base,
    decreases base.len(),
{
    let all = folders + base;
    lemma_base_start(folders, base);
    assert(all.skip(folders.len() as int) == base);
}

proof fn lemma_base_start(folders: Seq<char>, base: Seq<char>)
    requires
        ends_folder(folders),
        has_no_separator(base),
    ensures
        scanner::base_start(folders + base) == folders.len(),
    decreases base.len(),
{
    let all = folders + base;
    if base.len() == 0 {
        assert(all == folders);
    } else {
        assert(all.last() == base.last());
        assert(all.drop_last() == folders + base.drop_last());
        lemma_base_start(folders, base.drop_last());
    }
}

/// The name of a folder is what stands behind the folders above it, whatever
/// separators its path ends in; and it is a folder of stems where "stem" occurs in
/// its lowercase name.
pub proof fn lemma_folder_is_told_by_its_name(above: Seq<char>, name: Seq<char>, end: Seq<char>)
    requires
        ends_folder(above),
        name.len() > 0,
        has_no_separator(name),
        is_all_separators(end),
    ensures
        scanner::folder_name(above + name + end) == name,
        scanner::root_is_stems(above + name + end) <==> text::has(text::lowercase(name), "stem"@),
{
    lemma_without_end(above + name, end);
    lemma_base_stands_behind_folders(above, name);
}

proof fn lemma_without_end(path: Seq<char>, end: Seq<char>)
    requires
        path.len() > 0,
        path.last() != '/' && path.last() != '\\',
        is_all_separators(end),
    ensures
        scanner::without_end(path + end) == path,
    decreases end.len(),
{
    let all = path + end;
    if end.len() == 0 {
        assert(all == path);
    } else {
        assert(all.last() == end.last());
        assert(all.drop_last() == path + end.drop_last());
        lemma_without_end(path, end.drop_last());
    }
}

/// Names are compared in small letters: in one of ASCII characters alone, each
/// capital counts as its small letter and every other character as itself.
pub proof fn lemma_names_are_in_small_letters(lowered: Seq<char>, name: Seq<char>)
    requires
        scanner::is_lower_of(lowered, name),
    ensures
        lowered == text::lowercase(name),
        vstd::utf8::is_ascii_chars(name) ==> {
            &&& lowered.len() == name.len()
            &&& forall|i: int|
                0 <= i < name.len() ==> #[trigger] lowered[i] as int == if 65 <= name[i] as int <= 90 {
                    name[i] as int + 32
                } else {
                    name[i] as int
                }
        },
{
}

/// The scanned folder is one of stems exactly where its name, in small letters, has
/// "stem" in it, whatever lies above it and however its path ends.
pub proof fn lemma_scanned_folder_is_told_by_its_name(flag: bool, lowered: Seq<char>, above: Seq<char>, name: Seq<char>, end: Seq<char>)
    requires
        ends_folder(above),
        name.len() > 0,
        has_no_separator(name),
        is_all_separators(end),
        scanner::is_lower_of(lowered, name),
        scanner::is_root_flag(flag, above + name + end),
    ensures
        flag <==> text::has(lowered, "stem"@),
{
    lemma_folder_is_told_by_its_name(above, name, end);
}

/// A path of separators alone has no name, and is no folder of stems.
pub proof fn lemma_path_without_name(flag: bool, path: Seq<char>)
    requires
        is_all_separators(path),
    ensures
        scanner::folder_name(path).len() == 0,
        scanner::is_root_flag(flag, path) ==> !flag,
    decreases path.len(),
{
    reveal_strlit("stem");
    if path.len() > 0 {
        lemma_path_without_name(flag, path.drop_last());
    } else {
        assert(scanner::without_end(path) == path);
    }
}

/// A folder that is asked for is scanned itself, and for a file the folder that it
/// lies in; else the failure names what was asked for.
pub proof fn lemma_scanned_folder(folder: Seq<char>, place: Place)
    ensures
        place is Folder ==> scanner::root_in(folder, place) == Ok::<Seq<char>, Seq<char>>(folder),
        place matches Place::InFolder { parent } ==> scanner::root_in(folder, place) == Ok::<Seq<char>, Seq<char>>(parent@),
        place is Missing ==> scanner::root_in(folder, place) == Err::<Seq<char>, Seq<char>>("Folder not found: "@ + folder),
        place is Elsewhere ==> scanner::root_in(folder, place) == Err::<Seq<char>, Seq<char>>("Path is not a folder: "@ + folder),
{
}

/// Folders are read five levels deep.
pub proof fn lemma_depth_of_a_scan()
    ensures
        scanner::MAX_DEPTH == 5,
{
}

} // verus!
