//! What a file of an export folder is, judged by its name.
//!
//! The most specific name wins: "instrumental mixdown" before "instrumental",
//! and "mixdown" before "mix".

use vstd::prelude::*;

use crate::text;
use crate::text::{contains, lower, same};

verus! {

/// What a file is.
#[derive(Debug)]
pub struct Classification {
    pub category: &'static str,
    pub label: &'static str,
    pub role: &'static str,
    /// The field of the upload form; `None` for what is not uploaded.
    pub upload_field: Option<&'static str>,
    /// An Extended or Radio master, of which an MP3 is made.
    pub is_master: bool,
}

/// A file that its name does not identify.
pub open spec fn unidentified() -> Classification {
    Classification {
        category: "undefined",
        label: "Unidentified",
        role: "undefined",
        upload_field: None,
        is_master: false,
    }
}

/// A file that is recognised but not uploaded.
pub open spec fn skipped(category: &'static str, label: &'static str) -> Classification {
    Classification { category, label, role: "skip", upload_field: None, is_master: false }
}

/// A file that is uploaded as something else than a master.
pub open spec fn uploaded(category: &'static str, label: &'static str, role: &'static str, field: &'static str) -> Classification {
    Classification { category, label, role, upload_field: Some(field), is_master: false }
}

/// A master.
pub open spec fn mastered(category: &'static str, label: &'static str, field: &'static str) -> Classification {
    Classification { category, label, role: "master", upload_field: Some(field), is_master: true }
}

/// What a WAV file with this lowercase name is. A name without "radio" stands for
/// the Extended version; of the Radio version only the master is uploaded.
pub open spec fn wav_class(name: Seq<char>) -> Classification {
    let instrumental = text::has(name, "instrumental"@);
    let mixdown = text::has(name, "mixdown"@);
    let master = text::has(name, "master"@) || text::has(name, "mix"@);
    if text::has(name, "radio"@) {
        if instrumental && mixdown {
            skipped("radio_instrumental_mixdown", "Radio Instrumental Mixdown")
        } else if instrumental {
            skipped("radio_instrumental", "Radio Instrumental")
        } else if mixdown {
            skipped("radio_mixdown", "Radio Mixdown")
        } else if master {
            mastered("radio_mix", "Radio Mix (master)", "xf_radio_mix")
        } else {
            unidentified()
        }
    } else {
        if instrumental && mixdown {
            uploaded("extended_instrumental_mixdown", "Extended Instrumental Mixdown", "mixdown", "xf_extended_instrumental_mixdown")
        } else if instrumental {
            uploaded("extended_instrumental", "Extended Instrumental", "instrumental", "xf_extended_instrumental")
        } else if mixdown {
            uploaded("extended_mixdown", "Extended Mixdown", "mixdown", "xf_extended_mixdown")
        } else if master {
            mastered("extended_mix", "Extended Mix (master)", "file")
        } else {
            unidentified()
        }
    }
}

/// `ext` is one of the extensions of DAW projects.
pub open spec fn is_project_ext(ext: Seq<char>) -> bool {
    ext == "flp"@ || ext == "als"@ || ext == "alp"@ || ext == "logic"@ || ext == "logicx"@ || ext == "cpr"@ || ext == "ableton"@ || ext == "ptx"@ || ext == "song"@ || ext == "bwproject"@
}

/// `ext` is one of the extensions of pictures.
pub open spec fn is_picture_ext(ext: Seq<char>) -> bool {
    ext == "jpg"@ || ext == "jpeg"@ || ext == "png"@ || ext == "webp"@
}

/// What a file with this lowercase name and extension is; `in_stems` tells that
/// it lies below a folder of stems.
pub open spec fn class_of(name: Seq<char>, ext: Seq<char>, in_stems: bool) -> Classification {
    if ext == "wav"@ {
        if in_stems {
            uploaded("stems", "Stems", "support", "xf_stems")
        } else {
            wav_class(name)
        }
    } else if ext == "mp3"@ {
        if text::has(name, "radio"@) {
            uploaded("radio_mp3", "Radio Mix (MP3)", "mp3", "xf_radio_mp3")
        } else {
            uploaded("extended_mp3", "Extended Mix (MP3)", "mp3", "xf_extended_mp3")
        }
    } else if ext == "mid"@ || ext == "midi"@ {
        uploaded("midi", "MIDI", "support", "xf_midi")
    } else if is_project_ext(ext) {
        uploaded("project", "Project File", "support", "xf_project")
    } else if is_picture_ext(ext) {
        uploaded("cover", "Cover", "image", "cover")
    } else if ext == "pdf"@ {
        uploaded("license", "License (PDF)", "support", "xf_license")
    } else if ext == "mp4"@ {
        uploaded("video", "Video", "support", "xf_video")
    } else if ext == "zip"@ {
        if text::has(name, "stem"@) || in_stems {
            uploaded("stems", "Stems (ZIP)", "support", "xf_stems")
        } else if text::has(name, "midi"@) || text::has(name, "mid"@) {
            uploaded("midi", "MIDI (ZIP)", "support", "xf_midi")
        } else if text::has(name, "project"@) || text::has(name, "proj"@) {
            uploaded("project", "Project (ZIP)", "support", "xf_project")
        } else {
            unidentified()
        }
    } else if in_stems {
        uploaded("stems", "Stems", "support", "xf_stems")
    } else {
        unidentified()
    }
}

fn undefined() -> (r: Classification)
    ensures
        r == unidentified(),
{
    Classification {
        category: "undefined",
        label: "Unidentified",
        role: "undefined",
        upload_field: None,
        is_master: false,
    }
}

fn skip(category: &'static str, label: &'static str) -> (r: Classification)
    ensures
        r == skipped(category, label),
{
    Classification { category, label, role: "skip", upload_field: None, is_master: false }
}

fn upload(category: &'static str, label: &'static str, role: &'static str, field: &'static str) -> (r: Classification)
    ensures
        r == uploaded(category, label, role, field),
{
    Classification { category, label, role, upload_field: Some(field), is_master: false }
}

fn master(category: &'static str, label: &'static str, field: &'static str) -> (r: Classification)
    ensures
        r == mastered(category, label, field),
{
    Classification { category, label, role: "master", upload_field: Some(field), is_master: true }
}

/// Classifies a WAV file by its lowercase name.
pub fn classify_wav(name_lower: &str) -> (r: Classification)
    ensures
        r == wav_class(name_lower@),
{
    let radio: bool = contains(name_lower, "radio");
    let instrumental: bool = contains(name_lower, "instrumental");
    let mixdown: bool = contains(name_lower, "mixdown");
    let master_kw: bool = contains(name_lower, "master") || contains(name_lower, "mix");
    if radio {
        if instrumental && mixdown {
            skip("radio_instrumental_mixdown", "Radio Instrumental Mixdown")
        } else if instrumental {
            skip("radio_instrumental", "Radio Instrumental")
        } else if mixdown {
            skip("radio_mixdown", "Radio Mixdown")
        } else if master_kw {
            master("radio_mix", "Radio Mix (master)", "xf_radio_mix")
        } else {
            undefined()
        }
    } else {
        if instrumental && mixdown {
            upload("extended_instrumental_mixdown", "Extended Instrumental Mixdown", "mixdown", "xf_extended_instrumental_mixdown")
        } else if instrumental {
            upload("extended_instrumental", "Extended Instrumental", "instrumental", "xf_extended_instrumental")
        } else if mixdown {
            upload("extended_mixdown", "Extended Mixdown", "mixdown", "xf_extended_mixdown")
        } else if master_kw {
            master("extended_mix", "Extended Mix (master)", "file")
        } else {
            undefined()
        }
    }
}

fn project_ext(ext: &str) -> (r: bool)
    ensures
        r == is_project_ext(ext@),
{
    same(ext, "flp") || same(ext, "als") || same(ext, "alp") || same(ext, "logic") || same(ext, "logicx") || same(ext, "cpr") || same(ext, "ableton") || same(ext, "ptx") || same(ext, "song") || same(ext, "bwproject")
}

fn picture_ext(ext: &str) -> (r: bool)
    ensures
        r == is_picture_ext(ext@),
{
    same(ext, "jpg") || same(ext, "jpeg") || same(ext, "png") || same(ext, "webp")
}

/// Classifies a file by its lowercase name and extension.
pub fn classify(name_lower: &str, ext: &str, in_stems_dir: bool) -> (r: Classification)
    ensures
        r == class_of(name_lower@, ext@, in_stems_dir),
{
    if same(ext, "wav") {
        if in_stems_dir {
            upload("stems", "Stems", "support", "xf_stems")
        } else {
            classify_wav(name_lower)
        }
    } else if same(ext, "mp3") {
        if contains(name_lower, "radio") {
            upload("radio_mp3", "Radio Mix (MP3)", "mp3", "xf_radio_mp3")
        } else {
            upload("extended_mp3", "Extended Mix (MP3)", "mp3", "xf_extended_mp3")
        }
    } else if same(ext, "mid") || same(ext, "midi") {
        upload("midi", "MIDI", "support", "xf_midi")
    } else if project_ext(ext) {
        upload("project", "Project File", "support", "xf_project")
    } else if picture_ext(ext) {
        upload("cover", "Cover", "image", "cover")
    } else if same(ext, "pdf") {
        upload("license", "License (PDF)", "support", "xf_license")
    } else if same(ext, "mp4") {
        upload("video", "Video", "support", "xf_video")
    } else if same(ext, "zip") {
        if contains(name_lower, "stem") || in_stems_dir {
            upload("stems", "Stems (ZIP)", "support", "xf_stems")
        } else if contains(name_lower, "midi") || contains(name_lower, "mid") {
            upload("midi", "MIDI (ZIP)", "support", "xf_midi")
        } else if contains(name_lower, "project") || contains(name_lower, "proj") {
            upload("project", "Project (ZIP)", "support", "xf_project")
        } else {
            undefined()
        }
    } else if in_stems_dir {
        upload("stems", "Stems", "support", "xf_stems")
    } else {
        undefined()
    }
}

/// The index of the last dot of `name`; -1 where it has none.
pub open spec fn last_dot(name: Seq<char>) -> int
    decreases name.len(),
{
    if name.len() == 0 {
        -1
    } else if name.last() == '.' {
        name.len() - 1
    } else {
        last_dot(name.drop_last())
    }
}

/// The extension in a file name: what follows its last dot, unless that dot
/// begins the name; the name ".." has none.
pub open spec fn extension_in(name: Seq<char>) -> Option<Seq<char>> {
    if last_dot(name) <= 0 || name == seq!['.', '.'] {
        None
    } else {
        Some(name.skip(last_dot(name) + 1))
    }
}

/// `name` is a file name on every system: it holds nothing that some system takes
/// for the end of a folder, and does not begin like a drive.
pub open spec fn is_file_name(name: Seq<char>) -> bool {
    &&& forall|i: int| 0 <= i < name.len() ==> name[i] != '/' && name[i] != '\\'
    &&& name.len() >= 2 ==> name[1] != ':'
}

/// `std::path::Path::extension`, of a path that is text. Where the path has
/// folders or a drive in it, which part is the file name differs from system to
/// system, and nothing is claimed.
#[verifier::external_body]
fn path_extension(name: &str) -> (r: Option<String>)
    ensures
        is_file_name(name@) ==> r is Some == extension_in(name@) is Some,
        is_file_name(name@) ==> (r matches Some(e) ==> extension_in(name@) == Some(e@)),
{
    std::path::Path::new(name).extension().and_then(|e| e.to_str()).map(|e| e.to_string())
}

/// The extension of a file name, as text: empty where there is none.
pub open spec fn extension_text(name: Seq<char>) -> Seq<char> {
    match extension_in(name) {
        Some(e) => e,
        None => seq![],
    }
}

/// The extension of a file name, empty where there is none.
pub fn plain_ext_of(name: &str) -> (r: String)
    ensures
        is_file_name(name@) ==> r@ == extension_text(name@),
{
    match path_extension(name) {
        Some(e) => e,
        None => String::new(),
    }
}

/// `ext` is the lowercase extension of the file name `name`, empty where it has
/// none.
pub open spec fn is_ext_of(ext: Seq<char>, name: Seq<char>) -> bool {
    match extension_in(name) {
        Some(e) => ext == text::lowercase(e) && (vstd::utf8::is_ascii_chars(e) ==> ext == e.map_values(|c: char| text::ascii_small(c))),
        None => ext == Seq::<char>::empty(),
    }
}

/// The lowercase extension of a file name, empty where there is none.
pub fn ext_of(name: &str) -> (r: String)
    ensures
        is_file_name(name@) ==> is_ext_of(r@, name@),
{
    match path_extension(name) {
        Some(e) => lower(e.as_str()),
        None => String::new(),
    }
}

// ---------------------------------------------------------------------------
// Laws
// ---------------------------------------------------------------------------

/// A name without slashes and backslashes is a file name, unless a colon is its
/// second character; no other is.
pub proof fn lemma_file_names(name: Seq<char>)
    ensures
        is_file_name(name) <==> !name.contains('/') && !name.contains('\\') && !(name.len() > 1 && name[1] == ':'),
{
}

/// The extension is compared in small letters: of one in ASCII characters alone,
/// each capital counts as its small letter and every other character as itself.
pub proof fn lemma_extension_is_in_small_letters(ext: Seq<char>, name: Seq<char>)
    requires
        is_ext_of(ext, name),
    ensures
        extension_in(name) is None ==> ext.len() == 0,
        extension_in(name) matches Some(e) ==> {
            &&& ext == text::lowercase(e)
            &&& vstd::utf8::is_ascii_chars(e) ==> {
                &&& ext.len() == e.len()
                &&& forall|i: int|
                    0 <= i < e.len() ==> #[trigger] ext[i] as int == if 65 <= e[i] as int <= 90 {
                        e[i] as int + 32
                    } else {
                        e[i] as int
                    }
            }
        },
{
}

/// What lies in a folder of stems is never taken for a master, whatever its name.
pub proof fn lemma_stem_is_never_master(name: Seq<char>, ext: Seq<char>)
    ensures
        !class_of(name, ext, true).is_master,
        ext == "wav"@ ==> class_of(name, ext, true).category == "stems",
{
}

/// Only WAV files outside the stems are masters; a master is always uploaded, and
/// a file that is not identified, or is skipped, never is.
pub proof fn lemma_masters_are_uploaded(name: Seq<char>, ext: Seq<char>, in_stems: bool)
    ensures
        ({
            let c = class_of(name, ext, in_stems);
            &&& c.is_master ==> ext == "wav"@ && !in_stems && c.upload_field is Some && c.role == "master"
            &&& c == unidentified() ==> c.upload_field is None
            &&& c.role == "skip" ==> c.upload_field is None
        }),
{
    reveal_strlit("skip");
    reveal_strlit("master");
    reveal_strlit("mixdown");
    reveal_strlit("instrumental");
    reveal_strlit("support");
    reveal_strlit("image");
    reveal_strlit("mp3");
    reveal_strlit("undefined");
}

/// The most specific name wins: a mixdown is never a master, and an instrumental
/// mixdown is neither the instrumental nor the mixdown.
pub proof fn lemma_most_specific_name_wins(name: Seq<char>)
    ensures
        text::has(name, "mixdown"@) || text::has(name, "instrumental"@) ==> !wav_class(name).is_master,
        text::has(name, "mixdown"@) && text::has(name, "instrumental"@) ==> wav_class(name) == if text::has(name, "radio"@) {
            skipped("radio_instrumental_mixdown", "Radio Instrumental Mixdown")
        } else {
            uploaded("extended_instrumental_mixdown", "Extended Instrumental Mixdown", "mixdown", "xf_extended_instrumental_mixdown")
        },
{
}

/// The Extended master, and it alone, goes into the main field of the form.
pub proof fn lemma_extended_master_is_main_file(name: Seq<char>, ext: Seq<char>, in_stems: bool)
    ensures
        class_of(name, ext, in_stems).upload_field == Some("file") <==> class_of(name, ext, in_stems) == mastered("extended_mix", "Extended Mix (master)", "file"),
{
    reveal_strlit("file");
    reveal_strlit("cover");
    reveal_strlit("xf_radio_mix");
    reveal_strlit("xf_extended_instrumental_mixdown");
    reveal_strlit("xf_extended_instrumental");
    reveal_strlit("xf_extended_mixdown");
    reveal_strlit("xf_stems");
    reveal_strlit("xf_radio_mp3");
    reveal_strlit("xf_extended_mp3");
    reveal_strlit("xf_midi");
    reveal_strlit("xf_project");
    reveal_strlit("xf_license");
    reveal_strlit("xf_video");
}

/// `field` is a field of the upload form for a file.
pub open spec fn is_form_field(field: &str) -> bool {
    ||| field == "file"
    ||| field == "cover"
    ||| field == "xf_extended_mixdown"
    ||| field == "xf_extended_mp3"
    ||| field == "xf_extended_instrumental"
    ||| field == "xf_extended_instrumental_mixdown"
    ||| field == "xf_radio_mix"
    ||| field == "xf_radio_mp3"
    ||| field == "xf_midi"
    ||| field == "xf_stems"
    ||| field == "xf_project"
    ||| field == "xf_license"
    ||| field == "xf_video"
}

/// Whatever is uploaded goes into a field that the form of the site has.
pub proof fn lemma_files_go_to_form_fields(name: Seq<char>, ext: Seq<char>, in_stems: bool)
    ensures
        class_of(name, ext, in_stems).upload_field matches Some(field) ==> is_form_field(field),
{
}

/// A WAV outside the stems with "mix" or "master" in its name, and with neither
/// "mixdown" nor "instrumental", is a master: the Radio master if it has "radio"
/// in its name, else the Extended master, which is the main file of the upload.
pub proof fn lemma_mix_or_master_is_a_master(name: Seq<char>)
    requires
        text::has(name, "mix"@) || text::has(name, "master"@),
        !text::has(name, "mixdown"@),
        !text::has(name, "instrumental"@),
    ensures
        text::has(name, "radio"@) ==> class_of(name, "wav"@, false) == (Classification {
            category: "radio_mix",
            label: "Radio Mix (master)",
            role: "master",
            upload_field: Some("xf_radio_mix"),
            is_master: true,
        }),
        !text::has(name, "radio"@) ==> class_of(name, "wav"@, false) == (Classification {
            category: "extended_mix",
            label: "Extended Mix (master)",
            role: "master",
            upload_field: Some("file"),
            is_master: true,
        }),
{
}

/// The mixdowns and instrumentals of the Extended version have fields of their
/// own; those of the Radio version are told apart, but not uploaded.
pub proof fn lemma_mixdowns_and_instrumentals(name: Seq<char>)
    ensures
        ({
            let c = class_of(name, "wav"@, false);
            let radio = text::has(name, "radio"@);
            let mixdown = text::has(name, "mixdown"@);
            let instrumental = text::has(name, "instrumental"@);
            &&& mixdown && instrumental && !radio ==> c == (Classification {
                category: "extended_instrumental_mixdown",
                label: "Extended Instrumental Mixdown",
                role: "mixdown",
                upload_field: Some("xf_extended_instrumental_mixdown"),
                is_master: false,
            })
            &&& mixdown && instrumental && radio ==> c == (Classification {
                category: "radio_instrumental_mixdown",
                label: "Radio Instrumental Mixdown",
                role: "skip",
                upload_field: None,
                is_master: false,
            })
            &&& !mixdown && instrumental && !radio ==> c == (Classification {
                category: "extended_instrumental",
                label: "Extended Instrumental",
                role: "instrumental",
                upload_field: Some("xf_extended_instrumental"),
                is_master: false,
            })
            &&& !mixdown && instrumental && radio ==> c == (Classification {
                category: "radio_instrumental",
                label: "Radio Instrumental",
                role: "skip",
                upload_field: None,
                is_master: false,
            })
            &&& mixdown && !instrumental && !radio ==> c == (Classification {
                category: "extended_mixdown",
                label: "Extended Mixdown",
                role: "mixdown",
                upload_field: Some("xf_extended_mixdown"),
                is_master: false,
            })
            &&& mixdown && !instrumental && radio ==> c == (Classification {
                category: "radio_mixdown",
                label: "Radio Mixdown",
                role: "skip",
                upload_field: None,
                is_master: false,
            })
        }),
{
}

/// A WAV outside the stems is unidentified exactly where its name has none of the
/// words "mix", "master", "mixdown" and "instrumental" in it.
pub proof fn lemma_wav_without_keyword_is_unidentified(name: Seq<char>)
    ensures
        class_of(name, "wav"@, false) == (Classification {
            category: "undefined",
            label: "Unidentified",
            role: "undefined",
            upload_field: None,
            is_master: false,
        }) <==> !text::has(name, "mix"@) && !text::has(name, "master"@) && !text::has(name, "mixdown"@) && !text::has(
            name,
            "instrumental"@,
        ),
{
    reveal_strlit("undefined");
    reveal_strlit("master");
    reveal_strlit("mixdown");
    reveal_strlit("instrumental");
    reveal_strlit("skip");
    assert("undefined"@.len() == 9 && "master"@.len() == 6 && "mixdown"@.len() == 7 && "instrumental"@.len() == 12 && "skip"@.len() == 4);
}

/// In a folder of stems a WAV, and whatever else has no use of its own, is a stem
/// for the stems' field.
pub proof fn lemma_what_lies_in_stems_is_a_stem(name: Seq<char>, ext: Seq<char>)
    requires
        ext == "wav"@ || !is_known_beside_wav(ext),
    ensures
        class_of(name, ext, true) == (Classification {
            category: "stems",
            label: "Stems",
            role: "support",
            upload_field: Some("xf_stems"),
            is_master: false,
        }),
        ext != "wav"@ ==> class_of(name, ext, false) == (Classification {
            category: "undefined",
            label: "Unidentified",
            role: "undefined",
            upload_field: None,
            is_master: false,
        }),
{
}

/// The extensions, WAV apart, of which the program knows what they are for.
pub open spec fn is_known_beside_wav(ext: Seq<char>) -> bool {
    ||| ext == "mp3"@
    ||| ext == "mid"@
    ||| ext == "midi"@
    ||| ext == "flp"@
    ||| ext == "als"@
    ||| ext == "alp"@
    ||| ext == "logic"@
    ||| ext == "logicx"@
    ||| ext == "cpr"@
    ||| ext == "ableton"@
    ||| ext == "ptx"@
    ||| ext == "song"@
    ||| ext == "bwproject"@
    ||| ext == "jpg"@
    ||| ext == "jpeg"@
    ||| ext == "png"@
    ||| ext == "webp"@
    ||| ext == "pdf"@
    ||| ext == "mp4"@
    ||| ext == "zip"@
}

/// A file with a use of its own is told by its extension, wherever it lies and
/// whatever its name is.
pub proof fn lemma_extension_tells_the_use(name: Seq<char>, ext: Seq<char>, in_stems: bool)
    ensures
        ({
            let c = class_of(name, ext, in_stems);
            &&& ext == "mid"@ || ext == "midi"@ ==> c == support("midi", "MIDI", "xf_midi")
            &&& ext == "flp"@ || ext == "als"@ || ext == "alp"@ || ext == "logic"@ || ext == "logicx"@ || ext == "cpr"@ || ext
                == "ableton"@ || ext == "ptx"@ || ext == "song"@ || ext == "bwproject"@ ==> c == support(
                "project",
                "Project File",
                "xf_project",
            )
            &&& ext == "jpg"@ || ext == "jpeg"@ || ext == "png"@ || ext == "webp"@ ==> c == (Classification {
                category: "cover",
                label: "Cover",
                role: "image",
                upload_field: Some("cover"),
                is_master: false,
            })
            &&& ext == "pdf"@ ==> c == support("license", "License (PDF)", "xf_license")
            &&& ext == "mp4"@ ==> c == support("video", "Video", "xf_video")
            &&& ext == "mp3"@ && text::has(name, "radio"@) ==> c == (Classification {
                category: "radio_mp3",
                label: "Radio Mix (MP3)",
                role: "mp3",
                upload_field: Some("xf_radio_mp3"),
                is_master: false,
            })
            &&& ext == "mp3"@ && !text::has(name, "radio"@) ==> c == (Classification {
                category: "extended_mp3",
                label: "Extended Mix (MP3)",
                role: "mp3",
                upload_field: Some("xf_extended_mp3"),
                is_master: false,
            })
        }),
{
    lemma_extensions_differ();
}

/// A supporting file.
pub open spec fn support(category: &'static str, label: &'static str, field: &'static str) -> Classification {
    Classification { category, label, role: "support", upload_field: Some(field), is_master: false }
}

/// An archive is told by its name, or by the folder of stems that it lies in:
/// stems before MIDI, MIDI before projects.
pub proof fn lemma_archive_is_told_by_its_name(name: Seq<char>, in_stems: bool)
    ensures
        ({
            let c = class_of(name, "zip"@, in_stems);
            let stems = in_stems || text::has(name, "stem"@);
            let midi = text::has(name, "mid"@);
            let project = text::has(name, "proj"@);
            &&& stems ==> c == support("stems", "Stems (ZIP)", "xf_stems")
            &&& !stems && midi ==> c == support("midi", "MIDI (ZIP)", "xf_midi")
            &&& !stems && !midi && project ==> c == support("project", "Project (ZIP)", "xf_project")
            &&& !stems && !midi && !project ==> c == (Classification {
                category: "undefined",
                label: "Unidentified",
                role: "undefined",
                upload_field: None,
                is_master: false,
            })
        }),
{
    lemma_extensions_differ();
    reveal_strlit("mid");
    reveal_strlit("midi");
    reveal_strlit("proj");
    reveal_strlit("project");
    lemma_longer_word(name, "midi"@, 3);
    lemma_longer_word(name, "project"@, 4);
    assert("midi"@.take(3) == "mid"@);
    assert("project"@.take(4) == "proj"@);
}

/// A text that has a word in it has the beginning of the word in it.
proof fn lemma_longer_word(name: Seq<char>, word: Seq<char>, k: int)
    requires
        0 <= k <= word.len(),
    ensures
        text::has(name, word) ==> text::has(name, word.take(k)),
{
    if text::has(name, word) {
        let i = choose|i: int| text::occurs_at(name, word, i);
        assert(name.subrange(i, i + k) == name.subrange(i, i + word.len()).take(k));
        assert(text::occurs_at(name, word.take(k), i));
    }
}

/// No extension is another one.
proof fn lemma_extensions_differ()
    ensures
        "zip"@ != "wav"@ && "zip"@ != "mp3"@ && "zip"@ != "mid"@ && "zip"@ != "midi"@ && "zip"@ != "pdf"@ && "zip"@ != "mp4"@,
        !is_project_ext("zip"@) && !is_picture_ext("zip"@),
        "mp3"@ != "wav"@ && "mid"@ != "wav"@ && "midi"@ != "wav"@ && "pdf"@ != "wav"@ && "mp4"@ != "wav"@,
        "mid"@ != "mp3"@ && "midi"@ != "mp3"@ && "pdf"@ != "mp3"@ && "mp4"@ != "mp3"@,
        "pdf"@ != "mid"@ && "pdf"@ != "midi"@ && "mp4"@ != "mid"@ && "mp4"@ != "midi"@ && "mp4"@ != "pdf"@,
        !is_project_ext("mp3"@) && !is_project_ext("mid"@) && !is_project_ext("midi"@) && !is_project_ext("pdf"@) && !is_project_ext("mp4"@),
        !is_picture_ext("mp3"@) && !is_picture_ext("mid"@) && !is_picture_ext("midi"@) && !is_picture_ext("pdf"@) && !is_picture_ext("mp4"@),
        !is_project_ext("wav"@) && !is_picture_ext("wav"@),
        !is_project_ext("jpg"@) && !is_project_ext("jpeg"@) && !is_project_ext("png"@) && !is_project_ext("webp"@),
        !is_picture_ext("flp"@) && !is_picture_ext("als"@) && !is_picture_ext("alp"@),
{
    reveal_strlit("wav");
    assert("wav"@.len() == 3);
    assert("wav"@[0] == 'w');
    assert("wav"@[1] == 'a');
    assert("wav"@[2] == 'v');
    reveal_strlit("mp3");
    assert("mp3"@.len() == 3);
    assert("mp3"@[0] == 'm');
    assert("mp3"@[1] == 'p');
    assert("mp3"@[2] == '3');
    reveal_strlit("mid");
    assert("mid"@.len() == 3);
    assert("mid"@[0] == 'm');
    assert("mid"@[1] == 'i');
    assert("mid"@[2] == 'd');
    reveal_strlit("midi");
    assert("midi"@.len() == 4);
    assert("midi"@[0] == 'm');
    assert("midi"@[1] == 'i');
    assert("midi"@[2] == 'd');
    reveal_strlit("flp");
    assert("flp"@.len() == 3);
    assert("flp"@[0] == 'f');
    assert("flp"@[1] == 'l');
    assert("flp"@[2] == 'p');
    reveal_strlit("als");
    assert("als"@.len() == 3);
    assert("als"@[0] == 'a');
    assert("als"@[1] == 'l');
    assert("als"@[2] == 's');
    reveal_strlit("alp");
    assert("alp"@.len() == 3);
    assert("alp"@[0] == 'a');
    assert("alp"@[1] == 'l');
    assert("alp"@[2] == 'p');
    reveal_strlit("logic");
    assert("logic"@.len() == 5);
    assert("logic"@[0] == 'l');
    assert("logic"@[1] == 'o');
    assert("logic"@[2] == 'g');
    reveal_strlit("logicx");
    assert("logicx"@.len() == 6);
    assert("logicx"@[0] == 'l');
    assert("logicx"@[1] == 'o');
    assert("logicx"@[2] == 'g');
    reveal_strlit("cpr");
    assert("cpr"@.len() == 3);
    assert("cpr"@[0] == 'c');
    assert("cpr"@[1] == 'p');
    assert("cpr"@[2] == 'r');
    reveal_strlit("ableton");
    assert("ableton"@.len() == 7);
    assert("ableton"@[0] == 'a');
    assert("ableton"@[1] == 'b');
    assert("ableton"@[2] == 'l');
    reveal_strlit("ptx");
    assert("ptx"@.len() == 3);
    assert("ptx"@[0] == 'p');
    assert("ptx"@[1] == 't');
    assert("ptx"@[2] == 'x');
    reveal_strlit("song");
    assert("song"@.len() == 4);
    assert("song"@[0] == 's');
    assert("song"@[1] == 'o');
    assert("song"@[2] == 'n');
    reveal_strlit("bwproject");
    assert("bwproject"@.len() == 9);
    assert("bwproject"@[0] == 'b');
    assert("bwproject"@[1] == 'w');
    assert("bwproject"@[2] == 'p');
    reveal_strlit("jpg");
    assert("jpg"@.len() == 3);
    assert("jpg"@[0] == 'j');
    assert("jpg"@[1] == 'p');
    assert("jpg"@[2] == 'g');
    reveal_strlit("jpeg");
    assert("jpeg"@.len() == 4);
    assert("jpeg"@[0] == 'j');
    assert("jpeg"@[1] == 'p');
    assert("jpeg"@[2] == 'e');
    reveal_strlit("png");
    assert("png"@.len() == 3);
    assert("png"@[0] == 'p');
    assert("png"@[1] == 'n');
    assert("png"@[2] == 'g');
    reveal_strlit("webp");
    assert("webp"@.len() == 4);
    assert("webp"@[0] == 'w');
    assert("webp"@[1] == 'e');
    assert("webp"@[2] == 'b');
    reveal_strlit("pdf");
    assert("pdf"@.len() == 3);
    assert("pdf"@[0] == 'p');
    assert("pdf"@[1] == 'd');
    assert("pdf"@[2] == 'f');
    reveal_strlit("mp4");
    assert("mp4"@.len() == 3);
    assert("mp4"@[0] == 'm');
    assert("mp4"@[1] == 'p');
    assert("mp4"@[2] == '4');
    reveal_strlit("zip");
    assert("zip"@.len() == 3);
    assert("zip"@[0] == 'z');
    assert("zip"@[1] == 'i');
    assert("zip"@[2] == 'p');
}

/// The extension of a file name is what follows its last dot; there is none where
/// the name has no dot behind its first character, or is "..".
pub proof fn lemma_extension_follows_last_dot(name: Seq<char>)
    ensures
        extension_in(name) is None <==> name == seq!['.', '.'] || forall|i: int| 1 <= i < name.len() ==> name[i] != '.',
        extension_in(name) matches Some(e) ==> {
            let k = name.len() - e.len() - 1;
            &&& 0 < k
            &&& name[k] == '.'
            &&& name == name.take(k + 1) + e
            &&& forall|i: int| 0 <= i < e.len() ==> e[i] != '.'
        },
{
    lemma_last_dot(name);
    let k = last_dot(name);
    if let Some(e) = extension_in(name) {
        assert(name[k] == '.');
        assert forall|i: int| 0 <= i < e.len() implies e[i] != '.' by {
            assert(e[i] == name[k + 1 + i]);
        }
    }
}

proof fn lemma_last_dot(name: Seq<char>)
    ensures
        -1 <= last_dot(name) < name.len(),
        last_dot(name) >= 0 ==> name[last_dot(name)] == '.',
        forall|i: int| last_dot(name) < i < name.len() ==> name[i] != '.',
    decreases name.len(),
{
    if name.len() > 0 && name.last() != '.' {
        let rest = name.drop_last();
        lemma_last_dot(rest);
        assert(forall|i: int| 0 <= i < rest.len() ==> rest[i] == name[i]);
    }
}

} // verus!
