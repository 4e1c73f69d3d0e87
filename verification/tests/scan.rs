use gpw_uploader::classify::{classify, classify_wav, ext_of, plain_ext_of};
use gpw_uploader::progress::mime_for;
use gpw_uploader::scanner::{
    base_of, enters, lower_name, name_of_folder, root_in_stems, root_of, scan, scan_entries, sort_files, stems_inside, unpacks, walk, wav_base, Entry, Place, ScannedFile, ZippedWav,
};

fn cat(name: &str) -> String {
    let n = name.to_lowercase();
    let ext = ext_of(name);
    classify(&n, &ext, false).category.to_string()
}

#[test]
fn detecta_wavs_pela_nomenclatura() {
    assert_eq!(cat("Track - Extended Mix.wav"), "extended_mix");
    assert_eq!(cat("Track - Extended Mixdown.wav"), "extended_mixdown");
    assert_eq!(cat("Track - Extended Instrumental.wav"), "extended_instrumental");
    assert_eq!(cat("Track - Extended Instrumental Mixdown.wav"), "extended_instrumental_mixdown");
    assert_eq!(cat("Track - Radio Mix.wav"), "radio_mix");
    assert_eq!(cat("Track - Radio Mixdown.wav"), "radio_mixdown");
    assert_eq!(cat("Track - Radio Instrumental.wav"), "radio_instrumental");
    assert_eq!(cat("Track - Radio Instrumental Mixdown.wav"), "radio_instrumental_mixdown");
    assert_eq!(cat("Track Master.wav"), "extended_mix");
    assert_eq!(cat("Track Radio Master.wav"), "radio_mix");
}

#[test]
fn master_extended_vai_para_campo_file() {
    let n = "extended mix.wav".to_string();
    let c = classify(&n, "wav", false);
    assert_eq!(c.upload_field, Some("file"));
    assert!(c.is_master);
}

#[test]
fn outros_tipos() {
    assert_eq!(cat("cover.jpg"), "cover");
    assert_eq!(cat("artwork.png"), "cover");
    assert_eq!(cat("project.flp"), "project");
    assert_eq!(cat("session.als"), "project");
    assert_eq!(cat("melody.mid"), "midi");
    assert_eq!(cat("Stems.zip"), "stems");
    assert_eq!(cat("license.pdf"), "license");
    assert_eq!(cat("teaser.mp4"), "video");
    assert_eq!(cat("random.txt"), "undefined");
    assert_eq!(cat("notes"), "undefined");
}

#[test]
fn stems_soltos_dentro_de_pasta_stems() {
    let n = "kick".to_string();
    assert_eq!(classify(&n, "", true).category, "stems");
    assert_eq!(cat("kick.wav"), "undefined");
}

#[test]
fn wav_dentro_de_pasta_stems_nunca_e_master() {
    let c = classify("lead mix.wav", "wav", true);
    assert_eq!(c.category, "stems");
    assert!(!c.is_master);
    assert_eq!(classify("kick.wav", "wav", true).category, "stems");
}

#[test]
fn qualquer_mix_nao_radio_vira_extended_master() {
    assert_eq!(cat("Track (Club Mix).wav"), "extended_mix");
    assert_eq!(cat("Track Remix.wav"), "extended_mix");
}

#[test]
fn radio_versions_beside_the_master_are_not_uploaded() {
    for name in ["radio instrumental mixdown.wav", "radio instrumental.wav", "radio mixdown.wav"] {
        let c = classify_wav(name);
        assert_eq!((c.role, c.upload_field, c.is_master), ("skip", None, false));
    }
    let c = classify_wav("radio mix.wav");
    assert_eq!((c.role, c.upload_field, c.is_master), ("master", Some("xf_radio_mix"), true));
    assert_eq!(classify_wav("radio.wav").category, "undefined");
}

#[test]
fn extended_versions_have_their_fields() {
    assert_eq!(classify_wav("a mixdown.wav").upload_field, Some("xf_extended_mixdown"));
    assert_eq!(classify_wav("a instrumental.wav").upload_field, Some("xf_extended_instrumental"));
    assert_eq!(
        classify_wav("a instrumental mixdown.wav").upload_field,
        Some("xf_extended_instrumental_mixdown")
    );
    assert_eq!(classify_wav("kick.wav").upload_field, None);
}

#[test]
fn other_files_have_their_fields() {
    assert_eq!(classify("a radio.mp3", "mp3", false).upload_field, Some("xf_radio_mp3"));
    assert_eq!(classify("a.mp3", "mp3", false).upload_field, Some("xf_extended_mp3"));
    assert_eq!(classify("a.midi", "midi", false).upload_field, Some("xf_midi"));
    assert_eq!(classify("a.logicx", "logicx", false).upload_field, Some("xf_project"));
    assert_eq!(classify("a.webp", "webp", false).upload_field, Some("cover"));
    assert_eq!(classify("a.pdf", "pdf", false).upload_field, Some("xf_license"));
    assert_eq!(classify("a.mp4", "mp4", false).upload_field, Some("xf_video"));
    assert_eq!(classify("midi pack.zip", "zip", false).label, "MIDI (ZIP)");
    assert_eq!(classify("project.zip", "zip", false).label, "Project (ZIP)");
    assert_eq!(classify("other.zip", "zip", false).category, "undefined");
    assert_eq!(classify("other.zip", "zip", true).label, "Stems (ZIP)");
    assert_eq!(classify("cover.jpg", "jpg", true).category, "cover");
}

#[test]
fn extensions_are_lowercase() {
    assert_eq!(ext_of("Track.WAV"), "wav");
    assert_eq!(ext_of("a.tar.GZ"), "gz");
    assert_eq!(ext_of("noext"), "");
    assert_eq!(ext_of(".hidden"), "");
    assert_eq!(ext_of("dot."), "");
    assert_eq!(ext_of(".."), "");
    assert_eq!(ext_of("a.ÉXT"), "éxt");
    assert_eq!(ext_of("Track: Extended Mix.WAV"), "wav");
    assert_eq!(plain_ext_of("Track.WAV"), "WAV");
}

#[test]
fn media_types() {
    assert_eq!(mime_for("WAV"), "audio/wav");
    assert_eq!(mime_for("mp3"), "audio/mpeg");
    assert_eq!(mime_for("flac"), "audio/flac");
    assert_eq!(mime_for("zip"), "application/zip");
    assert_eq!(mime_for("MIDI"), "audio/midi");
    assert_eq!(mime_for("pdf"), "application/pdf");
    assert_eq!(mime_for("mp4"), "video/mp4");
    assert_eq!(mime_for("jpeg"), "image/jpeg");
    assert_eq!(mime_for("png"), "image/png");
    assert_eq!(mime_for("webp"), "image/webp");
    assert_eq!(mime_for(""), "application/octet-stream");
}

fn file(name: &str, size: u64) -> Entry {
    Entry::file(name.to_string(), format!("/x/{}", name), size, Vec::new())
}

fn dir(name: &str, entries: Vec<Entry>) -> Entry {
    Entry::dir(name, entries)
}

fn names(files: &[ScannedFile]) -> Vec<(&str, &str)> {
    files.iter().map(|f| (f.category.as_str(), f.filename.as_str())).collect()
}

#[test]
fn scan_classifies_and_sorts() {
    let entries = vec![
        file("notes.txt", 1),
        file("Track Radio Mix.wav", 2),
        file("Track Extended Mix.wav", 3),
        file(".DS_Store", 4),
        dir("Stems", vec![file("Lead Mix.wav", 5), file("Bass.wav", 6)]),
        dir(".git", vec![file("Secret Mix.wav", 7)]),
        file("a.txt", 8),
        file("cover.PNG", 9),
    ];
    let r = scan("/x", &Place::Folder, &entries).unwrap();
    assert_eq!(r.folder, "/x");
    assert_eq!(
        names(&r.files),
        vec![
            ("cover", "cover.PNG"),
            ("extended_mix", "Track Extended Mix.wav"),
            ("radio_mix", "Track Radio Mix.wav"),
            ("stems", "Bass.wav"),
            ("stems", "Lead Mix.wav"),
            ("undefined", "a.txt"),
            ("undefined", "notes.txt"),
        ]
    );
    assert_eq!(r.undefined_count, 2);
    assert!(r.has_extended_master);
    let master = &r.files[1];
    assert_eq!(master.path, "/x/Track Extended Mix.wav");
    assert_eq!(master.ext, "wav");
    assert_eq!(master.size, 3);
    assert_eq!(master.label, "Extended Mix (master)");
    assert_eq!(master.role, "master");
    assert_eq!(master.upload_field.as_deref(), Some("file"));
    assert!(master.is_master);
    assert!(r.files.iter().filter(|f| f.category == "stems").all(|f| !f.is_master));
}

#[test]
fn scan_without_an_extended_master() {
    let r = scan("/x", &Place::Folder, &vec![file("Radio Mix.wav", 1)]).unwrap();
    assert!(!r.has_extended_master);
    assert_eq!(r.undefined_count, 0);
    let r = scan("/x", &Place::Folder, &Vec::new()).unwrap();
    assert!(r.files.is_empty() && !r.has_extended_master);
}

#[test]
fn scan_of_a_file_looks_at_its_folder() {
    let place = Place::InFolder { parent: "/music".to_string() };
    let r = scan("/music/a.wav", &place, &vec![file("a.wav", 1)]).unwrap();
    assert_eq!(r.folder, "/music");
    assert_eq!(root_of("/music/a.wav", &place).unwrap(), "/music");
}

#[test]
fn scanned_folder_of_stems_has_no_master() {
    for folder in ["Stems", "/music/Stems", "/music/Stems/", "C:\\music\\My STEMS\\\\"] {
        let r = scan(folder, &Place::Folder, &vec![file("Lead Mix.wav", 1)]).unwrap();
        assert_eq!(names(&r.files), vec![("stems", "Lead Mix.wav")], "{}", folder);
        assert!(!r.files[0].is_master);
        assert!(!r.has_extended_master);
    }
    // The folder that a dragged file lies in counts as well.
    let place = Place::InFolder { parent: "/music/Stems".to_string() };
    let r = scan("/music/Stems/Lead Mix.wav", &place, &vec![file("Lead Mix.wav", 1)]).unwrap();
    assert_eq!(names(&r.files), vec![("stems", "Lead Mix.wav")]);
    // The folders above the scanned one do not.
    let r = scan("/Stems/Track", &Place::Folder, &vec![file("Lead Mix.wav", 1)]).unwrap();
    assert_eq!(names(&r.files), vec![("extended_mix", "Lead Mix.wav")]);
    assert!(r.has_extended_master);
}

#[test]
fn folders_are_told_by_their_names() {
    assert_eq!(name_of_folder("/a/b"), "b");
    assert_eq!(name_of_folder("/a/b//"), "b");
    assert_eq!(name_of_folder("b"), "b");
    assert_eq!(name_of_folder("/"), "");
    assert_eq!(name_of_folder(""), "");
    assert!(root_in_stems("/a/Stems/"));
    assert!(!root_in_stems("/Stems/a"));
    let r = scan_entries("/x".to_string(), true, &vec![file("Lead Mix.wav", 1)]);
    assert_eq!((r.folder.as_str(), r.files[0].category.as_str()), ("/x", "stems"));
}

#[test]
fn scan_of_nothing_is_an_error() {
    assert_eq!(scan("/none", &Place::Missing, &Vec::new()).unwrap_err(), "Folder not found: /none");
    assert_eq!(scan("/odd", &Place::Elsewhere, &Vec::new()).unwrap_err(), "Path is not a folder: /odd");
}

#[test]
fn archive_of_stems_shows_its_wavs() {
    let wavs = vec![ZippedWav { filename: "Kick Mix.wav".to_string(), path: "/tmp/Kick Mix.wav".to_string(), size: 7 }];
    let zip = Entry::file("Stems.zip".to_string(), "/x/Stems.zip".to_string(), 100, wavs);
    let r = scan("/x", &Place::Folder, &vec![zip]).unwrap();
    assert_eq!(names(&r.files), vec![("stems", "Kick Mix.wav"), ("stems", "Stems.zip")]);
    let stem = &r.files[0];
    assert_eq!((stem.label.as_str(), stem.role.as_str(), stem.ext.as_str()), ("Stem (from zip)", "skip", "wav"));
    assert_eq!((stem.upload_field.as_deref(), stem.is_master, stem.size), (None, false, 7));
    assert_eq!(r.files[1].upload_field.as_deref(), Some("xf_stems"));
}

#[test]
fn other_archives_stay_closed() {
    let wavs = vec![ZippedWav { filename: "a.wav".to_string(), path: "/tmp/a.wav".to_string(), size: 7 }];
    let zip = Entry::file("Project.zip".to_string(), "/x/Project.zip".to_string(), 100, wavs);
    let r = scan("/x", &Place::Folder, &vec![zip]).unwrap();
    assert_eq!(names(&r.files), vec![("project", "Project.zip")]);
}

#[test]
fn folders_are_read_five_levels_deep() {
    let mut level = vec![file("deep Mix.wav", 1)];
    for i in 0..5 {
        level = vec![dir(&format!("d{}", i), level)];
    }
    assert_eq!(scan("/x", &Place::Folder, &level).unwrap().files.len(), 1);
    let deeper = vec![dir("d", level)];
    assert_eq!(scan("/x", &Place::Folder, &deeper).unwrap().files.len(), 0);
    let mut out = Vec::new();
    walk(&deeper, false, 6, &mut out);
    assert!(out.is_empty());
}

#[test]
fn equal_files_keep_their_order() {
    let entries = vec![
        dir("b", vec![file("a.txt", 1)]),
        dir("a", vec![file("a.txt", 2)]),
        file("a.txt", 3),
    ];
    let r = scan("/x", &Place::Folder, &entries).unwrap();
    let sizes: Vec<u64> = r.files.iter().map(|f| f.size).collect();
    assert_eq!(sizes, vec![1, 2, 3]);
}

/// The order agrees with the one of the standard library.
#[test]
fn files_are_sorted_like_texts() {
    let words = ["b", "", "é", "a", "ab", "B", "z", "a", "\u{10000}", "\u{ffff}"];
    let mut entries = Vec::new();
    for (i, w) in words.iter().enumerate() {
        entries.push(file(&format!("x{}.txt", w), i as u64));
        entries.push(file(&format!("x{} mix.wav", w), 100 + i as u64));
    }
    let mut found = Vec::new();
    walk(&entries, false, 0, &mut found);
    let mut expected = found.clone();
    expected.sort_by_key(|f| (f.category == "undefined", f.category.clone(), f.filename.clone()));
    let sorted = sort_files(found);
    let sizes = |v: &[ScannedFile]| v.iter().map(|f| f.size).collect::<Vec<u64>>();
    assert_eq!(sizes(&sorted), sizes(&expected));
}

#[test]
fn what_the_listing_reads() {
    assert!(enters("stems", 1));
    assert!(enters("x", 5));
    assert!(!enters("x", 6));
    assert!(!enters(".git", 1));
    assert!(stems_inside(&lower_name("My STEMS"), false));
    assert!(stems_inside("x", true));
    assert!(!stems_inside("x", false));
    assert!(unpacks("stems.zip", "zip", false));
    assert!(unpacks("x.zip", "zip", true));
    assert!(!unpacks("x.zip", "zip", false));
    assert!(!unpacks(".stems.zip", "zip", false));
    assert!(!unpacks("stems.wav", "wav", false));
}

#[test]
fn archive_entries_lose_their_folders() {
    assert_eq!(wav_base("Stems/Drums/Kick.WAV").as_deref(), Some("Kick.WAV"));
    assert_eq!(wav_base("..\\..\\evil.wav").as_deref(), Some("evil.wav"));
    assert_eq!(wav_base("a.wav").as_deref(), Some("a.wav"));
    assert_eq!(wav_base("a/.wav").as_deref(), Some(".wav"));
    assert_eq!(wav_base("a.wav/"), None);
    assert_eq!(wav_base("readme.txt"), None);
    assert_eq!(base_of("a/b\\c"), "c");
    assert_eq!(base_of("a/"), "");
    assert_eq!(base_of(""), "");
    assert_eq!(lower_name("ÀB.Wav"), "àb.wav");
}
