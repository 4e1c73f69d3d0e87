use gpw_uploader::converter::{
    lame_args, lame_result, lines, tail_lines, ConvertedFile, LameRun, MasterInput, Progress,
};

fn master() -> MasterInput {
    MasterInput {
        path: "/x/Extended Mix.wav".to_string(),
        field: "xf_extended_mp3".to_string(),
        out_name: "ExtendedMaster.mp3".to_string(),
        label: "Extended Mix (MP3)".to_string(),
    }
}

#[test]
fn lame_is_called_for_320_kbit() {
    assert_eq!(lame_args("in.wav", "out.mp3"), vec!["--cbr", "-b", "320", "-q", "0", "in.wav", "out.mp3"]);
}

/// The lines are those of the standard library.
#[test]
fn lines_end_at_line_feeds() {
    for text in ["", "a", "a\n", "a\nb", "a\r\nb\r\n", "\n\n", "a\r", "a\r\r\nb", "\r\n", "x\ry\n", "é\nß"] {
        let expected: Vec<String> = text.lines().map(String::from).collect();
        assert_eq!(lines(text), expected, "{:?}", text);
    }
}

#[test]
fn tail_is_the_last_three_lines_backwards() {
    assert_eq!(tail_lines(""), "");
    assert_eq!(tail_lines("a"), "a");
    assert_eq!(tail_lines("a\nb\n"), "b | a");
    assert_eq!(tail_lines("a\nb\nc"), "c | b | a");
    assert_eq!(tail_lines("a\nb\nc\nd\n"), "d | c | b");
}

#[test]
fn runs_of_lame_are_judged() {
    assert_eq!(lame_result(LameRun::Ended { success: true, stderr: b"noise".to_vec() }), Ok(()));
    assert_eq!(
        lame_result(LameRun::Ended { success: false, stderr: b"one\ntwo\n".to_vec() }),
        Err("LAME falhou: two | one".to_string())
    );
    // Bytes that are no text are marked.
    assert_eq!(
        lame_result(LameRun::Ended { success: false, stderr: vec![0x61, 0xff] }),
        Err("LAME falhou: a\u{fffd}".to_string())
    );
    assert_eq!(
        lame_result(LameRun::Unavailable { error: "gone".to_string() }),
        Err("LAME sidecar indisponível: gone".to_string())
    );
    assert_eq!(
        lame_result(LameRun::NotRun { error: "denied".to_string() }),
        Err("Falha ao executar LAME: denied".to_string())
    );
}

#[test]
fn conversions_are_reported() {
    let p = Progress::start(&master());
    assert_eq!((p.status.as_str(), p.error), ("start", None));
    assert_eq!((p.field.as_str(), p.label.as_str()), ("xf_extended_mp3", "Extended Mix (MP3)"));
    let p = Progress::end(&master(), &Ok(()));
    assert_eq!((p.status.as_str(), p.error), ("done", None));
    let p = Progress::end(&master(), &Err("bad".to_string()));
    assert_eq!((p.status.as_str(), p.error.as_deref()), ("error", Some("bad")));
    assert_eq!(p.out_name, "ExtendedMaster.mp3");
}

#[test]
fn converted_file_succeeded_or_failed() {
    let f = ConvertedFile::of(master(), "/tmp/e.mp3".to_string(), 9, Ok(()));
    assert!(f.ok && f.error.is_none());
    assert_eq!((f.source.as_str(), f.path.as_str(), f.size), ("/x/Extended Mix.wav", "/tmp/e.mp3", 9));
    let f = ConvertedFile::of(master(), "/tmp/e.mp3".to_string(), 9, Err("bad".to_string()));
    assert!(!f.ok);
    assert_eq!((f.size, f.error.as_deref()), (0, Some("bad")));
    assert_eq!((f.field.as_str(), f.label.as_str()), ("xf_extended_mp3", "Extended Mix (MP3)"));
}
