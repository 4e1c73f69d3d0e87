use gpw_uploader::parts::{max_bytes_for, max_label_for, part_count, part_range, PART_SIZE};
use gpw_uploader::progress::{ChunkNext, ProgressMeter};

/// The parts tile the file: no holes, no overlap, and the lengths add up.
fn assert_tiles(total: u64) {
    let n = part_count(total);
    let mut esperado_offset = 0u64;
    let mut soma = 0u64;
    for p in 1..=n {
        let (offset, len) = match part_range(p, total) {
            Some(r) => r,
            None => panic!("pedaco {} de {} bytes devia existir", p, total),
        };
        assert_eq!(offset, esperado_offset, "buraco/sobreposicao no pedaco {} ({} bytes)", p, total);
        assert!(len > 0, "pedaco {} vazio ({} bytes)", p, total);
        assert!(len <= PART_SIZE, "pedaco {} maior que o teto ({} bytes)", p, total);
        esperado_offset += len;
        soma += len;
    }
    assert_eq!(soma, total, "a soma dos pedacos nao da o ficheiro ({} bytes)", total);
    assert!(part_range(n + 1, total).is_none(), "pedaco a mais em {} bytes", total);
}

#[test]
fn pedacos_ladrilham_o_ficheiro() {
    for total in [
        1,
        5 * 1024 * 1024,
        PART_SIZE,
        PART_SIZE + 1,
        PART_SIZE * 2,
        PART_SIZE * 3 + 12345,
        1_298_361_000,
        2 * 1024 * 1024 * 1024,
    ] {
        assert_tiles(total);
    }
}

#[test]
fn ultimo_pedaco_leva_o_resto() {
    let total = PART_SIZE * 2 + 7;
    assert_eq!(part_range(3, total), Some((PART_SIZE * 2, 7)));
    assert_eq!(part_count(total), 3);
}

#[test]
fn pedaco_invalido_ou_fora_do_ficheiro_nao_existe() {
    assert_eq!(part_range(0, 1000), None, "nao ha pedaco 0 (o S3 conta de 1)");
    assert_eq!(part_range(2, PART_SIZE), None, "ficheiro de 1 pedaco nao tem 2o");
}

#[test]
fn ficheiro_no_teto_do_slot_cabe_no_limite_de_partes_do_servidor() {
    const MIN_PART: u64 = 5 * 1024 * 1024;
    assert!(PART_SIZE >= MIN_PART, "o R2 recusa pedacos abaixo de 5MB (exceto o ultimo)");
    for fkey in ["stems", "master", "project"] {
        let teto = max_bytes_for(fkey);
        let max_parts_servidor = teto.div_ceil(MIN_PART) as u32;
        assert!(
            part_count(teto) <= max_parts_servidor,
            "{}: {} pedacos > {} que o servidor assina",
            fkey,
            part_count(teto),
            max_parts_servidor
        );
    }
    assert_eq!(max_bytes_for("stems"), 2 * 1024 * 1024 * 1024);
    assert_eq!(max_bytes_for("master"), 1024 * 1024 * 1024);
}

#[test]
fn empty_file_has_no_parts() {
    assert_eq!(part_count(0), 0);
    assert_eq!(part_range(1, 0), None);
}

#[test]
fn limits_are_named() {
    assert_eq!(max_label_for("stems"), "2GB");
    assert_eq!(max_label_for("master"), "1GB");
}

/// The parts of a file, put one behind the other, are the file.
#[test]
fn parts_rebuild_the_file() {
    let total = PART_SIZE + 1000;
    let file: Vec<u8> = (0..total).map(|i| (i % 251) as u8).collect();
    let mut rebuilt: Vec<u8> = Vec::new();
    for p in 1..=part_count(total) {
        let (offset, len) = part_range(p, total).unwrap();
        rebuilt.extend_from_slice(&file[offset as usize..(offset + len) as usize]);
    }
    assert!(rebuilt == file);
}

#[test]
fn progress_is_reported_once_per_percent() {
    let mut meter = ProgressMeter::new("xf_stems", "Stems.zip", 0, 1000);
    let mut seen = Vec::new();
    for _ in 0..1000 {
        match meter.chunk(false, Some(1)) {
            ChunkNext::Pass { report: Some(p) } => {
                assert_eq!((p.field.as_str(), p.filename.as_str(), p.total), ("xf_stems", "Stems.zip", 1000));
                seen.push((p.sent, p.percent));
            }
            ChunkNext::Pass { report: None } => {}
            ChunkNext::Cancelled => panic!("not cancelled"),
        }
    }
    assert_eq!(seen.len(), 101);
    assert_eq!(seen[0], (1, 0));
    assert_eq!(seen[1], (10, 1));
    assert_eq!(seen[100], (1000, 100));
}

#[test]
fn progress_counts_from_the_beginning_of_the_file() {
    let mut meter = ProgressMeter::new("file", "a.wav", 500, 1000);
    match meter.chunk(false, Some(250)) {
        ChunkNext::Pass { report: Some(p) } => assert_eq!((p.sent, p.percent), (750, 75)),
        _ => panic!("a report was due"),
    }
    // A chunk that could not be read changes nothing.
    assert!(matches!(meter.chunk(false, None), ChunkNext::Pass { report: None }));
    // A file that grew does not pass 100 percent.
    match meter.chunk(false, Some(10_000)) {
        ChunkNext::Pass { report: Some(p) } => assert_eq!((p.sent, p.percent), (10_750, 100)),
        _ => panic!("a report was due"),
    }
}

#[test]
fn progress_of_an_empty_file_is_complete() {
    let mut meter = ProgressMeter::new("file", "a.wav", 0, 0);
    match meter.chunk(false, Some(0)) {
        ChunkNext::Pass { report: Some(p) } => assert_eq!(p.percent, 100),
        _ => panic!("a report was due"),
    }
}

#[test]
fn cancelled_stream_breaks_off() {
    let mut meter = ProgressMeter::new("file", "a.wav", 0, 10);
    assert!(matches!(meter.chunk(true, Some(5)), ChunkNext::Cancelled));
}
