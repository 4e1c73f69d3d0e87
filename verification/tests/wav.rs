use gpw_uploader::wav::{read_wav_head, HeadStep, WavHead, ANALYSIS_SECS};

/// A synthetic mono PCM WAV file of 8 bits: 8 bytes a second.
fn wav_fixture(data_len: u32) -> Vec<u8> {
    let mut w = Vec::new();
    w.extend_from_slice(b"RIFF");
    w.extend_from_slice(&(4 + 24 + 8 + data_len).to_le_bytes());
    w.extend_from_slice(b"WAVE");
    w.extend_from_slice(b"fmt ");
    w.extend_from_slice(&16u32.to_le_bytes());
    w.extend_from_slice(&1u16.to_le_bytes());
    w.extend_from_slice(&1u16.to_le_bytes());
    w.extend_from_slice(&8u32.to_le_bytes());
    w.extend_from_slice(&8u32.to_le_bytes());
    w.extend_from_slice(&1u16.to_le_bytes());
    w.extend_from_slice(&8u16.to_le_bytes());
    w.extend_from_slice(b"data");
    w.extend_from_slice(&data_len.to_le_bytes());
    w.extend(std::iter::repeat(0xABu8).take(data_len as usize));
    w
}

#[test]
fn corta_wav_longo_e_mantem_header_valido() {
    // 2s * 8 bytes/s = 16 bytes
    let out = read_wav_head(&wav_fixture(100), 2).unwrap();
    assert_eq!(&out[0..4], b"RIFF");
    assert_eq!(out.len(), 12 + 24 + 8 + 16);
    let riff_size = u32::from_le_bytes(out[4..8].try_into().unwrap());
    assert_eq!(riff_size as usize, out.len() - 8);
    let data_size = u32::from_le_bytes(out[40..44].try_into().unwrap());
    assert_eq!(data_size, 16);
}

#[test]
fn wav_curto_ou_invalido_devolve_none() {
    // 8 bytes = 1s of audio, which fits 90s.
    assert!(read_wav_head(&wav_fixture(8), 90).is_none());
    assert!(read_wav_head(b"not a wav at all", 90).is_none());
    assert_eq!(ANALYSIS_SECS, 90);
}

#[test]
fn other_chunks_are_kept() {
    let mut w = wav_fixture(100);
    // A chunk of odd length, padded to an even one, before the audio.
    let extra = [b'L', b'I', b'S', b'T', 3, 0, 0, 0, 1, 2, 3, 0];
    for (i, b) in extra.iter().enumerate() {
        w.insert(36 + i, *b);
    }
    let out = read_wav_head(&w, 2).unwrap();
    assert_eq!(out.len(), 12 + 24 + 12 + 8 + 16);
    assert_eq!(&out[36..48], &extra);
    assert_eq!(&out[48..52], b"data");
    assert_eq!(&out[56..], &[0xABu8; 16]);
}

#[test]
fn head_ends_between_frames() {
    let mut w = wav_fixture(100);
    // Frames of 3 bytes: 16 bytes hold 5 of them.
    w[32] = 3;
    let out = read_wav_head(&w, 2).unwrap();
    assert_eq!(out.len(), 12 + 24 + 8 + 15);
    // Frames of 0 bytes count as 1.
    w[32] = 0;
    assert_eq!(read_wav_head(&w, 2).unwrap().len(), 12 + 24 + 8 + 16);
}

#[test]
fn damaged_files_are_not_cut() {
    let w = wav_fixture(100);
    // Cut short inside each part of the file.
    for n in [0, 4, 11, 15, 30, 38, 45] {
        assert!(read_wav_head(&w[..n], 2).is_none(), "{} bytes", n);
    }
    // The audio that is there suffices.
    assert!(read_wav_head(&w[..60], 2).is_some());
    assert!(read_wav_head(&w[..59], 2).is_none());
    // No format before the audio.
    let mut headless = w[..12].to_vec();
    headless.extend_from_slice(&w[36..]);
    assert!(read_wav_head(&headless, 2).is_none());
    // A byte rate of zero.
    let mut still = w.clone();
    still[28] = 0;
    assert!(read_wav_head(&still, 2).is_none());
    // Another form than WAVE.
    let mut other = w.clone();
    other[8] = b'A';
    assert!(read_wav_head(&other, 2).is_none());
}

#[test]
fn any_number_of_seconds_is_fine() {
    assert!(read_wav_head(&wav_fixture(100), u64::MAX).is_none());
    assert_eq!(read_wav_head(&wav_fixture(100), 0).unwrap().len(), 12 + 24 + 8);
}

#[test]
fn huge_headers_are_not_read() {
    let w = wav_fixture(100);
    let mut big = w[..12].to_vec();
    big.extend_from_slice(b"JUNK");
    big.extend_from_slice(&1_000_002u32.to_le_bytes());
    big.extend(std::iter::repeat(0u8).take(1_000_002));
    big.extend_from_slice(&w[12..]);
    assert!(read_wav_head(&big, 2).is_none());
}

/// Reading the file piece by piece gives what reading it whole gives.
#[test]
fn reader_asks_for_what_it_needs() {
    let w = wav_fixture(100);
    let mut reader = WavHead::new(2);
    let mut pos = 0usize;
    let mut asked = Vec::new();
    loop {
        let n = reader.needs();
        asked.push(n);
        let piece = w[pos..pos + n].to_vec();
        pos += n;
        match reader.feed(piece) {
            HeadStep::More(next) => reader = next,
            HeadStep::Done(head) => {
                assert_eq!(head, read_wav_head(&w, 2));
                assert!(head.is_some());
                break;
            }
        }
    }
    assert_eq!(asked, vec![12, 8, 16, 8, 16]);
}
