use voxtral::audio::{
    assemble, extract_features, frame_window, mel_filters, mel_frames, mel_runs, mel_threads,
    pad_to_chunk, pad_to_frames, CHUNK_FRAMES, CHUNK_SAMPLES, HOP_LENGTH, N_FFT, N_MELS,
    PAD_FRAMES,
};

/// A spectrogram of `frames` frames, each value different.
fn spectrogram(frames: usize) -> Vec<f32> {
    (0..N_MELS * frames).map(|i| 1.0 + i as f32).collect()
}

#[test]
fn one_chunk_of_audio_is_two_chunks_of_features() {
    let frames = mel_frames(CHUNK_SAMPLES);
    assert_eq!(N_MELS * frames, N_MELS * (CHUNK_FRAMES + PAD_FRAMES));
    let features = extract_features(&vec![0.0f32; N_MELS * frames], 0.0);
    assert_eq!(features.chunks, 2);
    assert_eq!(features.data.len(), 2 * N_MELS * CHUNK_FRAMES);
}

#[test]
fn the_chunk_padding_is_zeros() {
    let features = extract_features(&spectrogram(mel_frames(CHUNK_SAMPLES)), 0.0);
    let second = &features.data[N_MELS * CHUNK_FRAMES..];
    for m in 0..N_MELS {
        let row = &second[m * CHUNK_FRAMES..(m + 1) * CHUNK_FRAMES];
        assert!(row[PAD_FRAMES..].iter().all(|&v| v == 0.0));
        assert!(row[..PAD_FRAMES].iter().all(|&v| v != 0.0));
    }
}

#[test]
fn features_are_the_spectrogram_cut_into_chunks() {
    let mel = spectrogram(mel_frames(CHUNK_SAMPLES));
    let frames = mel.len() / N_MELS;
    let features = extract_features(&mel, 0.0);
    for m in [0, 17, N_MELS - 1] {
        for t in [0, 1, CHUNK_FRAMES - 1] {
            assert_eq!(
                features.data[m * CHUNK_FRAMES + t].to_bits(),
                mel[m * frames + t].to_bits()
            );
        }
        let t = 5;
        assert_eq!(
            features.data[(N_MELS + m) * CHUNK_FRAMES + t].to_bits(),
            mel[m * frames + CHUNK_FRAMES + t].to_bits()
        );
    }
}

#[test]
fn pad_to_chunk_leaves_exact_multiples_unchanged() {
    let a = vec![0.5f32; 8];
    assert_eq!(pad_to_chunk(&a, 4, 0.0), a);
}

#[test]
fn pad_to_chunk_rounds_up_and_zero_fills() {
    let p = pad_to_chunk(&[1.0f32; 5], 4, 0.0);
    assert_eq!(p.len(), 8);
    assert_eq!(&p[..5], &[1.0; 5]);
    assert_eq!(&p[5..], &[0.0; 3]);
}

#[test]
fn pad_to_chunk_pads_sub_chunk_input_to_one_chunk() {
    assert_eq!(pad_to_chunk(&[1.0f32], 4, 0.0).len(), 4);
}

#[test]
fn pad_to_chunk_empty_stays_empty() {
    let none: [f32; 0] = [];
    assert!(pad_to_chunk(&none, 4, 0.0).is_empty());
}

/// The bank is made up: the one that is shipped is not part of the library.
#[test]
fn mel_filters_decode_to_expected_count() {
    let bank: Vec<u8> =
        (0..25_728u32).flat_map(|i| (i as f32 * 1e-4).to_le_bytes()).collect();
    assert_eq!(bank.len(), 102_912);
    assert_eq!(bank.len() % 4, 0, "embedded mel blob must be f32-aligned");
    let f: Vec<f32> = mel_filters(&bank).into_iter().map(f32::from_bits).collect();
    assert_eq!(f.len(), N_MELS * (N_FFT / 2 + 1));
    assert!(f.iter().all(|x| x.is_finite()));
}

#[test]
fn silence_behind_a_clip_changes_nothing() {
    let a: Vec<u16> = (0..1_000).map(|i| i + 1).collect();
    let mut b = a.clone();
    b.resize(240_159, 0);
    assert_eq!(mel_frames(a.len()), mel_frames(b.len()));
    assert_eq!(pad_to_frames(&a, 0), pad_to_frames(&b, 0));
    b.push(0);
    assert_ne!(mel_frames(a.len()), mel_frames(b.len()));
}

#[test]
fn mel_filters_are_little_endian_words() {
    let mut bytes = Vec::new();
    for w in [1.5f32, -0.25, 1e-7] {
        bytes.extend(w.to_le_bytes());
    }
    bytes.push(9);
    let read: Vec<f32> = mel_filters(&bytes).into_iter().map(f32::from_bits).collect();
    assert_eq!(read, [1.5, -0.25, 1e-7]);
    let bank = vec![0u8; 4 * N_MELS * (N_FFT / 2 + 1)];
    assert_eq!(mel_filters(&bank).len(), N_MELS * (N_FFT / 2 + 1));
}

#[test]
fn frames_are_rounded_up_to_a_half_chunk_and_one_more() {
    assert_eq!(mel_frames(0), 1_500);
    assert_eq!(mel_frames(159), 1_500);
    assert_eq!(mel_frames(160), 3_000);
    assert_eq!(mel_frames(CHUNK_SAMPLES), 4_500);
    assert_eq!(mel_frames(2 * CHUNK_SAMPLES), 7_500);
}

#[test]
fn framed_samples_end_with_the_last_hop() {
    let padded = pad_to_frames(&[7u8; 200], 0);
    assert_eq!(padded.len(), 3_000 * HOP_LENGTH);
    assert!(padded[..200].iter().all(|&x| x == 7));
    assert!(padded[200..].iter().all(|&x| x == 0));
    for frame in [0, 1, 2_999] {
        let (start, available) = frame_window(frame, padded.len());
        assert_eq!(start, frame * 160);
        assert_eq!(available, if frame == 2_999 { 160 } else { 400 });
    }
}

#[test]
fn which_thread_computes_a_frame_does_not_matter() {
    let n = 7;
    let energy = |f: usize, m: usize| (f * 1_000 + m) as u32;
    for threads in [1, 2, 3, 7, 12] {
        let runs: Vec<(usize, Vec<u32>)> = mel_runs(n, threads)
            .into_iter()
            .map(|(start, end)| {
                let out = (start..end).flat_map(|f| (0..N_MELS).map(move |m| energy(f, m)));
                (start, out.collect())
            })
            .collect();
        assert!(runs.len() <= threads);
        let mel = assemble(&runs, n, 0);
        for f in 0..n {
            for m in 0..N_MELS {
                assert_eq!(mel[m * n + f], energy(f, m));
            }
        }
    }
}

#[test]
fn a_frame_no_run_covers_is_zero() {
    let mel = assemble(&vec![(1, vec![5u8; N_MELS + 3])], 3, 0);
    assert_eq!(&mel[..6], &[0, 5, 0, 0, 5, 0]);
}

#[test]
fn runs_are_contiguous() {
    assert_eq!(mel_runs(10, 3), [(0, 4), (4, 8), (8, 10)]);
    assert_eq!(mel_runs(4, 3), [(0, 2), (2, 4)]);
    assert_eq!(mel_threads(3), 3);
    assert_eq!(mel_threads(64), 12);
}
