use lord_varys::chunks::{ChunkStager, CHUNK_SAMPLES};
use lord_varys::mixer::MixerQueues;
use lord_varys::sidecar::{check_header, pick_sidecar, sidecar_candidates, PcmFramer, StreamHeader};

#[test]
fn mixer_pairs_only_complete_frames_while_both_open() {
    let mut q: MixerQueues<i32> = MixerQueues::new(true, true);
    q.push_mic(&[1, 2, 3]);
    assert_eq!(q.ready(), 0);
    assert!(q.take_frames().is_empty());
    q.push_sys(&[10, 20]);
    let f = q.take_frames();
    assert_eq!(f, vec![(Some(1), Some(10)), (Some(2), Some(20))]);
    assert_eq!(q.ready(), 0);
}

#[test]
fn mixer_pads_the_closed_side() {
    let mut q: MixerQueues<i32> = MixerQueues::new(true, true);
    q.push_mic(&[1, 2, 3]);
    q.push_sys(&[10]);
    assert_eq!(q.take_frames(), vec![(Some(1), Some(10))]);
    q.close_sys();
    assert_eq!(q.take_frames(), vec![(Some(2), None), (Some(3), None)]);
    q.close_mic();
    assert!(q.is_finished());
    assert!(q.take_frames().is_empty());
}

#[test]
fn mixer_drains_everything_when_both_close() {
    let mut q: MixerQueues<i32> = MixerQueues::new(true, true);
    q.push_mic(&[1]);
    q.push_sys(&[10, 20, 30]);
    let _ = q.take_frames();
    q.close_mic();
    q.close_sys();
    assert_eq!(q.take_frames(), vec![(None, Some(20)), (None, Some(30))]);
    assert_eq!(q.ready(), 0);
}

#[test]
fn mixer_with_one_input_missing_from_the_start() {
    let mut q: MixerQueues<i32> = MixerQueues::new(false, true);
    assert!(!q.is_mic_open() && q.is_sys_open());
    q.push_sys(&[7, 8]);
    assert_eq!(q.take_frames(), vec![(None, Some(7)), (None, Some(8))]);
}

#[test]
fn mixer_session_conserves_samples() {
    let mut q: MixerQueues<u32> = MixerQueues::new(true, true);
    let mut left = Vec::new();
    let mut right = Vec::new();
    let chunks_mic: Vec<Vec<u32>> = vec![vec![1, 2], vec![3], vec![], vec![4, 5, 6]];
    let chunks_sys: Vec<Vec<u32>> = vec![vec![100], vec![101, 102, 103, 104], vec![105]];
    for i in 0..4 {
        q.push_mic(&chunks_mic[i]);
        for (l, r) in q.take_frames() {
            left.extend(l);
            right.extend(r);
        }
        if i < 3 {
            q.push_sys(&chunks_sys[i]);
            for (l, r) in q.take_frames() {
                left.extend(l);
                right.extend(r);
            }
        }
    }
    q.close_mic();
    for (l, r) in q.take_frames() {
        left.extend(l);
        right.extend(r);
    }
    q.close_sys();
    for (l, r) in q.take_frames() {
        left.extend(l);
        right.extend(r);
    }
    assert_eq!(left, vec![1, 2, 3, 4, 5, 6]);
    assert_eq!(right, vec![100, 101, 102, 103, 104, 105]);
}

#[test]
fn header_format_check() {
    let ok = StreamHeader { sample_rate: 48_000, channels: 2, format: "f32".into() };
    assert!(check_header(&ok).is_ok());
    let bad = StreamHeader { sample_rate: 48_000, channels: 2, format: "s16".into() };
    assert_eq!(check_header(&bad).unwrap_err(), "unsupported sidecar format: s16 (expected f32)");
}

#[test]
fn pcm_words_are_little_endian_and_chunk_independent() {
    let samples = [1.0f32, -0.5, 0.25, 3.5];
    let mut bytes = Vec::new();
    for s in samples {
        bytes.extend_from_slice(&s.to_le_bytes());
    }
    let mut whole = PcmFramer::new();
    let w1: Vec<f32> = whole.feed(&bytes).into_iter().map(f32::from_bits).collect();
    assert_eq!(w1, samples.to_vec());

    let mut split = PcmFramer::new();
    let mut got = Vec::new();
    for chunk in [&bytes[0..3], &bytes[3..4], &bytes[4..9], &bytes[9..16]] {
        got.extend(split.feed(chunk).into_iter().map(f32::from_bits));
    }
    assert_eq!(got, samples.to_vec());

    let mut p = PcmFramer::new();
    assert_eq!(p.feed(&[0x01, 0x02, 0x03, 0x04, 0xff]), vec![0x0403_0201]);
    assert_eq!(p.feed(&[0xff, 0xff, 0xff]), vec![0xffff_ffff]);
    assert!(p.feed(&[]).is_empty());
}

#[test]
fn sidecar_search_order() {
    let c = sidecar_candidates(Some("/App/Contents/MacOS"), Some("/App/Contents/Resources/sckit_capture".into()), None, Some("/w/proj"));
    assert_eq!(c[0], "/App/Contents/MacOS/sckit_capture");
    assert_eq!(c[1], "/App/Contents/MacOS/sckit_capture-aarch64-apple-darwin");
    assert_eq!(c[2], "/App/Contents/MacOS/sckit_capture-x86_64-apple-darwin");
    assert_eq!(c[3], "/App/Contents/Resources/sckit_capture");
    assert_eq!(c[4], "/w/proj/src-tauri/binaries/sckit_capture-aarch64-apple-darwin");
    assert_eq!(c[5], "/w/src-tauri/binaries/sckit_capture-aarch64-apple-darwin");
    assert_eq!(c.len(), 4 + 10);
    let d = sidecar_candidates(None, None, Some("/w/proj/src-tauri"), Some("/"));
    assert_eq!(d[0], "/w/proj/src-tauri/binaries/sckit_capture-aarch64-apple-darwin");
    assert_eq!(d[4], "/w/proj/src-tauri/swift-helper/.build/debug/sckit_capture");
    assert_eq!(d[5], "/src-tauri/binaries/sckit_capture-aarch64-apple-darwin");
    assert_eq!(d.len(), 10);
    let e = sidecar_candidates(Some("/App/Contents/MacOS"), None, None, None);
    assert_eq!(e.len(), 3);
    assert_eq!(e[2], "/App/Contents/MacOS/sckit_capture-x86_64-apple-darwin");
}

#[test]
fn sidecar_pick() {
    let c = vec!["a".to_string(), "b".to_string(), "c".to_string()];
    assert_eq!(pick_sidecar(&c, &vec![false, true, true]).unwrap(), "b");
    assert!(pick_sidecar(&c, &vec![false, false, false]).unwrap_err().starts_with("sckit_capture sidecar not found"));
}

#[test]
fn mixer_writes_as_many_frames_as_the_longer_side() {
    let mut q: MixerQueues<u32> = MixerQueues::new(true, true);
    let mut frames = 0;
    q.push_mic(&[1, 2, 3]);
    frames += q.take_frames().len();
    q.push_sys(&[10, 11, 12, 13, 14]);
    frames += q.take_frames().len();
    q.close_mic();
    frames += q.take_frames().len();
    q.push_sys(&[15, 16]);
    frames += q.take_frames().len();
    q.close_sys();
    frames += q.take_frames().len();
    assert!(q.is_finished());
    assert_eq!(frames, 7);
}

#[test]
fn chunks_of_fixed_size() {
    assert_eq!(CHUNK_SAMPLES, 160);
    let mut s: ChunkStager<u32> = ChunkStager::new();
    let first: Vec<u32> = (0..100).collect();
    assert!(s.push_samples(&first).is_empty());
    let second: Vec<u32> = (100..500).collect();
    let chunks = s.push_samples(&second);
    assert_eq!(chunks.len(), 3);
    for (k, c) in chunks.iter().enumerate() {
        let want: Vec<u32> = (160 * k as u32..160 * (k as u32 + 1)).collect();
        assert_eq!(c, &want);
    }
    let rest = s.push_samples(&(500..640).collect::<Vec<u32>>());
    assert_eq!(rest.len(), 1);
    assert_eq!(rest[0], (480..640).collect::<Vec<u32>>());
    assert!(s.push_samples(&[]).is_empty());
}
