use beatbank::catalog::{add_beat, fetch_beats, Catalog};
use beatbank::enrich::{apply_analysis, finish_ingest, Analysis};
use beatbank::error::CatalogError;
use beatbank::probe::{duration_from_params, ProbeParams};

/// A minimal PCM WAV file: 8-bit mono at `sample_rate`, `seconds` long.
fn wav_bytes(sample_rate: u32, seconds: u32) -> Vec<u8> {
    let data_len = sample_rate * seconds;
    let mut out = Vec::new();
    out.extend_from_slice(b"RIFF");
    out.extend_from_slice(&(36 + data_len).to_le_bytes());
    out.extend_from_slice(b"WAVE");
    out.extend_from_slice(b"fmt ");
    out.extend_from_slice(&16u32.to_le_bytes());
    out.extend_from_slice(&1u16.to_le_bytes()); // PCM
    out.extend_from_slice(&1u16.to_le_bytes()); // mono
    out.extend_from_slice(&sample_rate.to_le_bytes());
    out.extend_from_slice(&sample_rate.to_le_bytes()); // byte rate
    out.extend_from_slice(&1u16.to_le_bytes()); // block align
    out.extend_from_slice(&8u16.to_le_bytes()); // bits per sample
    out.extend_from_slice(b"data");
    out.extend_from_slice(&data_len.to_le_bytes());
    out.resize(out.len() + data_len as usize, 0u8);
    out
}

/// The host-side header parse: the same symphonia calls the application
/// makes before handing the plain parameters to the library.
fn probe_params(data: &[u8]) -> Option<ProbeParams> {
    let mss = symphonia::core::io::MediaSourceStream::new(
        Box::new(std::io::Cursor::new(data.to_vec())),
        symphonia::core::io::MediaSourceStreamOptions::default(),
    );
    let hint = symphonia::core::probe::Hint::new();
    let probed = symphonia::default::get_probe()
        .format(&hint, mss, &Default::default(), &Default::default())
        .ok()?;
    let track = probed.format.tracks().first()?;
    Some(ProbeParams {
        n_frames: track.codec_params.n_frames,
        time_base: track.codec_params.time_base.map(|t| (t.numer, t.denom)),
    })
}

#[test]
fn probe_reads_duration_from_container_header() {
    let media = wav_bytes(8000, 180);
    assert_eq!(duration_from_params(probe_params(&media)), Some(180));
    let short = wav_bytes(44100, 3);
    assert_eq!(duration_from_params(probe_params(&short)), Some(3));
}

#[test]
fn probe_of_unrecognized_bytes_yields_nothing() {
    assert!(probe_params(b"this is not a media container").is_none());
    assert!(probe_params(&[]).is_none());
    assert_eq!(duration_from_params(None), None);
}

#[test]
fn duration_formula_truncates_whole_seconds() {
    // 3.5 seconds worth of frames at 44100 Hz: truncated, not rounded.
    let frames = 44100u64 * 3 + 22050;
    let r = duration_from_params(Some(ProbeParams {
        n_frames: Some(frames),
        time_base: Some((1, 44100)),
    }));
    assert_eq!(r, Some(3));
    // A degenerate time base gives no result.
    assert_eq!(
        duration_from_params(Some(ProbeParams { n_frames: Some(frames), time_base: Some((1, 0)) })),
        None
    );
    assert_eq!(
        duration_from_params(Some(ProbeParams { n_frames: Some(frames), time_base: None })),
        None
    );
    // A missing frame count counts as zero frames.
    assert_eq!(
        duration_from_params(Some(ProbeParams { n_frames: None, time_base: Some((1, 44100)) })),
        Some(0)
    );
}

#[test]
fn insert_with_invalid_media_still_succeeds_without_duration() {
    let mut cat = Catalog::new();
    let garbage: &[u8] = b"not a media container at all";
    let b = add_beat(&mut cat, "broken", "/broken.bin", probe_params(garbage)).unwrap();
    assert!(b.duration.is_none());
    assert_eq!(fetch_beats(&cat).len(), 1);
}

#[test]
fn ingest_probe_and_analysis_end_to_end() {
    let mut cat = Catalog::new();
    let media = wav_bytes(8000, 180);
    let b = add_beat(&mut cat, "track1", "/music/track1.wav", probe_params(&media)).unwrap();
    assert_eq!(b.duration, Some(180));
    assert!(b.musical_key.is_none());
    assert!(b.bpm.is_none());

    let outcome = Ok(Analysis { musical_key: "Am".to_string(), bpm: 95.5f64.to_bits() });
    finish_ingest(&mut cat, b.id, outcome).unwrap();

    let stored = fetch_beats(&cat).into_iter().find(|x| x.id == b.id).unwrap();
    assert_eq!(stored.duration, Some(180));
    assert_eq!(stored.musical_key.as_deref(), Some("Am"));
    assert_eq!(stored.bpm.map(f64::from_bits), Some(95.5));
}

#[test]
fn ingest_with_failing_analyzer_keeps_the_committed_row() {
    let mut cat = Catalog::new();
    let media = wav_bytes(8000, 2);
    let b = add_beat(&mut cat, "track2", "/music/track2.wav", probe_params(&media)).unwrap();

    let outcome: Result<Analysis, String> = Err("analyzer runtime unavailable".to_string());
    let r = finish_ingest(&mut cat, b.id, outcome);
    match r {
        Err(CatalogError::AnalyzerError(msg)) => {
            assert_eq!(msg, "analyzer runtime unavailable");
        },
        other => panic!("expected an analyzer error, got {:?}", other),
    }

    // The row was committed before the analyzer ran and stays committed,
    // with the derived fields unset.
    let stored = fetch_beats(&cat).into_iter().find(|x| x.id == b.id).unwrap();
    assert_eq!(stored.duration, Some(2));
    assert!(stored.musical_key.is_none());
    assert!(stored.bpm.is_none());
}

#[test]
fn enrichment_of_missing_beat_is_not_found() {
    let mut cat = Catalog::new();
    let analysis = Analysis { musical_key: "C".to_string(), bpm: 120.0f64.to_bits() };
    assert!(matches!(apply_analysis(&mut cat, 12, analysis), Err(CatalogError::NotFound)));
}

#[test]
fn enrichment_is_retryable_by_id() {
    let mut cat = Catalog::new();
    let b = add_beat(&mut cat, "retry", "/retry.wav", None).unwrap();
    let failed: Result<Analysis, String> = Err("timeout".to_string());
    assert!(finish_ingest(&mut cat, b.id, failed).is_err());
    // A later retry with a good result lands on the same row.
    let analysis = Analysis { musical_key: "F#m".to_string(), bpm: 128.0f64.to_bits() };
    apply_analysis(&mut cat, b.id, analysis).unwrap();
    let stored = fetch_beats(&cat).into_iter().find(|x| x.id == b.id).unwrap();
    assert_eq!(stored.musical_key.as_deref(), Some("F#m"));
    assert_eq!(stored.bpm.map(f64::from_bits), Some(128.0));
}
