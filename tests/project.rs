use quadio::project::{LoopMarkers, Project};
use quadio::reader::{widen_samples, Metadata, QWaveReader};

fn metadata(rate: u32, bits: u16, loop_start: Option<u32>, end: Option<u32>, count: u32) -> Metadata {
    Metadata { sample_rate: rate, sample_count: count, loop_start, end, bits_per_sample: bits }
}

fn project(samples: Vec<i16>, rate: u32, loop_start: Option<u32>, end: Option<u32>) -> Project {
    let n = samples.len() as u32;
    Project::from_decoded(samples, metadata(rate, 16, loop_start, end, n)).unwrap()
}

#[test]
fn loop_defaults_to_buffer_end() {
    let p = project(vec![1; 10], 8000, Some(3), None);
    assert_eq!(p.loop_markers(), Ok(Some(LoopMarkers { cue_offset: 3, length: None })));
    let q = project(vec![1; 10], 8000, Some(3), Some(7));
    assert_eq!(q.loop_markers(), Ok(Some(LoopMarkers { cue_offset: 3, length: Some(4) })));
    let r = project(vec![1; 10], 8000, None, None);
    assert_eq!(r.loop_markers(), Ok(None));
}

#[test]
fn unsupported_bit_depth_is_rejected() {
    let r = Project::from_decoded(vec![0; 4], metadata(8000, 24, None, None, 4));
    assert_eq!(r.err(), Some("Unsupported bit depth".to_string()));
}

#[test]
fn validate_reports_each_problem() {
    let empty = project(vec![], 8000, None, None);
    assert_eq!(empty.validate(), Err("No audio samples".to_string()));
    let mut p = project(vec![0; 10], 8000, None, None);
    assert_eq!(p.validate(), Ok(()));
    p.set_loop(Some(2..11));
    assert_eq!(p.validate(), Err("Loop extends beyond file end".to_string()));
    p.set_loop(Some(5..4));
    assert_eq!(p.validate(), Err("Loop ends before it begins".to_string()));
    p.set_loop(Some(5..5));
    assert_eq!(p.validate(), Err("Loop length is 0 samples".to_string()));
    p.set_loop(Some(0..10));
    assert_eq!(p.validate(), Ok(()));
    assert_eq!(p.sample_count(), 10);
    assert_eq!(p.sample_rate(), 8000);
}

#[test]
fn blend_window_of_four_uses_smoothstep_weights() {
    // A = samples [4, 8) before the loop start, B = samples [12, 16) before the end.
    let mut samples = vec![0i16; 20];
    let a = [1000i16, -2000, 3000, 7];
    let b = [-1000i16, 2000, 100, 5];
    for i in 0..4 {
        samples[4 + i] = a[i];
        samples[12 + i] = b[i];
    }
    let mut p = project(samples.clone(), 8000, Some(8), Some(16));
    assert_eq!(p.blend(4), Ok(()));
    let weights = [0.0f64, 0.15625, 0.5, 0.84375];
    let out = p.rendered_samples();
    for i in 0..4 {
        let w = weights[i];
        let expected = (w * a[i] as f64 + (1.0 - w) * b[i] as f64).round() as i16;
        assert_eq!(out[12 + i], expected);
    }
    // 0.15625 * -2000 + 0.84375 * 2000 = 1375; 0.5 * 3000 + 0.5 * 100 = 1550
    assert_eq!(out[13], 1375);
    assert_eq!(out[14], 1550);
    assert_eq!(out[12], -1000);
    for k in (0..12).chain(16..20) {
        assert_eq!(out[k], samples[k]);
    }
}

#[test]
fn blend_rounds_halves_away_from_zero() {
    // weight 0.5 at i = 2 of 4: (1 + 2) / 2 = 1.5 -> 2, (-1 + -2) / 2 = -1.5 -> -2
    let mut samples = vec![0i16; 12];
    samples[2] = 1;
    samples[6] = 2;
    let mut p = project(samples, 8000, Some(4), Some(8));
    assert_eq!(p.blend(4), Ok(()));
    assert_eq!(p.rendered_samples()[6], 2);
    let mut samples = vec![0i16; 12];
    samples[2] = -1;
    samples[6] = -2;
    let mut q = project(samples, 8000, Some(4), Some(8));
    assert_eq!(q.blend(4), Ok(()));
    assert_eq!(q.rendered_samples()[6], -2);
}

#[test]
fn blend_extremes_stay_in_range() {
    let mut samples = vec![i16::MIN; 40];
    for k in 20..40 {
        samples[k] = i16::MAX;
    }
    let mut p = project(samples, 8000, Some(20), Some(40));
    assert_eq!(p.blend(20), Ok(()));
    let out = p.rendered_samples();
    assert_eq!(out[20], i16::MAX);
    assert!(out[39] < -32000);
}

#[test]
fn blend_errors() {
    let mut none = project(vec![0; 10], 8000, None, None);
    assert_eq!(none.blend(2), Err("No loop to blend".to_string()));
    let mut lead = project(vec![0; 10], 8000, Some(2), Some(8));
    assert_eq!(lead.blend(3), Err("Insufficient lead before loop for blend".to_string()));
    let mut long = project(vec![0; 10], 8000, Some(6), Some(8));
    assert_eq!(long.blend(3), Err("Blend window longer than loop".to_string()));
    let mut bad = project(vec![0; 10], 8000, None, None);
    bad.set_loop(Some(4..12));
    assert_eq!(bad.blend(1), Err("Loop extends beyond file end".to_string()));
}

#[test]
fn default_window_is_a_fiftieth_of_the_rate() {
    // 200 Hz / 50 = 4 samples; a lead of 3 is too short, 4 is enough.
    let mut short = project(vec![0; 20], 200, Some(3), Some(10));
    assert_eq!(short.blend_default_window(), Err("Insufficient lead before loop for blend".to_string()));
    let mut ok = project(vec![100; 20], 200, Some(4), Some(10));
    assert_eq!(ok.blend_default_window(), Ok(()));
}

#[test]
fn eight_bit_samples_survive_widen_and_narrow() {
    let raw: Vec<i16> = (-128i16..=127).collect();
    let widened = widen_samples(8, &raw);
    assert_eq!(widened[0], -32768);
    assert_eq!(widened[255], 127 << 8);
    let n = widened.len() as u32;
    let p = Project::from_decoded(widened, metadata(8000, 8, None, None, n)).unwrap();
    assert_eq!(p.bits_per_sample(), 8);
    assert_eq!(p.rendered_samples(), raw);
    let sixteen: Vec<i16> = vec![i16::MIN, -1, 0, 1, 12345, i16::MAX];
    assert_eq!(widen_samples(16, &sixteen), sixteen);
    let q = project(sixteen.clone(), 8000, None, None);
    assert_eq!(q.rendered_samples(), sixteen);
}

fn reread(bytes: Vec<u8>) -> (Metadata, Vec<i16>) {
    let mut reader = QWaveReader::new(bytes).unwrap();
    let samples = reader.collect_samples().unwrap();
    (reader.metadata(), samples)
}

#[test]
fn loop_survives_write_and_read() {
    let samples: Vec<i16> = (0..100).map(|k| (k * 300 - 15000) as i16).collect();
    let p = project(samples.clone(), 22050, Some(10), Some(60));
    let (m, decoded) = reread(p.to_wav_bytes().unwrap());
    assert_eq!(m.loop_start, Some(10));
    assert_eq!(m.end, Some(60));
    assert_eq!(m.sample_rate, 22050);
    assert_eq!(m.bits_per_sample, 16);
    assert_eq!(m.sample_count, 60);
    assert_eq!(decoded, samples[..60].to_vec());
    let back = Project::from_decoded(decoded, m).unwrap();
    // Only the samples up to the loop end were decoded, so the loop now runs
    // to the end of the buffer.
    assert_eq!(back.sample_count(), 60);
    assert_eq!(back.loop_markers(), Ok(Some(LoopMarkers { cue_offset: 10, length: None })));
}

#[test]
fn loop_to_the_end_writes_no_length() {
    let samples: Vec<i16> = (0..50).map(|k| k as i16).collect();
    let p = project(samples.clone(), 8000, Some(20), Some(50));
    let (m, decoded) = reread(p.to_wav_bytes().unwrap());
    assert_eq!(m.loop_start, Some(20));
    assert_eq!(m.end, None);
    assert_eq!(m.sample_count, 50);
    assert_eq!(decoded, samples);
}

#[test]
fn loopless_export_has_no_markers() {
    let p = project(vec![5, 6, 7], 8000, None, None);
    let (m, decoded) = reread(p.to_wav_bytes().unwrap());
    assert_eq!(m.loop_start, None);
    assert_eq!(m.end, None);
    assert_eq!(decoded, vec![5, 6, 7]);
}

#[test]
fn eight_bit_export_reads_back() {
    let raw: Vec<i16> = vec![-128, -1, 0, 1, 127, 64];
    let widened = widen_samples(8, &raw);
    let p = Project::from_decoded(widened.clone(), metadata(11025, 8, Some(1), Some(4), 6)).unwrap();
    let (m, decoded) = reread(p.to_wav_bytes().unwrap());
    assert_eq!(m.bits_per_sample, 8);
    assert_eq!(m.loop_start, Some(1));
    assert_eq!(m.end, Some(4));
    assert_eq!(decoded, widened[..4].to_vec());
}

#[test]
fn unvalidated_loop_is_written_as_is() {
    let mut p = project(vec![0; 10], 8000, None, None);
    p.set_loop(Some(4..30));
    let (m, _) = reread(p.to_wav_bytes().unwrap());
    assert_eq!(m.loop_start, Some(4));
    assert_eq!(m.end, Some(30));
    p.set_loop(Some(6..2));
    assert_eq!(p.to_wav_bytes(), Err("Loop ends before it begins".to_string()));
}

#[test]
fn from_reader_takes_the_decoded_loop() {
    let samples: Vec<i16> = (0..40).map(|k| k as i16).collect();
    let p = project(samples, 16000, Some(5), Some(25));
    let reader = QWaveReader::new(p.to_wav_bytes().unwrap()).unwrap();
    let q = Project::from_reader(reader).unwrap();
    assert_eq!(q.sample_count(), 25);
    assert_eq!(q.sample_rate(), 16000);
    assert_eq!(q.loop_markers(), Ok(Some(LoopMarkers { cue_offset: 5, length: None })));
}

#[test]
fn garbage_is_not_a_container() {
    assert!(QWaveReader::new(vec![1, 2, 3, 4, 5, 6, 7, 8, 9, 10, 11, 12]).is_err());
}

#[test]
fn zero_rate_is_not_written() {
    let p = project(vec![1, 2], 0, None, None);
    assert_eq!(p.to_wav_bytes(), Err("Sample rate out of range".to_string()));
}

#[test]
fn decoding_twice_gives_the_same_samples() {
    let p = project(vec![3, 4, 5, 6], 8000, None, None);
    let mut r = QWaveReader::new(p.to_wav_bytes().unwrap()).unwrap();
    assert_eq!(r.collect_samples(), Ok(vec![3, 4, 5, 6]));
    assert_eq!(r.collect_samples(), Ok(vec![3, 4, 5, 6]));
}

#[test]
fn overflowing_loop_markers_give_no_loop() {
    let m = quadio::reader::metadata_of(
        quadio::reader::WavFormat { channels: 1, sample_rate: 8000, bits_per_sample: 16, integer: true },
        3,
        Some(u32::MAX - 1),
        Some(5),
    );
    let p = Project::from_decoded(vec![1, 2, 3], m).unwrap();
    assert_eq!(p.loop_markers(), Ok(None));
}
