use quadio::reader::{
    check_format, loop_end, loop_length_from_labels, loop_length_from_list, loop_start_from_cue, metadata_of,
    Metadata, WavFormat,
};

fn format(channels: u16, bits: u16, integer: bool) -> WavFormat {
    WavFormat { channels, sample_rate: 8000, bits_per_sample: bits, integer }
}

#[test]
fn cue_body_gives_first_offset() {
    let mut body = vec![2, 0, 0, 0];
    for offset in [0x01020304u32, 7] {
        body.extend_from_slice(&[0; 20]);
        body.extend_from_slice(&offset.to_le_bytes());
    }
    assert_eq!(loop_start_from_cue(&body), Some(0x01020304));
    assert_eq!(loop_start_from_cue(&body[..27].to_vec()), None);
    assert_eq!(loop_start_from_cue(&vec![1, 0]), None);
    assert_eq!(loop_start_from_cue(&vec![]), None);
}

fn ltxt(length: u32, tag: &[u8; 4]) -> Vec<u8> {
    let mut sub = b"ltxt".to_vec();
    sub.extend_from_slice(&20u32.to_le_bytes());
    sub.extend_from_slice(&0u32.to_le_bytes());
    sub.extend_from_slice(&length.to_le_bytes());
    sub.extend_from_slice(tag);
    sub.extend_from_slice(&[b' '; 6]);
    sub.extend_from_slice(&[0, 0]);
    sub
}

#[test]
fn list_body_gives_mark_length() {
    let mut body = b"adtl".to_vec();
    body.extend(ltxt(1234, b"mark"));
    assert_eq!(loop_length_from_list(&body), Some(1234));
    let mut other = b"adtl".to_vec();
    other.extend(ltxt(1234, b"rgn "));
    other.extend(ltxt(99, b"mark"));
    assert_eq!(loop_length_from_list(&other), None);
    assert_eq!(loop_length_from_list(&b"adtl".to_vec()), None);
    assert_eq!(loop_length_from_labels(&vec![(5, *b"mark"), (6, *b"mark")]), Some(5));
    assert_eq!(loop_length_from_labels(&vec![(5, *b"Mark")]), None);
    assert_eq!(loop_length_from_labels(&vec![]), None);
}

#[test]
fn loop_end_is_absent_on_overflow() {
    assert_eq!(loop_end(Some(10), Some(5)), Some(15));
    assert_eq!(loop_end(Some(u32::MAX), Some(1)), None);
    assert_eq!(loop_end(None, Some(1)), None);
    assert_eq!(loop_end(Some(3), None), None);
}

#[test]
fn sample_count_is_clamped_to_the_loop_end() {
    let f = format(1, 16, true);
    let m = metadata_of(f, 100, Some(10), Some(40));
    assert_eq!(m, Metadata { sample_rate: 8000, sample_count: 50, loop_start: Some(10), end: Some(50), bits_per_sample: 16 });
    assert_eq!(metadata_of(f, 100, Some(10), Some(400)).sample_count, 100);
    assert_eq!(metadata_of(f, 100, Some(10), None).sample_count, 100);
    let overflow = metadata_of(f, 100, Some(u32::MAX), Some(2));
    assert_eq!(overflow.end, None);
    assert_eq!(overflow.loop_start, None);
    assert_eq!(overflow.sample_count, 100);
    assert_eq!(metadata_of(f, 100, Some(7), None).loop_start, Some(7));
}

#[test]
fn format_checks() {
    assert_eq!(check_format(format(2, 16, true)), Err("Too many channels".to_string()));
    assert_eq!(check_format(format(1, 32, false)), Err("Float samples are unsupported".to_string()));
    assert_eq!(check_format(format(1, 24, true)), Err("Samples must be 8- or 16-bits".to_string()));
    assert_eq!(check_format(format(1, 8, true)), Ok(()));
    assert_eq!(check_format(format(1, 16, true)), Ok(()));
}

fn container(channels: u16, bits: u16, format: hound::SampleFormat, frames: usize) -> Vec<u8> {
    let spec = hound::WavSpec { channels, sample_rate: 8000, bits_per_sample: bits, sample_format: format };
    let mut cursor = std::io::Cursor::new(Vec::new());
    {
        let mut writer = hound::WavWriter::new(&mut cursor, spec).unwrap();
        for k in 0..frames * channels as usize {
            if format == hound::SampleFormat::Float {
                writer.write_sample(k as f32 / 100.0).unwrap();
            } else {
                writer.write_sample(k as i32).unwrap();
            }
        }
        writer.finalize().unwrap();
    }
    cursor.into_inner()
}

#[test]
fn decoding_refuses_unsupported_formats() {
    let mut stereo = quadio::reader::QWaveReader::new(container(2, 16, hound::SampleFormat::Int, 4)).unwrap();
    assert_eq!(stereo.collect_samples(), Err("Too many channels".to_string()));
    let mut float = quadio::reader::QWaveReader::new(container(1, 32, hound::SampleFormat::Float, 4)).unwrap();
    assert_eq!(float.collect_samples(), Err("Float samples are unsupported".to_string()));
    let mut wide = quadio::reader::QWaveReader::new(container(1, 24, hound::SampleFormat::Int, 4)).unwrap();
    assert_eq!(wide.collect_samples(), Err("Samples must be 8- or 16-bits".to_string()));
    let mut ok = quadio::reader::QWaveReader::new(container(1, 16, hound::SampleFormat::Int, 4)).unwrap();
    assert_eq!(ok.collect_samples(), Ok(vec![0, 1, 2, 3]));
    let m = ok.metadata();
    assert_eq!(m, Metadata { sample_rate: 8000, sample_count: 4, loop_start: None, end: None, bits_per_sample: 16 });
}

#[test]
fn eight_bit_container_is_widened() {
    let mut r = quadio::reader::QWaveReader::new(container(1, 8, hound::SampleFormat::Int, 4)).unwrap();
    assert_eq!(r.collect_samples(), Ok(vec![0, 256, 512, 768]));
    assert_eq!(r.metadata().bits_per_sample, 8);
}

#[test]
fn short_cue_chunk_is_malformed() {
    let mut bytes = container(1, 16, hound::SampleFormat::Int, 4);
    bytes.extend_from_slice(b"cue ");
    bytes.extend_from_slice(&2u32.to_le_bytes());
    bytes.extend_from_slice(&[0, 0]);
    let riff = (bytes.len() - 8) as u32;
    bytes[4..8].copy_from_slice(&riff.to_le_bytes());
    let r = quadio::reader::QWaveReader::new(bytes);
    assert_eq!(r.err(), Some("Malformed cue chunk".to_string()));
}
