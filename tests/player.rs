use quadio::player::{
    check_source, choose_config, preferred_rate, scale_index, ConfigChoice, ConfigRange, PlayerStateTag,
    StreamRequest, Transport,
};
use std::cell::RefCell;
use std::sync::atomic::{AtomicUsize, Ordering};
use std::sync::Arc;

fn range(channels: u16, min_rate: u32, max_rate: u32, float: bool) -> ConfigRange {
    ConfigRange { channels, min_rate, max_rate, float }
}

#[test]
fn scale_index_rounds_down_and_refuses_overflow() {
    assert_eq!(scale_index(44100, 48000, 44100), Some(48000));
    assert_eq!(scale_index(48000, 44100, 1), Some(0));
    assert_eq!(scale_index(48000, 44100, 100), Some(91));
    assert_eq!(scale_index(8000, 48000, 3), Some(18));
    assert_eq!(scale_index(1, u32::MAX, usize::MAX), None);
}

#[test]
fn rate_selection_prefers_dvd_rate_for_multiples_of_8000() {
    assert_eq!(preferred_rate(8000), 48000);
    assert_eq!(preferred_rate(32000), 48000);
    assert_eq!(preferred_rate(44100), 44100);
    assert_eq!(preferred_rate(11025), 44100);
    let cfgs = vec![range(1, 8000, 96000, true)];
    assert_eq!(choose_config(&cfgs, 8000), Some(ConfigChoice { index: 0, sample_rate: 48000 }));
    assert_eq!(choose_config(&cfgs, 44100), Some(ConfigChoice { index: 0, sample_rate: 44100 }));
}

#[test]
fn rate_selection_falls_back_to_the_other_rate() {
    let cd_only = vec![range(1, 44100, 44100, true)];
    assert_eq!(choose_config(&cd_only, 8000), Some(ConfigChoice { index: 0, sample_rate: 44100 }));
    let dvd_only = vec![range(1, 48000, 48000, true)];
    assert_eq!(choose_config(&dvd_only, 22050), Some(ConfigChoice { index: 0, sample_rate: 48000 }));
    let neither = vec![range(1, 8000, 22050, true)];
    assert_eq!(choose_config(&neither, 8000), None);
    assert_eq!(choose_config(&vec![], 8000), None);
}

#[test]
fn rate_selection_prefers_mono_then_stereo_float_ranges() {
    let cfgs = vec![
        range(2, 8000, 96000, true),
        range(1, 8000, 96000, false),
        range(1, 44100, 48000, true),
    ];
    assert_eq!(choose_config(&cfgs, 8000), Some(ConfigChoice { index: 2, sample_rate: 48000 }));
    let stereo = vec![range(6, 8000, 96000, true), range(2, 44100, 44100, true)];
    assert_eq!(choose_config(&stereo, 8000), Some(ConfigChoice { index: 1, sample_rate: 44100 }));
    let other = vec![range(1, 8000, 96000, false), range(6, 8000, 96000, true)];
    assert_eq!(choose_config(&other, 44100), Some(ConfigChoice { index: 1, sample_rate: 44100 }));
    // A mono range that offers neither rate still excludes the stereo ones.
    let mono_unusable = vec![range(1, 8000, 8000, true), range(2, 8000, 96000, true)];
    assert_eq!(choose_config(&mono_unusable, 8000), None);
}

#[test]
fn construction_failures() {
    assert_eq!(check_source(10, 8000, Some(10), None), Err("Loop start beyond input buffer".to_string()));
    assert_eq!(check_source(10, 8000, None, Some(11)), Err("End beyond input buffer".to_string()));
    assert_eq!(check_source(10, 0, None, None), Err("Sample rate must be non-zero".to_string()));
    assert_eq!(check_source(0, 8000, None, None), Err("Loop start beyond input buffer".to_string()));
    assert_eq!(check_source(10, 8000, Some(9), Some(10)), Ok(()));
    let t = Transport::<()>::new(10, 8000, Some(10), None, 48000, 60, Arc::new(AtomicUsize::new(0)));
    assert_eq!(t.err(), Some("Loop start beyond input buffer".to_string()));
    let t = Transport::<()>::new(10, 8000, None, Some(11), 48000, 60, Arc::new(AtomicUsize::new(0)));
    assert_eq!(t.err(), Some("End beyond input buffer".to_string()));
    // 48 kHz down to 8 kHz: loop [4, 5) scales to [0, 0).
    let t = Transport::<()>::new(10, 48000, Some(4), Some(5), 8000, 2, Arc::new(AtomicUsize::new(0)));
    assert_eq!(t.err(), Some("Loop start is AT or AFTER end".to_string()));
}

#[test]
fn construction_rescales_loop_bounds() {
    let t = Transport::<()>::new(100, 8000, Some(10), Some(50), 48000, 1000, Arc::new(AtomicUsize::new(0))).unwrap();
    assert_eq!(t.playback_rate(), 48000);
    assert_eq!(t.state(), PlayerStateTag::Stopped);
    // The end is cut to the converted buffer when that is shorter.
    let short = Transport::<()>::new(100, 8000, Some(10), None, 48000, 500, Arc::new(AtomicUsize::new(0))).unwrap();
    let log = RefCell::new(Vec::new());
    let mut short = short;
    short.play(0, true, |q: StreamRequest| -> Result<(), String> {
        log.borrow_mut().push(q);
        Ok(())
    }).unwrap();
    assert_eq!(log.borrow()[0], StreamRequest { offset: 0, loop_start: Some(60), end: 500 });
}

fn opener<'a>(log: &'a RefCell<Vec<StreamRequest>>) -> impl FnOnce(StreamRequest) -> Result<u32, String> + 'a {
    move |q| {
        log.borrow_mut().push(q);
        Ok(7)
    }
}

#[test]
fn pause_then_resume_keeps_playhead_and_looping() {
    let head = Arc::new(AtomicUsize::new(0));
    let mut t = Transport::<u32>::new(1000, 8000, Some(100), Some(900), 48000, 6000, head.clone()).unwrap();
    let log = RefCell::new(Vec::new());
    t.play(10, true, opener(&log)).unwrap();
    assert_eq!(t.state(), PlayerStateTag::PlayingLooped);
    assert_eq!(log.borrow()[0], StreamRequest { offset: 60, loop_start: Some(600), end: 5400 });
    assert_eq!(head.load(Ordering::Relaxed), 60);
    // The realtime callback moves the playhead on.
    head.store(3003, Ordering::Relaxed);
    t.pause();
    assert_eq!(t.state(), PlayerStateTag::Paused);
    let before = t.playhead();
    assert_eq!(before, 500);
    t.pause();
    assert_eq!(t.state(), PlayerStateTag::Paused);
    t.resume(opener(&log)).unwrap();
    assert_eq!(t.state(), PlayerStateTag::PlayingLooped);
    assert_eq!(log.borrow()[1], StreamRequest { offset: 3003, loop_start: Some(600), end: 5400 });
    assert_eq!(t.playhead(), before);
    // Resuming while playing opens nothing.
    t.resume(opener(&log)).unwrap();
    assert_eq!(log.borrow().len(), 2);
}

#[test]
fn pause_of_unlooped_playback_resumes_unlooped() {
    let head = Arc::new(AtomicUsize::new(0));
    let mut t = Transport::<u32>::new(1000, 44100, None, None, 44100, 1000, head.clone()).unwrap();
    let log = RefCell::new(Vec::new());
    t.play(0, false, opener(&log)).unwrap();
    assert_eq!(t.state(), PlayerStateTag::Playing);
    head.store(250, Ordering::Relaxed);
    assert_eq!(t.samples_remaining(), 750);
    t.pause();
    assert_eq!(t.playhead(), 250);
    t.resume(opener(&log)).unwrap();
    assert_eq!(t.state(), PlayerStateTag::Playing);
    assert_eq!(log.borrow()[1], StreamRequest { offset: 250, loop_start: None, end: 1000 });
}

#[test]
fn stop_rewinds_and_resume_starts_over() {
    let head = Arc::new(AtomicUsize::new(0));
    let mut t = Transport::<u32>::new(1000, 44100, Some(5), None, 44100, 1000, head.clone()).unwrap();
    let log = RefCell::new(Vec::new());
    t.play(400, true, opener(&log)).unwrap();
    t.stop();
    assert_eq!(t.state(), PlayerStateTag::Stopped);
    assert_eq!(head.load(Ordering::Relaxed), 0);
    assert_eq!(t.playhead(), 0);
    t.resume(opener(&log)).unwrap();
    assert_eq!(t.state(), PlayerStateTag::Playing);
    assert_eq!(log.borrow()[1], StreamRequest { offset: 0, loop_start: None, end: 1000 });
    head.store(1000, Ordering::Relaxed);
    assert_eq!(t.samples_remaining(), 0);
}

#[test]
fn failed_open_leaves_transport_stopped() {
    let head = Arc::new(AtomicUsize::new(0));
    let mut t = Transport::<u32>::new(1000, 44100, None, None, 44100, 1000, head.clone()).unwrap();
    let log = RefCell::new(Vec::new());
    t.play(0, false, opener(&log)).unwrap();
    let r = t.play(10, false, |_q: StreamRequest| -> Result<u32, String> { Err("no device".to_string()) });
    assert_eq!(r, Err("no device".to_string()));
    assert_eq!(t.state(), PlayerStateTag::Stopped);
    assert_eq!(head.load(Ordering::Relaxed), 10);
    let r = t.play(usize::MAX, false, opener(&log));
    assert_eq!(r, Err("Bad playhead position".to_string()));
}

#[test]
fn construction_refuses_unusable_rates_and_sizes() {
    let t = Transport::<()>::new(10, 8000, None, None, 0, 10, Arc::new(AtomicUsize::new(0)));
    assert_eq!(t.err(), Some("Playback rate must be non-zero".to_string()));
    let t = Transport::<()>::new(usize::MAX, 1, None, None, 2, usize::MAX, Arc::new(AtomicUsize::new(0)));
    assert_eq!(t.err(), Some("Scaled end too large".to_string()));
    let big = usize::MAX / 2 + 10;
    let t = Transport::<()>::new(big, 2, None, None, 2, usize::MAX, Arc::new(AtomicUsize::new(0)));
    assert_eq!(t.err(), Some("Scaled end too large".to_string()));
}

#[test]
fn preferred_rate_wins_over_an_earlier_fallback_range() {
    let cfgs = vec![range(1, 44100, 44100, true), range(1, 48000, 48000, true)];
    assert_eq!(choose_config(&cfgs, 8000), Some(ConfigChoice { index: 1, sample_rate: 48000 }));
    let cfgs = vec![range(1, 48000, 48000, true), range(1, 44100, 44100, true)];
    assert_eq!(choose_config(&cfgs, 44100), Some(ConfigChoice { index: 1, sample_rate: 44100 }));
}

#[test]
fn playhead_and_remaining_from_a_stored_position() {
    let t = Transport::<()>::new(1000, 8000, None, None, 48000, 6000, Arc::new(AtomicUsize::new(0))).unwrap();
    assert_eq!(t.playhead_from(0), 0);
    assert_eq!(t.playhead_from(3003), 500);
    assert_eq!(t.playhead_from(9999), 1000);
    assert_eq!(t.remaining_from(0), 1000);
    assert_eq!(t.remaining_from(3003), 499);
    assert_eq!(t.remaining_from(6000), 0);
    assert_eq!(t.remaining_from(7000), 0);
}
