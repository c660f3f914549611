use murmure::recorder::{DurationLimit, SilenceAutoStop, VadGate, SILENCE_AUTO_STOP_MS};

#[test]
fn vad_holds_silence_and_writes_pre_roll_before_speech() {
    let mut g = VadGate::new(3);
    assert_eq!(g.process(&vec![1, 2], false), Vec::<i16>::new());
    assert_eq!(g.process(&vec![3, 4], false), Vec::<i16>::new());
    // only the last 3 silent samples are kept as pre-roll
    assert_eq!(g.process(&vec![10, 11], true), vec![2, 3, 4, 10, 11]);
    assert_eq!(g.process(&vec![12], true), vec![12]);
}

#[test]
fn vad_writes_tail_padding_after_speech() {
    let mut g = VadGate::new(4);
    assert_eq!(g.process(&vec![7], true), vec![7]);
    // first silent tick after speech is written, 4 - 2 = 2 samples of padding left
    assert_eq!(g.process(&vec![1, 2], false), vec![1, 2]);
    // padding still running: written, padding exhausted
    assert_eq!(g.process(&vec![3, 4, 5], false), vec![3, 4, 5]);
    // beyond the padding: held back
    assert_eq!(g.process(&vec![6], false), Vec::<i16>::new());
    assert_eq!(g.process(&vec![8], true), vec![6, 8]);
}

#[test]
fn vad_without_padding_drops_silence() {
    let mut g = VadGate::new(0);
    assert_eq!(g.process(&vec![1, 2, 3], false), Vec::<i16>::new());
    assert_eq!(g.process(&vec![9], true), vec![9]);
    assert_eq!(g.process(&vec![4], false), vec![4]);
    assert_eq!(g.process(&vec![5], false), Vec::<i16>::new());
}

#[test]
fn auto_stop_after_silence_following_speech() {
    let mut a = SilenceAutoStop::new();
    // silence before any speech never stops
    assert!(!a.observe(false, true, 0));
    assert!(!a.observe(false, true, 5000));
    // speech, then silence
    assert!(!a.observe(true, false, 6000));
    assert!(!a.observe(false, true, 6100));
    assert!(!a.observe(false, true, 6100 + SILENCE_AUTO_STOP_MS - 1));
    assert!(a.observe(false, true, 6100 + SILENCE_AUTO_STOP_MS));
    // only once
    assert!(!a.observe(false, true, 20000));
}

#[test]
fn auto_stop_silence_restarts_on_sound() {
    let mut a = SilenceAutoStop::new();
    assert!(!a.observe(true, false, 0));
    assert!(!a.observe(false, true, 100));
    assert!(!a.observe(false, false, 1000));
    assert!(!a.observe(false, true, 1200));
    assert!(!a.observe(false, true, 2000));
    assert!(a.observe(false, true, 2700));
}

#[test]
fn duration_limit_fires_once() {
    let mut d = DurationLimit::new();
    assert!(!d.check(10));
    assert!(!d.check(299));
    assert!(d.check(300));
    assert!(!d.check(301));
}
