use daw_engine::transport::Transport;

#[test]
fn tick_advances_linearly() {
    let mut t = Transport::new();
    t.play();
    let (r, rest) = t.tick(512);
    assert_eq!(r.start, 0);
    assert_eq!(r.end, 512);
    assert!(rest.is_none());
    assert_eq!(t.position, 512);
}

#[test]
fn tick_wraps_at_loop_end_exactly() {
    let mut t = Transport::new();
    t.set_loop(true, 0, 1000);
    t.seek(800);
    let (first, second) = t.tick(512);
    let second = second.expect("block straddling the loop end must split");
    assert_eq!(first.start, 800);
    assert_eq!(first.end, 1000);
    assert_eq!(second.start, 0);
    assert_eq!(second.end, 312);
    // the two ranges sum to exactly the block size, no gap, no overlap
    assert_eq!((first.end - first.start) + (second.end - second.start), 512);
    assert_eq!(t.position, 312);
}

#[test]
fn tick_block_ending_exactly_at_loop_end_wraps_to_loop_start() {
    let mut t = Transport::new();
    t.set_loop(true, 0, 1000);
    t.seek(488);
    let (first, second) = t.tick(512);
    let second = second.expect("a block reaching the loop end wraps");
    assert_eq!(first.start, 488);
    assert_eq!(first.end, 1000);
    // the remainder is empty and the position lands on the loop start
    assert_eq!(second.start, 0);
    assert_eq!(second.end, 0);
    assert_eq!(t.position, 0);
}

#[test]
fn loop_keeps_cycling_when_blocks_divide_it_evenly() {
    let mut t = Transport::new();
    t.set_loop(true, 0, 960);
    t.play();
    // two 480-sample blocks cover the loop exactly; the third starts over
    let (r, _) = t.tick(480);
    assert_eq!((r.start, r.end), (0, 480));
    let (r, rest) = t.tick(480);
    assert_eq!((r.start, r.end), (480, 960));
    assert!(rest.is_some());
    assert_eq!(t.position, 0);
    let (r, _) = t.tick(480);
    assert_eq!((r.start, r.end), (0, 480));
}

#[test]
fn tick_wraps_into_nonzero_loop_start() {
    let mut t = Transport::new();
    t.set_loop(true, 100, 600);
    t.seek(590);
    let (first, second) = t.tick(64);
    let second = second.expect("must wrap");
    assert_eq!(first.start, 590);
    assert_eq!(first.end, 600);
    assert_eq!(second.start, 100);
    assert_eq!(second.end, 154);
}

#[test]
fn stop_keeps_position_rewind_clears_it() {
    let mut t = Transport::new();
    t.play();
    let _ = t.tick(1000);
    t.stop();
    assert_eq!(t.position, 1000);
    assert!(!t.playing);
    t.play();
    t.stop_and_rewind();
    assert_eq!(t.position, 0);
    assert!(!t.playing);
}

#[test]
fn seek_sets_position() {
    let mut t = Transport::new();
    t.seek(48000);
    assert_eq!(t.position, 48000);
}

#[test]
fn tempo_and_signature_do_not_move_position() {
    let mut t = Transport::new();
    t.seek(1234);
    t.set_tempo(90000);
    t.set_time_signature(3, 4);
    assert_eq!(t.position, 1234);
    assert_eq!(t.tempo_mbpm, 90000);
    assert_eq!(t.sig_num, 3);
    assert_eq!(t.sig_den, 4);
}

#[test]
fn millibeats_from_sample_position() {
    let mut t = Transport::new();
    // one second at 120 BPM is two beats
    t.seek(48000);
    assert_eq!(t.position_millibeats(48000), 2000);
    // half a second is one beat
    t.seek(24000);
    assert_eq!(t.position_millibeats(48000), 1000);
}
