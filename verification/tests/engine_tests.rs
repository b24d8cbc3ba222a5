use daw_engine::automation::{CurvePoint, InterpKind, ParamTarget};
use daw_engine::command::{Command, TrackParam};
use daw_engine::engine::{AudioService, AudioSource, EffectHost, NoEffects, Warning};
use daw_engine::model::{Clip, Project, Send, TrackKind, MASTER_ID};
use daw_engine::sample::{OUTPUT_LIMIT, UNIT};

fn source(id: u64, len: usize) -> AudioSource {
    let mut samples: Vec<i64> = Vec::with_capacity(len);
    let mut i: usize = 0;
    while i < len {
        samples.push(((i as i64) % 2001) - 1000);
        i += 1;
    }
    AudioSource { id, samples }
}

fn one_track_project() -> Project {
    let mut p = Project::new(String::from("demo"), 48000);
    assert_eq!(p.apply(Command::AddTrack { id: 1, kind: TrackKind::Audio, color: 0 }), Ok(()));
    let clip = Clip { id: 1, source: 7, start: 0, duration: 48000, offset: 0, gain: UNIT };
    assert_eq!(p.apply(Command::AddClip { track_id: 1, clip }), Ok(()));
    p
}

#[test]
fn end_to_end_half_volume_then_silence() {
    let mut p = one_track_project();
    assert_eq!(
        p.apply(Command::SetTrackParam { track_id: 1, param: TrackParam::Volume(16384) }),
        Ok(())
    );
    let src = source(7, 48000);
    let expected: Vec<i64> = src.samples.iter().map(|s| s / 2).collect();
    let mut svc = AudioService::new(p, vec![src]);
    let mut fx = NoEffects {};
    assert_eq!(svc.submit(Command::Play), Ok(()));
    // 100 blocks of 480 samples cover [0, 48000)
    let mut b: usize = 0;
    while b < 100 {
        let (l, r) = svc.render_block(480, &mut fx);
        assert_eq!(l.len(), 480);
        assert_eq!(r.len(), 480);
        let mut k: usize = 0;
        while k < 480 {
            let want = expected[b * 480 + k];
            assert_eq!(l[k], want);
            assert_eq!(r[k], want);
            k += 1;
        }
        b += 1;
    }
    // past the clip everything is silence
    let (l, r) = svc.render_block(512, &mut fx);
    assert!(l.iter().all(|&s| s == 0));
    assert!(r.iter().all(|&s| s == 0));
    let (pos, _) = svc.poll_telemetry();
    assert_eq!(pos, 48512);
}

#[test]
fn stopped_transport_renders_silence_without_moving() {
    let p = one_track_project();
    let mut svc = AudioService::new(p, vec![source(7, 48000)]);
    let mut fx = NoEffects {};
    let (l, r) = svc.render_block(256, &mut fx);
    assert!(l.iter().all(|&s| s == 0));
    assert!(r.iter().all(|&s| s == 0));
    let (pos, _) = svc.poll_telemetry();
    assert_eq!(pos, 0);
}

#[test]
fn commands_submitted_before_a_block_are_visible_in_it() {
    let p = one_track_project();
    let mut svc = AudioService::new(p, vec![source(7, 48000)]);
    let mut fx = NoEffects {};
    assert_eq!(svc.submit(Command::Play), Ok(()));
    // mute the track before the first render: the very first block is silent
    assert_eq!(
        svc.submit(Command::SetTrackParam { track_id: 1, param: TrackParam::Muted(true) }),
        Ok(())
    );
    let (l, _) = svc.render_block(480, &mut fx);
    assert!(l.iter().all(|&s| s == 0));
    // unmute: the next block carries audio again
    assert_eq!(
        svc.submit(Command::SetTrackParam { track_id: 1, param: TrackParam::Muted(false) }),
        Ok(())
    );
    let (l, _) = svc.render_block(480, &mut fx);
    assert!(l.iter().any(|&s| s != 0));
}

#[test]
fn rendering_across_the_loop_boundary_is_seamless() {
    let mut p = one_track_project();
    assert_eq!(
        p.apply(Command::SetLoop { enabled: true, loop_start: 0, loop_end: 1000 }),
        Ok(())
    );
    let src = source(7, 48000);
    let reference: Vec<i64> = src.samples.clone();
    let mut svc = AudioService::new(p, vec![src]);
    let mut fx = NoEffects {};
    assert_eq!(svc.submit(Command::Seek { position: 800 }), Ok(()));
    assert_eq!(svc.submit(Command::Play), Ok(()));
    let (l, _) = svc.render_block(512, &mut fx);
    assert_eq!(l.len(), 512);
    // first 200 samples come from [800, 1000), the rest wrap to [0, 312)
    let mut k: usize = 0;
    while k < 512 {
        let t = if k < 200 { 800 + k } else { k - 200 };
        assert_eq!(l[k], reference[t]);
        k += 1;
    }
    let (pos, _) = svc.poll_telemetry();
    assert_eq!(pos, 312);
}

#[test]
fn missing_source_renders_silence_and_warns() {
    let p = one_track_project();
    // no sources loaded at all
    let mut svc = AudioService::new(p, Vec::new());
    let mut fx = NoEffects {};
    assert_eq!(svc.submit(Command::Play), Ok(()));
    let (l, r) = svc.render_block(128, &mut fx);
    assert!(l.iter().all(|&s| s == 0));
    assert!(r.iter().all(|&s| s == 0));
    let (_, warnings) = svc.poll_telemetry();
    assert!(warnings
        .iter()
        .any(|w| matches!(w, Warning::MissingSource { clip_id: 1, source: 7 })));
    // the feed drains
    let (_, warnings) = svc.poll_telemetry();
    assert!(warnings.is_empty());
}

struct BlownUp {}

impl EffectHost for BlownUp {
    fn process(
        &mut self,
        _effect_id: u64,
        _track_id: u64,
        input: Vec<i64>,
        _params: &Vec<(u64, i64)>,
    ) -> Vec<i64> {
        input.iter().map(|_| i64::MAX).collect()
    }
}

/// An effect that replaces the block with the value of its parameter 5,
/// so the test can see which parameter values the engine hands over.
struct ParamProbe {}

impl EffectHost for ParamProbe {
    fn process(
        &mut self,
        _effect_id: u64,
        _track_id: u64,
        input: Vec<i64>,
        params: &Vec<(u64, i64)>,
    ) -> Vec<i64> {
        let v = params.iter().find(|p| p.0 == 5).map(|p| p.1).unwrap_or(0);
        input.iter().map(|_| v).collect()
    }
}

#[test]
fn effect_parameter_automation_reaches_the_effect() {
    let mut p = one_track_project();
    p.tracks[0].effects.push(3);
    // parameter 5 ramps linearly from 0 at sample 0 to 960 at sample 960
    let pt0 = CurvePoint { time: 0, value: 0, kind: InterpKind::Linear };
    let pt1 = CurvePoint { time: 960, value: 960, kind: InterpKind::Linear };
    let target = ParamTarget::EffectParam(5);
    assert_eq!(
        p.apply(Command::SetAutomationPoint { track_id: 1, target, point: pt0 }),
        Ok(())
    );
    assert_eq!(
        p.apply(Command::SetAutomationPoint { track_id: 1, target, point: pt1 }),
        Ok(())
    );
    let mut svc = AudioService::new(p, vec![source(7, 48000)]);
    let mut fx = ParamProbe {};
    assert_eq!(svc.submit(Command::Play), Ok(()));
    // the parameter is evaluated once at block start and handed to process
    let (l, _) = svc.render_block(480, &mut fx);
    assert!(l.iter().all(|&s| s == 0));
    let (l, _) = svc.render_block(480, &mut fx);
    assert!(l.iter().all(|&s| s == 480));
}

#[test]
fn non_finite_effect_output_is_silenced_and_clamped() {
    let mut p = one_track_project();
    // give the track an effect chain; the host blows every sample up
    p.tracks[0].effects.push(42);
    let mut svc = AudioService::new(p, vec![source(7, 48000)]);
    let mut fx = BlownUp {};
    assert_eq!(svc.submit(Command::Play), Ok(()));
    let (l, r) = svc.render_block(64, &mut fx);
    for k in 0..64 {
        assert!(l[k] >= -OUTPUT_LIMIT && l[k] <= OUTPUT_LIMIT);
        assert!(r[k] >= -OUTPUT_LIMIT && r[k] <= OUTPUT_LIMIT);
        // the absurd samples were replaced with silence before the fader
        assert_eq!(l[k], 0);
    }
    let (_, warnings) = svc.poll_telemetry();
    assert!(warnings.iter().any(|w| matches!(w, Warning::NonFiniteSample { track_id: 1 })));
}

#[test]
fn muted_track_is_silent_soloed_track_wins() {
    let mut p = Project::new(String::from("mix"), 48000);
    assert_eq!(p.apply(Command::AddTrack { id: 1, kind: TrackKind::Audio, color: 0 }), Ok(()));
    assert_eq!(p.apply(Command::AddTrack { id: 2, kind: TrackKind::Audio, color: 0 }), Ok(()));
    let c1 = Clip { id: 1, source: 7, start: 0, duration: 1000, offset: 0, gain: UNIT };
    let c2 = Clip { id: 1, source: 8, start: 0, duration: 1000, offset: 0, gain: UNIT };
    assert_eq!(p.apply(Command::AddClip { track_id: 1, clip: c1 }), Ok(()));
    assert_eq!(p.apply(Command::AddClip { track_id: 2, clip: c2 }), Ok(()));
    let s7 = AudioSource { id: 7, samples: vec![100; 1000] };
    let s8 = AudioSource { id: 8, samples: vec![7; 1000] };
    let mut svc = AudioService::new(p, vec![s7, s8]);
    let mut fx = NoEffects {};
    assert_eq!(svc.submit(Command::Play), Ok(()));
    // both audible: the master sums them
    let (l, _) = svc.render_block(16, &mut fx);
    assert!(l.iter().all(|&s| s == 107));
    // mute track 2: only track 1 remains
    assert_eq!(
        svc.submit(Command::SetTrackParam { track_id: 2, param: TrackParam::Muted(true) }),
        Ok(())
    );
    let (l, _) = svc.render_block(16, &mut fx);
    assert!(l.iter().all(|&s| s == 100));
    // unmute 2 and solo it: track 1 goes silent
    assert_eq!(
        svc.submit(Command::SetTrackParam { track_id: 2, param: TrackParam::Muted(false) }),
        Ok(())
    );
    assert_eq!(
        svc.submit(Command::SetTrackParam { track_id: 2, param: TrackParam::Solo(true) }),
        Ok(())
    );
    let (l, _) = svc.render_block(16, &mut fx);
    assert!(l.iter().all(|&s| s == 7));
}

#[test]
fn solo_keeps_only_downstream_buses_audible() {
    let mut p = Project::new(String::from("solo"), 48000);
    assert_eq!(p.apply(Command::AddTrack { id: 1, kind: TrackKind::Audio, color: 0 }), Ok(()));
    assert_eq!(p.apply(Command::AddTrack { id: 2, kind: TrackKind::Bus, color: 0 }), Ok(()));
    assert_eq!(p.apply(Command::AddTrack { id: 3, kind: TrackKind::Audio, color: 0 }), Ok(()));
    assert_eq!(p.apply(Command::AddTrack { id: 4, kind: TrackKind::Bus, color: 0 }), Ok(()));
    let c1 = Clip { id: 1, source: 7, start: 0, duration: 1000, offset: 0, gain: UNIT };
    let c3 = Clip { id: 1, source: 8, start: 0, duration: 1000, offset: 0, gain: UNIT };
    assert_eq!(p.apply(Command::AddClip { track_id: 1, clip: c1 }), Ok(()));
    assert_eq!(p.apply(Command::AddClip { track_id: 3, clip: c3 }), Ok(()));
    // track 1 (soloed) feeds bus 2; track 3 feeds bus 4 pre-fader
    let s12 = Send { target: 2, level: UNIT, pre_fader: false };
    let s34 = Send { target: 4, level: UNIT, pre_fader: true };
    assert_eq!(p.apply(Command::AddSend { source: 1, send: s12 }), Ok(()));
    assert_eq!(p.apply(Command::AddSend { source: 3, send: s34 }), Ok(()));
    assert_eq!(
        p.apply(Command::SetTrackParam { track_id: 1, param: TrackParam::Solo(true) }),
        Ok(())
    );
    let s7 = AudioSource { id: 7, samples: vec![100; 1000] };
    let s8 = AudioSource { id: 8, samples: vec![7; 1000] };
    let mut svc = AudioService::new(p, vec![s7, s8]);
    let mut fx = NoEffects {};
    assert_eq!(svc.submit(Command::Play), Ok(()));
    // the soloed track's direct out (100) plus bus 2 carrying it (100);
    // bus 4 is not downstream of any soloed track, so track 3's pre-fader
    // tap never reaches the master
    let (l, _) = svc.render_block(8, &mut fx);
    assert!(l.iter().all(|&s| s == 200));
}

#[test]
fn post_fader_send_to_master_adds_its_level() {
    let mut p = Project::new(String::from("send"), 48000);
    assert_eq!(p.apply(Command::AddTrack { id: 1, kind: TrackKind::Audio, color: 0 }), Ok(()));
    let c = Clip { id: 1, source: 7, start: 0, duration: 1000, offset: 0, gain: UNIT };
    assert_eq!(p.apply(Command::AddClip { track_id: 1, clip: c }), Ok(()));
    let send = Send { target: MASTER_ID, level: UNIT, pre_fader: false };
    assert_eq!(p.apply(Command::AddSend { source: 1, send }), Ok(()));
    let s7 = AudioSource { id: 7, samples: vec![100; 1000] };
    let mut svc = AudioService::new(p, vec![s7]);
    let mut fx = NoEffects {};
    assert_eq!(svc.submit(Command::Play), Ok(()));
    // direct output plus the unity send double the signal
    let (l, r) = svc.render_block(16, &mut fx);
    assert!(l.iter().all(|&s| s == 200));
    assert!(r.iter().all(|&s| s == 200));
}

#[test]
fn send_through_a_bus_reaches_the_master() {
    let mut p = Project::new(String::from("bus"), 48000);
    assert_eq!(p.apply(Command::AddTrack { id: 1, kind: TrackKind::Audio, color: 0 }), Ok(()));
    assert_eq!(p.apply(Command::AddTrack { id: 2, kind: TrackKind::Bus, color: 0 }), Ok(()));
    let c = Clip { id: 1, source: 7, start: 0, duration: 1000, offset: 0, gain: UNIT };
    assert_eq!(p.apply(Command::AddClip { track_id: 1, clip: c }), Ok(()));
    // half-level send into the bus; the bus then reaches the master directly
    let send = Send { target: 2, level: 16384, pre_fader: false };
    assert_eq!(p.apply(Command::AddSend { source: 1, send }), Ok(()));
    let s7 = AudioSource { id: 7, samples: vec![200; 1000] };
    let mut svc = AudioService::new(p, vec![s7]);
    let mut fx = NoEffects {};
    assert_eq!(svc.submit(Command::Play), Ok(()));
    // track direct 200 plus bus carrying 100
    let (l, _) = svc.render_block(8, &mut fx);
    assert!(l.iter().all(|&s| s == 300));
}

#[test]
fn volume_automation_drives_the_fader_per_block() {
    let mut p = one_track_project();
    // a step curve: full volume, then silence from sample 480 on
    let p1 = CurvePoint { time: 0, value: UNIT, kind: InterpKind::Step };
    let p2 = CurvePoint { time: 480, value: 0, kind: InterpKind::Step };
    assert_eq!(
        p.apply(Command::SetAutomationPoint { track_id: 1, target: ParamTarget::Volume, point: p1 }),
        Ok(())
    );
    assert_eq!(
        p.apply(Command::SetAutomationPoint { track_id: 1, target: ParamTarget::Volume, point: p2 }),
        Ok(())
    );
    let s7 = AudioSource { id: 7, samples: vec![100; 48000] };
    let mut svc = AudioService::new(p, vec![s7]);
    let mut fx = NoEffects {};
    assert_eq!(svc.submit(Command::Play), Ok(()));
    let (l, _) = svc.render_block(480, &mut fx);
    assert!(l.iter().all(|&s| s == 100));
    let (l, _) = svc.render_block(480, &mut fx);
    assert!(l.iter().all(|&s| s == 0));
}

#[test]
fn pan_splits_the_stereo_image() {
    let mut p = one_track_project();
    // pan hard right: the left channel goes silent
    assert_eq!(
        p.apply(Command::SetTrackParam { track_id: 1, param: TrackParam::Pan(UNIT) }),
        Ok(())
    );
    let s7 = AudioSource { id: 7, samples: vec![500; 48000] };
    let mut svc = AudioService::new(p, vec![s7]);
    let mut fx = NoEffects {};
    assert_eq!(svc.submit(Command::Play), Ok(()));
    let (l, r) = svc.render_block(16, &mut fx);
    assert!(l.iter().all(|&s| s == 0));
    assert!(r.iter().all(|&s| s == 500));
}

#[test]
fn clip_gain_and_trim_offset_are_honored() {
    let mut p = Project::new(String::from("trim"), 48000);
    assert_eq!(p.apply(Command::AddTrack { id: 1, kind: TrackKind::Audio, color: 0 }), Ok(()));
    // half-gain clip reading the source from sample 10
    let c = Clip { id: 1, source: 7, start: 0, duration: 100, offset: 10, gain: 16384 };
    assert_eq!(p.apply(Command::AddClip { track_id: 1, clip: c }), Ok(()));
    let mut samples: Vec<i64> = vec![0; 200];
    for i in 0..200 {
        samples[i] = i as i64 * 10;
    }
    let mut svc = AudioService::new(p, vec![AudioSource { id: 7, samples }]);
    let mut fx = NoEffects {};
    assert_eq!(svc.submit(Command::Play), Ok(()));
    let (l, _) = svc.render_block(8, &mut fx);
    for k in 0..8 {
        // source[10 + k] * 0.5
        assert_eq!(l[k], ((10 + k as i64) * 10) / 2);
    }
}

#[test]
fn output_is_clamped_into_the_valid_range() {
    let mut p = Project::new(String::from("hot"), 48000);
    assert_eq!(p.apply(Command::AddTrack { id: 1, kind: TrackKind::Audio, color: 0 }), Ok(()));
    // an 8x-unity clip gain over a full-scale source drives the mix far past 1.0
    let c = Clip { id: 1, source: 7, start: 0, duration: 100, offset: 0, gain: 8 * UNIT };
    assert_eq!(p.apply(Command::AddClip { track_id: 1, clip: c }), Ok(()));
    let s7 = AudioSource { id: 7, samples: vec![32768; 100] };
    let mut svc = AudioService::new(p, vec![s7]);
    let mut fx = NoEffects {};
    assert_eq!(svc.submit(Command::Play), Ok(()));
    let (l, r) = svc.render_block(16, &mut fx);
    assert!(l.iter().all(|&s| s == OUTPUT_LIMIT));
    assert!(r.iter().all(|&s| s == OUTPUT_LIMIT));
}

#[test]
fn pre_fader_send_survives_a_mute_post_fader_send_does_not() {
    let mut p = Project::new(String::from("taps"), 48000);
    assert_eq!(p.apply(Command::AddTrack { id: 1, kind: TrackKind::Audio, color: 0 }), Ok(()));
    assert_eq!(p.apply(Command::AddTrack { id: 2, kind: TrackKind::Audio, color: 0 }), Ok(()));
    let c1 = Clip { id: 1, source: 7, start: 0, duration: 1000, offset: 0, gain: UNIT };
    let c2 = Clip { id: 1, source: 8, start: 0, duration: 1000, offset: 0, gain: UNIT };
    assert_eq!(p.apply(Command::AddClip { track_id: 1, clip: c1 }), Ok(()));
    assert_eq!(p.apply(Command::AddClip { track_id: 2, clip: c2 }), Ok(()));
    // track 1 taps before its fader, track 2 after it; then mute both
    let pre = Send { target: MASTER_ID, level: UNIT, pre_fader: true };
    let post = Send { target: MASTER_ID, level: UNIT, pre_fader: false };
    assert_eq!(p.apply(Command::AddSend { source: 1, send: pre }), Ok(()));
    assert_eq!(p.apply(Command::AddSend { source: 2, send: post }), Ok(()));
    assert_eq!(
        p.apply(Command::SetTrackParam { track_id: 1, param: TrackParam::Muted(true) }),
        Ok(())
    );
    assert_eq!(
        p.apply(Command::SetTrackParam { track_id: 2, param: TrackParam::Muted(true) }),
        Ok(())
    );
    let s7 = AudioSource { id: 7, samples: vec![40; 1000] };
    let s8 = AudioSource { id: 8, samples: vec![5; 1000] };
    let mut svc = AudioService::new(p, vec![s7, s8]);
    let mut fx = NoEffects {};
    assert_eq!(svc.submit(Command::Play), Ok(()));
    // both direct outputs are muted; only track 1's pre-fader tap remains
    let (l, _) = svc.render_block(8, &mut fx);
    assert!(l.iter().all(|&s| s == 40));
}

#[test]
fn reading_past_the_source_end_is_silence() {
    let mut p = Project::new(String::from("short"), 48000);
    assert_eq!(p.apply(Command::AddTrack { id: 1, kind: TrackKind::Audio, color: 0 }), Ok(()));
    // the clip is longer than its source: the tail renders silence
    let c = Clip { id: 1, source: 7, start: 0, duration: 100, offset: 0, gain: UNIT };
    assert_eq!(p.apply(Command::AddClip { track_id: 1, clip: c }), Ok(()));
    let s7 = AudioSource { id: 7, samples: vec![9; 10] };
    let mut svc = AudioService::new(p, vec![s7]);
    let mut fx = NoEffects {};
    assert_eq!(svc.submit(Command::Play), Ok(()));
    let (l, _) = svc.render_block(32, &mut fx);
    for k in 0..32 {
        assert_eq!(l[k], if k < 10 { 9 } else { 0 });
    }
}

#[test]
fn rejected_submission_leaves_the_queue_alone() {
    let p = one_track_project();
    let mut svc = AudioService::new(p, vec![source(7, 48000)]);
    let mut fx = NoEffects {};
    assert_eq!(svc.submit(Command::Play), Ok(()));
    // an invalid command is rejected synchronously and never applies
    assert!(svc
        .submit(Command::SetTrackParam { track_id: 9, param: TrackParam::Volume(0) })
        .is_err());
    let (l, _) = svc.render_block(16, &mut fx);
    // the track still plays at full volume
    assert!(l.iter().any(|&s| s != 0));
}
