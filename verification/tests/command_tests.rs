use daw_engine::automation::{CurvePoint, InterpKind, ParamTarget};
use daw_engine::command::{Command, CommandError, TrackParam};
use daw_engine::model::{Clip, Project, Send, TrackKind, MASTER_ID};
use daw_engine::sample::UNIT;

fn project() -> Project {
    Project::new(String::from("session"), 48000)
}

fn add_track(p: &mut Project, id: u64, kind: TrackKind) {
    let r = p.apply(Command::AddTrack { id, kind, color: 0x336699 });
    assert_eq!(r, Ok(()));
}

fn clip(id: u64, start: u64, duration: u64) -> Clip {
    Clip { id, source: 1, start, duration, offset: 0, gain: UNIT }
}

#[test]
fn add_track_and_duplicate() {
    let mut p = project();
    add_track(&mut p, 1, TrackKind::Audio);
    assert_eq!(p.tracks.len(), 1);
    assert_eq!(p.tracks[0].id, 1);
    assert_eq!(p.tracks[0].volume, UNIT);
    let r = p.apply(Command::AddTrack { id: 1, kind: TrackKind::Audio, color: 0 });
    assert_eq!(r, Err(CommandError::DuplicateTrack));
    let r = p.apply(Command::AddTrack { id: MASTER_ID, kind: TrackKind::Audio, color: 0 });
    assert_eq!(r, Err(CommandError::DuplicateTrack));
    let r = p.apply(Command::AddTrack { id: 2, kind: TrackKind::Master, color: 0 });
    assert_eq!(r, Err(CommandError::InvalidTrackKind));
}

#[test]
fn remove_track_and_errors() {
    let mut p = project();
    add_track(&mut p, 1, TrackKind::Audio);
    assert_eq!(p.apply(Command::RemoveTrack { id: 9 }), Err(CommandError::UnknownTrack));
    assert_eq!(p.apply(Command::RemoveTrack { id: MASTER_ID }), Err(CommandError::MasterImmutable));
    assert_eq!(p.apply(Command::RemoveTrack { id: 1 }), Ok(()));
    assert_eq!(p.tracks.len(), 0);
}

#[test]
fn remove_track_still_targeted_is_rejected() {
    let mut p = project();
    add_track(&mut p, 1, TrackKind::Audio);
    add_track(&mut p, 2, TrackKind::Bus);
    let send = Send { target: 2, level: UNIT, pre_fader: false };
    assert_eq!(p.apply(Command::AddSend { source: 1, send }), Ok(()));
    assert_eq!(p.apply(Command::RemoveTrack { id: 2 }), Err(CommandError::TrackInUse));
    assert_eq!(p.apply(Command::RemoveSend { source: 1, target: 2 }), Ok(()));
    assert_eq!(p.apply(Command::RemoveTrack { id: 2 }), Ok(()));
}

#[test]
fn add_clip_validation() {
    let mut p = project();
    add_track(&mut p, 1, TrackKind::Audio);
    add_track(&mut p, 2, TrackKind::Bus);
    assert_eq!(p.apply(Command::AddClip { track_id: 1, clip: clip(1, 0, 1000) }), Ok(()));
    // zero duration
    let r = p.apply(Command::AddClip { track_id: 1, clip: clip(2, 5000, 0) });
    assert_eq!(r, Err(CommandError::InvalidClip));
    // overlapping placement
    let r = p.apply(Command::AddClip { track_id: 1, clip: clip(2, 999, 10) });
    assert_eq!(r, Err(CommandError::ClipOverlap));
    // adjacent placement is fine
    assert_eq!(p.apply(Command::AddClip { track_id: 1, clip: clip(2, 1000, 10) }), Ok(()));
    // duplicate clip id
    let r = p.apply(Command::AddClip { track_id: 1, clip: clip(1, 4000, 10) });
    assert_eq!(r, Err(CommandError::DuplicateClip));
    // clips only live on audio tracks
    let r = p.apply(Command::AddClip { track_id: 2, clip: clip(1, 0, 10) });
    assert_eq!(r, Err(CommandError::InvalidTrackKind));
    let r = p.apply(Command::AddClip { track_id: MASTER_ID, clip: clip(1, 0, 10) });
    assert_eq!(r, Err(CommandError::MasterImmutable));
    let r = p.apply(Command::AddClip { track_id: 7, clip: clip(1, 0, 10) });
    assert_eq!(r, Err(CommandError::UnknownTrack));
}

#[test]
fn move_and_remove_clip() {
    let mut p = project();
    add_track(&mut p, 1, TrackKind::Audio);
    assert_eq!(p.apply(Command::AddClip { track_id: 1, clip: clip(1, 0, 100) }), Ok(()));
    assert_eq!(p.apply(Command::AddClip { track_id: 1, clip: clip(2, 200, 100) }), Ok(()));
    // moving onto the other clip is rejected, and nothing changes
    let r = p.apply(Command::MoveClip { track_id: 1, clip_id: 1, new_start: 250 });
    assert_eq!(r, Err(CommandError::ClipOverlap));
    assert_eq!(p.tracks[0].clips[0].start, 0);
    // a clear move lands
    assert_eq!(p.apply(Command::MoveClip { track_id: 1, clip_id: 1, new_start: 400 }), Ok(()));
    assert_eq!(p.tracks[0].clips[0].start, 400);
    assert_eq!(
        p.apply(Command::MoveClip { track_id: 1, clip_id: 9, new_start: 0 }),
        Err(CommandError::UnknownClip)
    );
    assert_eq!(p.apply(Command::RemoveClip { track_id: 1, clip_id: 1 }), Ok(()));
    assert_eq!(p.tracks[0].clips.len(), 1);
    assert_eq!(
        p.apply(Command::RemoveClip { track_id: 1, clip_id: 1 }),
        Err(CommandError::UnknownClip)
    );
}

#[test]
fn set_track_param_twice_is_idempotent() {
    let mut p = project();
    add_track(&mut p, 1, TrackKind::Audio);
    let cmd = Command::SetTrackParam { track_id: 1, param: TrackParam::Volume(16384) };
    assert_eq!(p.apply(cmd), Ok(()));
    let once = p.tracks[0].volume;
    assert_eq!(p.apply(cmd), Ok(()));
    assert_eq!(p.tracks[0].volume, once);
    assert_eq!(once, 16384);
}

#[test]
fn set_track_param_validation() {
    let mut p = project();
    add_track(&mut p, 1, TrackKind::Audio);
    let r = p.apply(Command::SetTrackParam { track_id: 1, param: TrackParam::Volume(-1) });
    assert_eq!(r, Err(CommandError::ValueOutOfRange));
    let r = p.apply(Command::SetTrackParam { track_id: 1, param: TrackParam::Pan(40000) });
    assert_eq!(r, Err(CommandError::ValueOutOfRange));
    let r = p.apply(Command::SetTrackParam { track_id: MASTER_ID, param: TrackParam::Pan(0) });
    assert_eq!(r, Err(CommandError::MasterImmutable));
    assert_eq!(
        p.apply(Command::SetTrackParam { track_id: MASTER_ID, param: TrackParam::Volume(20000) }),
        Ok(())
    );
    assert_eq!(p.master.volume, 20000);
    assert_eq!(p.apply(Command::SetTrackParam { track_id: 1, param: TrackParam::Muted(true) }), Ok(()));
    assert!(p.tracks[0].muted);
}

#[test]
fn send_cycle_is_rejected_and_graph_unchanged() {
    let mut p = project();
    add_track(&mut p, 1, TrackKind::Audio);
    add_track(&mut p, 2, TrackKind::Bus);
    let ab = Send { target: 2, level: UNIT, pre_fader: false };
    let ba = Send { target: 1, level: UNIT, pre_fader: false };
    assert_eq!(p.apply(Command::AddSend { source: 1, send: ab }), Ok(()));
    let r = p.apply(Command::AddSend { source: 2, send: ba });
    assert_eq!(r, Err(CommandError::SendCycle));
    assert_eq!(p.tracks[0].sends.len(), 1);
    assert_eq!(p.tracks[1].sends.len(), 0);
}

#[test]
fn send_cycle_through_a_chain_is_rejected() {
    let mut p = project();
    add_track(&mut p, 1, TrackKind::Audio);
    add_track(&mut p, 2, TrackKind::Bus);
    add_track(&mut p, 3, TrackKind::Bus);
    let s = |target: u64| Send { target, level: UNIT, pre_fader: false };
    assert_eq!(p.apply(Command::AddSend { source: 1, send: s(2) }), Ok(()));
    assert_eq!(p.apply(Command::AddSend { source: 2, send: s(3) }), Ok(()));
    let r = p.apply(Command::AddSend { source: 3, send: s(1) });
    assert_eq!(r, Err(CommandError::SendCycle));
}

#[test]
fn send_validation() {
    let mut p = project();
    add_track(&mut p, 1, TrackKind::Audio);
    let s = Send { target: 1, level: UNIT, pre_fader: false };
    assert_eq!(p.apply(Command::AddSend { source: 1, send: s }), Err(CommandError::SelfSend));
    let s = Send { target: 9, level: UNIT, pre_fader: false };
    assert_eq!(p.apply(Command::AddSend { source: 1, send: s }), Err(CommandError::UnknownTrack));
    let s = Send { target: MASTER_ID, level: -5, pre_fader: false };
    assert_eq!(p.apply(Command::AddSend { source: 1, send: s }), Err(CommandError::ValueOutOfRange));
    let s = Send { target: MASTER_ID, level: UNIT, pre_fader: false };
    assert_eq!(p.apply(Command::AddSend { source: 1, send: s }), Ok(()));
    assert_eq!(p.apply(Command::AddSend { source: 1, send: s }), Err(CommandError::DuplicateSend));
    assert_eq!(
        p.apply(Command::RemoveSend { source: 1, target: 5 }),
        Err(CommandError::UnknownSend)
    );
    assert_eq!(p.apply(Command::RemoveSend { source: 1, target: MASTER_ID }), Ok(()));
    assert_eq!(p.tracks[0].sends.len(), 0);
}

#[test]
fn automation_point_commands() {
    let mut p = project();
    add_track(&mut p, 1, TrackKind::Audio);
    let pt = CurvePoint { time: 100, value: 16384, kind: InterpKind::Linear };
    let cmd = Command::SetAutomationPoint { track_id: 1, target: ParamTarget::Volume, point: pt };
    assert_eq!(p.apply(cmd), Ok(()));
    assert_eq!(p.tracks[0].automation.len(), 1);
    assert_eq!(p.tracks[0].automation[0].points.len(), 1);
    // a second point at another time is inserted in order
    let pt2 = CurvePoint { time: 50, value: 0, kind: InterpKind::Linear };
    let cmd = Command::SetAutomationPoint { track_id: 1, target: ParamTarget::Volume, point: pt2 };
    assert_eq!(p.apply(cmd), Ok(()));
    assert_eq!(p.tracks[0].automation[0].points.len(), 2);
    assert_eq!(p.tracks[0].automation[0].points[0].time, 50);
    assert_eq!(p.tracks[0].automation[0].points[1].time, 100);
    // a point at an existing time replaces the value
    let pt3 = CurvePoint { time: 100, value: 99, kind: InterpKind::Step };
    let cmd = Command::SetAutomationPoint { track_id: 1, target: ParamTarget::Volume, point: pt3 };
    assert_eq!(p.apply(cmd), Ok(()));
    assert_eq!(p.tracks[0].automation[0].points.len(), 2);
    assert_eq!(p.tracks[0].automation[0].points[1].value, 99);
    // removal
    let r = p.apply(Command::RemoveAutomationPoint {
        track_id: 1,
        target: ParamTarget::Pan,
        time: 50,
    });
    assert_eq!(r, Err(CommandError::UnknownCurve));
    let r = p.apply(Command::RemoveAutomationPoint {
        track_id: 1,
        target: ParamTarget::Volume,
        time: 51,
    });
    assert_eq!(r, Err(CommandError::UnknownPoint));
    let r = p.apply(Command::RemoveAutomationPoint {
        track_id: 1,
        target: ParamTarget::Volume,
        time: 50,
    });
    assert_eq!(r, Ok(()));
    assert_eq!(p.tracks[0].automation[0].points.len(), 1);
}

#[test]
fn master_pan_curve_is_rejected() {
    let mut p = project();
    let pt = CurvePoint { time: 0, value: 0, kind: InterpKind::Step };
    let r = p.apply(Command::SetAutomationPoint {
        track_id: MASTER_ID,
        target: ParamTarget::Pan,
        point: pt,
    });
    assert_eq!(r, Err(CommandError::MasterImmutable));
    // master volume automation is allowed
    let r = p.apply(Command::SetAutomationPoint {
        track_id: MASTER_ID,
        target: ParamTarget::Volume,
        point: pt,
    });
    assert_eq!(r, Ok(()));
}

#[test]
fn large_gains_are_accepted() {
    let mut p = project();
    add_track(&mut p, 1, TrackKind::Audio);
    // a linear gain is only bounded below: far above unity is valid
    assert_eq!(
        p.apply(Command::SetTrackParam { track_id: 1, param: TrackParam::Volume(100 * UNIT) }),
        Ok(())
    );
    assert_eq!(p.tracks[0].volume, 100 * UNIT);
}

#[test]
fn transport_commands() {
    let mut p = project();
    assert_eq!(p.apply(Command::SetTempo { tempo_mbpm: 0 }), Err(CommandError::InvalidTempo));
    assert_eq!(p.apply(Command::SetTempo { tempo_mbpm: 90000 }), Ok(()));
    assert_eq!(p.transport.tempo_mbpm, 90000);
    assert_eq!(
        p.apply(Command::SetTimeSignature { sig_num: 0, sig_den: 4 }),
        Err(CommandError::InvalidTimeSignature)
    );
    assert_eq!(p.apply(Command::SetTimeSignature { sig_num: 7, sig_den: 8 }), Ok(()));
    assert_eq!(
        p.apply(Command::SetLoop { enabled: true, loop_start: 10, loop_end: 5 }),
        Err(CommandError::InvalidLoopRange)
    );
    assert_eq!(
        p.apply(Command::SetLoop { enabled: true, loop_start: 0, loop_end: 1000 }),
        Ok(())
    );
    assert!(p.transport.loop_enabled);
    assert_eq!(
        p.apply(Command::Seek { position: u64::MAX }),
        Err(CommandError::InvalidPosition)
    );
    assert_eq!(p.apply(Command::Seek { position: 500 }), Ok(()));
    assert_eq!(p.transport.position, 500);
    assert_eq!(p.apply(Command::Play), Ok(()));
    assert!(p.transport.playing);
    assert_eq!(p.apply(Command::Stop), Ok(()));
    assert!(!p.transport.playing);
    assert_eq!(p.transport.position, 500);
}
