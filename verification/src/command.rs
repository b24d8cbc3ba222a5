//! The command channel's vocabulary: every mutation of project state is a
//! `Command`, validated against the project invariants before it is queued
//! and applied atomically at a block boundary.
//!
//! The meaning of every command is the spec function `step`: it maps a
//! project view and a command to the next view and the validation result.
//! Invalid commands leave the project unchanged and report a specific
//! error; the executable `apply` is proved to agree with `step` exactly.

use vstd::prelude::*;
use crate::automation::{
    AutomationCurve, CurvePoint, ParamTarget, insert_point, remove_point, has_point_at,
    lemma_insert_point_wf, lemma_remove_point_wf, point_ok, points_wf,
};
use crate::model::{
    Clip, CurveV, Project, ProjectV, Send, Track, TrackKind, TrackV, MASTER_ID, clip_ok,
    clips_overlap, edge, gain_ok, pan_ok, reaches, send_ok,
};
use crate::sample::UNIT;
use crate::transport::{Transport, POSITION_LIMIT};

verus! {

/// One of the track parameters a `SetTrackParam` command can set.
#[derive(Clone, Copy, PartialEq, Eq, Structural, Debug)]
pub enum TrackParam {
    /// Fixed-point volume gain.
    Volume(i64),
    /// Fixed-point pan position.
    Pan(i64),
    /// Mute flag.
    Muted(bool),
    /// Solo flag.
    Solo(bool),
    /// Record-arm flag.
    Armed(bool),
}

/// A mutation request from the control side.
#[derive(Clone, Copy, PartialEq, Eq, Structural, Debug)]
pub enum Command {
    /// Create a fresh, empty track.
    AddTrack { id: u64, kind: TrackKind, color: u32 },
    /// Remove a track that no send targets.
    RemoveTrack { id: u64 },
    /// Place a clip on an audio track.
    AddClip { track_id: u64, clip: Clip },
    /// Remove a clip from a track.
    RemoveClip { track_id: u64, clip_id: u64 },
    /// Move a clip to a new start position.
    MoveClip { track_id: u64, clip_id: u64, new_start: u64 },
    /// Insert or replace an automation control point.
    SetAutomationPoint { track_id: u64, target: ParamTarget, point: CurvePoint },
    /// Remove an automation control point.
    RemoveAutomationPoint { track_id: u64, target: ParamTarget, time: u64 },
    /// Set a mixer parameter of a track.
    SetTrackParam { track_id: u64, param: TrackParam },
    /// Add a send from a track to a bus or the master.
    AddSend { source: u64, send: Send },
    /// Remove the send from `source` to `target`.
    RemoveSend { source: u64, target: u64 },
    /// Change the tempo, in millibeats per minute.
    SetTempo { tempo_mbpm: u64 },
    /// Change the time signature.
    SetTimeSignature { sig_num: u32, sig_den: u32 },
    /// Configure the loop region.
    SetLoop { enabled: bool, loop_start: u64, loop_end: u64 },
    /// Jump the transport to a position.
    Seek { position: u64 },
    /// Start the transport.
    Play,
    /// Stop the transport, keeping the position.
    Stop,
}

/// Why a command was rejected; surfaced synchronously at submission, with
/// no state change.
#[derive(Clone, Copy, PartialEq, Eq, Structural, Debug)]
pub enum CommandError {
    /// No track with the given id exists.
    UnknownTrack,
    /// A track with the given id already exists (or the id is reserved).
    DuplicateTrack,
    /// The master track cannot be created, removed, panned, or given clips
    /// or sends.
    MasterImmutable,
    /// The track kind does not admit the operation.
    InvalidTrackKind,
    /// Other tracks still send into the track.
    TrackInUse,
    /// No clip with the given id exists on the track.
    UnknownClip,
    /// A clip with the given id already exists on the track.
    DuplicateClip,
    /// The clip violates a clip invariant (zero duration, placement out of
    /// range, gain out of range).
    InvalidClip,
    /// The clip would overlap another clip on the same track.
    ClipOverlap,
    /// No automation curve for the given parameter exists on the track.
    UnknownCurve,
    /// No control point at the given time exists on the curve.
    UnknownPoint,
    /// A parameter value lies outside its valid range.
    ValueOutOfRange,
    /// No send to the given target exists on the track.
    UnknownSend,
    /// A send to the given target already exists on the track.
    DuplicateSend,
    /// A track cannot send to itself.
    SelfSend,
    /// The send would close a cycle in the send graph.
    SendCycle,
    /// The tempo must be positive.
    InvalidTempo,
    /// Both time signature fields must be positive.
    InvalidTimeSignature,
    /// The loop region must run forward and stay in range.
    InvalidLoopRange,
    /// The position lies out of range.
    InvalidPosition,
}

/// The view of a fresh, empty track as `AddTrack` creates it.
pub open spec fn fresh_track(id: u64, kind: TrackKind, color: u32) -> TrackV {
    TrackV {
        id,
        name: Seq::<char>::empty(),
        kind,
        volume: UNIT,
        pan: 0i64,
        muted: false,
        solo: false,
        armed: false,
        color,
        clips: Seq::<Clip>::empty(),
        automation: Seq::<CurveV>::empty(),
        sends: Seq::<Send>::empty(),
        effects: Seq::<u64>::empty(),
    }
}

/// A track parameter applied to a track view.
pub open spec fn set_param_v(t: TrackV, param: TrackParam) -> TrackV {
    match param {
        TrackParam::Volume(v) => TrackV { volume: v, ..t },
        TrackParam::Pan(v) => TrackV { pan: v, ..t },
        TrackParam::Muted(b) => TrackV { muted: b, ..t },
        TrackParam::Solo(b) => TrackV { solo: b, ..t },
        TrackParam::Armed(b) => TrackV { armed: b, ..t },
    }
}

/// A track parameter value is in range.
pub open spec fn param_ok(param: TrackParam) -> bool {
    match param {
        TrackParam::Volume(v) => gain_ok(v),
        TrackParam::Pan(v) => pan_ok(v),
        TrackParam::Muted(_) => true,
        TrackParam::Solo(_) => true,
        TrackParam::Armed(_) => true,
    }
}

impl TrackV {
    /// There is a clip with the given id.
    pub open spec fn has_clip(self, id: u64) -> bool {
        exists|i: int| 0 <= i < self.clips.len() && self.clips[i].id == id
    }

    /// The index of the clip with the given id.
    pub open spec fn clip_idx(self, id: u64) -> int {
        choose|i: int| 0 <= i < self.clips.len() && self.clips[i].id == id
    }

    /// There is an automation curve for the given parameter.
    pub open spec fn has_curve(self, target: ParamTarget) -> bool {
        exists|i: int| 0 <= i < self.automation.len() && self.automation[i].target == target
    }

    /// The index of the curve for the given parameter.
    pub open spec fn curve_idx(self, target: ParamTarget) -> int {
        choose|i: int| 0 <= i < self.automation.len() && self.automation[i].target == target
    }

    /// There is a send to the given target.
    pub open spec fn has_send(self, target: u64) -> bool {
        exists|i: int| 0 <= i < self.sends.len() && self.sends[i].target == target
    }

    /// The index of the send to the given target.
    pub open spec fn send_idx(self, target: u64) -> int {
        choose|i: int| 0 <= i < self.sends.len() && self.sends[i].target == target
    }

    /// The given clip overlaps some clip on the track other than the clip
    /// with id `skip`.
    pub open spec fn overlaps_any(self, c: Clip, skip: u64) -> bool {
        exists|i: int|
            0 <= i < self.clips.len() && self.clips[i].id != skip && clips_overlap(
                self.clips[i],
                c,
            )
    }
}

/// Some track's send targets the given id.
pub open spec fn send_targets(ts: Seq<TrackV>, id: u64) -> bool {
    exists|i: int, j: int|
        0 <= i < ts.len() && 0 <= j < ts[i].sends.len() && ts[i].sends[j].target == id
}

impl ProjectV {
    /// The project with one track replaced.
    pub open spec fn with_track(self, i: int, t: TrackV) -> ProjectV {
        ProjectV { tracks: self.tracks.update(i, t), ..self }
    }

    /// The project with another transport.
    pub open spec fn with_transport(self, tr: Transport) -> ProjectV {
        ProjectV { transport: tr, ..self }
    }
}

/// The meaning of `AddTrack`.
pub open spec fn step_add_track(p: ProjectV, id: u64, kind: TrackKind, color: u32) -> (
    ProjectV,
    Result<(), CommandError>,
) {
    if id == MASTER_ID || p.has_track(id) {
        (p, Err(CommandError::DuplicateTrack))
    } else if kind == TrackKind::Master {
        (p, Err(CommandError::InvalidTrackKind))
    } else {
        (ProjectV { tracks: p.tracks.push(fresh_track(id, kind, color)), ..p }, Ok(()))
    }
}

/// The meaning of `RemoveTrack`.
pub open spec fn step_remove_track(p: ProjectV, id: u64) -> (ProjectV, Result<(), CommandError>) {
    if id == MASTER_ID {
        (p, Err(CommandError::MasterImmutable))
    } else if !p.has_track(id) {
        (p, Err(CommandError::UnknownTrack))
    } else if send_targets(p.tracks, id) {
        (p, Err(CommandError::TrackInUse))
    } else {
        (ProjectV { tracks: p.tracks.remove(p.track_idx(id)), ..p }, Ok(()))
    }
}

/// The meaning of `AddClip`.
pub open spec fn step_add_clip(p: ProjectV, track_id: u64, c: Clip) -> (
    ProjectV,
    Result<(), CommandError>,
) {
    if track_id == MASTER_ID {
        (p, Err(CommandError::MasterImmutable))
    } else if !p.has_track(track_id) {
        (p, Err(CommandError::UnknownTrack))
    } else {
        let ti = p.track_idx(track_id);
        let t = p.tracks[ti];
        if t.kind != TrackKind::Audio {
            (p, Err(CommandError::InvalidTrackKind))
        } else if !clip_ok(c) {
            (p, Err(CommandError::InvalidClip))
        } else if t.has_clip(c.id) {
            (p, Err(CommandError::DuplicateClip))
        } else if t.overlaps_any(c, c.id) {
            (p, Err(CommandError::ClipOverlap))
        } else {
            (p.with_track(ti, TrackV { clips: t.clips.push(c), ..t }), Ok(()))
        }
    }
}

/// The meaning of `RemoveClip`.
pub open spec fn step_remove_clip(p: ProjectV, track_id: u64, clip_id: u64) -> (
    ProjectV,
    Result<(), CommandError>,
) {
    if track_id == MASTER_ID {
        (p, Err(CommandError::MasterImmutable))
    } else if !p.has_track(track_id) {
        (p, Err(CommandError::UnknownTrack))
    } else {
        let ti = p.track_idx(track_id);
        let t = p.tracks[ti];
        if !t.has_clip(clip_id) {
            (p, Err(CommandError::UnknownClip))
        } else {
            (p.with_track(ti, TrackV { clips: t.clips.remove(t.clip_idx(clip_id)), ..t }), Ok(()))
        }
    }
}

/// The meaning of `MoveClip`.
pub open spec fn step_move_clip(p: ProjectV, track_id: u64, clip_id: u64, new_start: u64) -> (
    ProjectV,
    Result<(), CommandError>,
) {
    if track_id == MASTER_ID {
        (p, Err(CommandError::MasterImmutable))
    } else if !p.has_track(track_id) {
        (p, Err(CommandError::UnknownTrack))
    } else {
        let ti = p.track_idx(track_id);
        let t = p.tracks[ti];
        if !t.has_clip(clip_id) {
            (p, Err(CommandError::UnknownClip))
        } else {
            let ci = t.clip_idx(clip_id);
            let moved = Clip { start: new_start, ..t.clips[ci] };
            if !clip_ok(moved) {
                (p, Err(CommandError::InvalidClip))
            } else if t.overlaps_any(moved, clip_id) {
                (p, Err(CommandError::ClipOverlap))
            } else {
                (p.with_track(ti, TrackV { clips: t.clips.update(ci, moved), ..t }), Ok(()))
            }
        }
    }
}

/// The track view with the given id: the master for id 0, else the track.
pub open spec fn target_track(p: ProjectV, track_id: u64) -> TrackV {
    if track_id == MASTER_ID {
        p.master
    } else {
        p.tracks[p.track_idx(track_id)]
    }
}

/// The project with the track of the given id replaced (the master for 0).
pub open spec fn put_track(p: ProjectV, track_id: u64, t: TrackV) -> ProjectV {
    if track_id == MASTER_ID {
        ProjectV { master: t, ..p }
    } else {
        p.with_track(p.track_idx(track_id), t)
    }
}

/// The meaning of `SetAutomationPoint`: insert or replace a control point
/// on the track's curve for the parameter, creating the curve on first
/// use. The master's pan is pinned to centre, so a pan curve on the
/// master is rejected like a direct pan change.
pub open spec fn step_set_automation_point(
    p: ProjectV,
    track_id: u64,
    target: ParamTarget,
    point: CurvePoint,
) -> (ProjectV, Result<(), CommandError>) {
    if track_id == MASTER_ID && target == ParamTarget::Pan {
        (p, Err(CommandError::MasterImmutable))
    } else if track_id != MASTER_ID && !p.has_track(track_id) {
        (p, Err(CommandError::UnknownTrack))
    } else if !point_ok(point) {
        (p, Err(CommandError::ValueOutOfRange))
    } else {
        let t = target_track(p, track_id);
        let t2 = if t.has_curve(target) {
            let ci = t.curve_idx(target);
            let cv = t.automation[ci];
            TrackV {
                automation: t.automation.update(
                    ci,
                    CurveV { points: insert_point(cv.points, point), ..cv },
                ),
                ..t
            }
        } else {
            TrackV {
                automation: t.automation.push(CurveV { target, points: seq![point] }),
                ..t
            }
        };
        (put_track(p, track_id, t2), Ok(()))
    }
}

/// The meaning of `RemoveAutomationPoint`.
pub open spec fn step_remove_automation_point(
    p: ProjectV,
    track_id: u64,
    target: ParamTarget,
    time: u64,
) -> (ProjectV, Result<(), CommandError>) {
    if track_id != MASTER_ID && !p.has_track(track_id) {
        (p, Err(CommandError::UnknownTrack))
    } else {
        let t = target_track(p, track_id);
        if !t.has_curve(target) {
            (p, Err(CommandError::UnknownCurve))
        } else {
            let ci = t.curve_idx(target);
            let cv = t.automation[ci];
            if !has_point_at(cv.points, time) {
                (p, Err(CommandError::UnknownPoint))
            } else {
                let t2 = TrackV {
                    automation: t.automation.update(
                        ci,
                        CurveV { points: remove_point(cv.points, time), ..cv },
                    ),
                    ..t
                };
                (put_track(p, track_id, t2), Ok(()))
            }
        }
    }
}

/// The meaning of `SetTrackParam`.
pub open spec fn step_set_track_param(p: ProjectV, track_id: u64, param: TrackParam) -> (
    ProjectV,
    Result<(), CommandError>,
) {
    if track_id == MASTER_ID && (param is Pan) {
        (p, Err(CommandError::MasterImmutable))
    } else if track_id != MASTER_ID && !p.has_track(track_id) {
        (p, Err(CommandError::UnknownTrack))
    } else if !param_ok(param) {
        (p, Err(CommandError::ValueOutOfRange))
    } else {
        (put_track(p, track_id, set_param_v(target_track(p, track_id), param)), Ok(()))
    }
}

/// The meaning of `AddSend`: rejected when the source or target is missing,
/// the send is a self-send or duplicate, the level is out of range, or the
/// send would close a cycle (its target already reaches its source).
pub open spec fn step_add_send(p: ProjectV, source: u64, s: Send) -> (
    ProjectV,
    Result<(), CommandError>,
) {
    if source == MASTER_ID {
        (p, Err(CommandError::MasterImmutable))
    } else if !p.has_track(source) {
        (p, Err(CommandError::UnknownTrack))
    } else if s.target != MASTER_ID && !p.has_track(s.target) {
        (p, Err(CommandError::UnknownTrack))
    } else if s.target == source {
        (p, Err(CommandError::SelfSend))
    } else if p.tracks[p.track_idx(source)].has_send(s.target) {
        (p, Err(CommandError::DuplicateSend))
    } else if !send_ok(s) {
        (p, Err(CommandError::ValueOutOfRange))
    } else if s.target != MASTER_ID && reaches(p.tracks, s.target, source, p.tracks.len() as nat) {
        (p, Err(CommandError::SendCycle))
    } else {
        let ti = p.track_idx(source);
        let t = p.tracks[ti];
        (p.with_track(ti, TrackV { sends: t.sends.push(s), ..t }), Ok(()))
    }
}

/// The meaning of `RemoveSend`.
pub open spec fn step_remove_send(p: ProjectV, source: u64, target: u64) -> (
    ProjectV,
    Result<(), CommandError>,
) {
    if source == MASTER_ID {
        (p, Err(CommandError::MasterImmutable))
    } else if !p.has_track(source) {
        (p, Err(CommandError::UnknownTrack))
    } else {
        let ti = p.track_idx(source);
        let t = p.tracks[ti];
        if !t.has_send(target) {
            (p, Err(CommandError::UnknownSend))
        } else {
            (p.with_track(ti, TrackV { sends: t.sends.remove(t.send_idx(target)), ..t }), Ok(()))
        }
    }
}

/// The meaning of one command against a project view: the next view and
/// the validation result. A rejected command leaves the view unchanged.
pub open spec fn step(p: ProjectV, c: Command) -> (ProjectV, Result<(), CommandError>) {
    match c {
        Command::AddTrack { id, kind, color } => step_add_track(p, id, kind, color),
        Command::RemoveTrack { id } => step_remove_track(p, id),
        Command::AddClip { track_id, clip } => step_add_clip(p, track_id, clip),
        Command::RemoveClip { track_id, clip_id } => step_remove_clip(p, track_id, clip_id),
        Command::MoveClip { track_id, clip_id, new_start } => step_move_clip(
            p,
            track_id,
            clip_id,
            new_start,
        ),
        Command::SetAutomationPoint { track_id, target, point } => step_set_automation_point(
            p,
            track_id,
            target,
            point,
        ),
        Command::RemoveAutomationPoint { track_id, target, time } => step_remove_automation_point(
            p,
            track_id,
            target,
            time,
        ),
        Command::SetTrackParam { track_id, param } => step_set_track_param(p, track_id, param),
        Command::AddSend { source, send } => step_add_send(p, source, send),
        Command::RemoveSend { source, target } => step_remove_send(p, source, target),
        Command::SetTempo { tempo_mbpm } => if tempo_mbpm == 0 {
            (p, Err(CommandError::InvalidTempo))
        } else {
            (p.with_transport(Transport { tempo_mbpm, ..p.transport }), Ok(()))
        },
        Command::SetTimeSignature { sig_num, sig_den } => if sig_num == 0 || sig_den == 0 {
            (p, Err(CommandError::InvalidTimeSignature))
        } else {
            (p.with_transport(Transport { sig_num, sig_den, ..p.transport }), Ok(()))
        },
        Command::SetLoop { enabled, loop_start, loop_end } => if (enabled && loop_start > loop_end)
            || loop_end >= POSITION_LIMIT {
            (p, Err(CommandError::InvalidLoopRange))
        } else {
            (
                p.with_transport(
                    Transport { loop_enabled: enabled, loop_start, loop_end, ..p.transport },
                ),
                Ok(()),
            )
        },
        Command::Seek { position } => if position >= POSITION_LIMIT {
            (p, Err(CommandError::InvalidPosition))
        } else {
            (p.with_transport(Transport { position, ..p.transport }), Ok(()))
        },
        Command::Play => (p.with_transport(Transport { playing: true, ..p.transport }), Ok(())),
        Command::Stop => (p.with_transport(Transport { playing: false, ..p.transport }), Ok(())),
    }
}

/// The project view after a whole queue of commands, applied in submission
/// order; rejected commands leave the view unchanged.
pub open spec fn apply_all(p: ProjectV, cs: Seq<Command>) -> ProjectV
    decreases cs.len(),
{
    if cs.len() == 0 {
        p
    } else {
        apply_all(step(p, cs[0]).0, cs.drop_first())
    }
}

/// A rejected command never changes the project: every error branch of
/// `step` hands the view back unchanged.
pub proof fn lemma_step_err_unchanged(p: ProjectV, c: Command)
    ensures
        step(p, c).1 is Err ==> step(p, c).0 == p,
{
}

/// Replacing a track by one with the same id and sends, itself
/// well-formed, keeps the project well-formed.
proof fn lemma_wf_track_update(p: ProjectV, ti: int, t2: TrackV)
    requires
        p.wf(),
        0 <= ti < p.tracks.len(),
        t2.wf(),
        t2.id == p.tracks[ti].id,
        t2.kind == p.tracks[ti].kind,
        t2.sends == p.tracks[ti].sends,
    ensures
        p.with_track(ti, t2).wf(),
{
    let q = p.with_track(ti, t2);
    assert forall|i: int, j: int|
        0 <= i < q.tracks.len() && 0 <= j < q.tracks[i].sends.len() implies (
    (#[trigger] q.tracks[i].sends[j]).target == MASTER_ID || q.has_track(
        q.tracks[i].sends[j].target,
    )) by {
        assert(q.tracks[i].sends == p.tracks[i].sends);
        assert(p.tracks[i].sends[j].target == MASTER_ID || p.has_track(
            p.tracks[i].sends[j].target,
        ));
        if p.tracks[i].sends[j].target != MASTER_ID {
            let w = choose|w: int|
                0 <= w < p.tracks.len() && p.tracks[w].id == p.tracks[i].sends[j].target;
            assert(q.tracks[w].id == p.tracks[w].id);
            assert(q.has_track(q.tracks[i].sends[j].target));
        }
    }
}

/// Replacing the master by one with the same id, kind, empty clip and send
/// lists and centred pan, itself well-formed, keeps the project
/// well-formed.
proof fn lemma_wf_master_update(p: ProjectV, m2: TrackV)
    requires
        p.wf(),
        m2.wf(),
        m2.id == MASTER_ID,
        m2.kind == TrackKind::Master,
        m2.clips.len() == 0,
        m2.sends.len() == 0,
        m2.pan == 0i64,
    ensures
        (ProjectV { master: m2, ..p }).wf(),
{
    let q = ProjectV { master: m2, ..p };
    assert forall|i: int, j: int|
        0 <= i < q.tracks.len() && 0 <= j < q.tracks[i].sends.len() implies (
    (#[trigger] q.tracks[i].sends[j]).target == MASTER_ID || q.has_track(
        q.tracks[i].sends[j].target,
    )) by {
        assert(p.tracks[i].sends[j].target == MASTER_ID || p.has_track(
            p.tracks[i].sends[j].target,
        ));
    }
}

/// Whether some track's send targets the given id.
fn send_targets_check(tracks: &Vec<Track>, id: u64) -> (r: bool)
    ensures
        r == send_targets(tracks@.map_values(|t: Track| t@), id),
{
    let ghost ts = tracks@.map_values(|t: Track| t@);
    let n = tracks.len();
    let mut i: usize = 0;
    while i < n
        invariant
            ts == tracks@.map_values(|t: Track| t@),
            n == tracks@.len(),
            i <= n,
            forall|a: int, b: int|
                0 <= a < i && 0 <= b < ts[a].sends.len() ==> ts[a].sends[b].target != id,
        decreases n - i,
    {
        let t = &tracks[i];
        let m = t.sends.len();
        let mut j: usize = 0;
        while j < m
            invariant
                ts == tracks@.map_values(|t: Track| t@),
                i < n == tracks@.len(),
                t == &tracks[i as int],
                m == t.sends@.len(),
                j <= m,
                forall|b: int| 0 <= b < j ==> ts[i as int].sends[b].target != id,
            decreases m - j,
        {
            if t.sends[j].target == id {
                assert(ts[i as int].sends[j as int].target == id);
                return true;
            }
            j = j + 1;
        }
        i = i + 1;
    }
    false
}

/// Whether the track with id `b` is reachable from the track with id `a`
/// along sends, following chains of at most `fuel + 1` edges.
pub(crate) fn reaches_check(tracks: &Vec<Track>, a: u64, b: u64, fuel: usize) -> (r: bool)
    requires
        crate::model::ids_unique(tracks@.map_values(|t: Track| t@)),
    ensures
        r == reaches(tracks@.map_values(|t: Track| t@), a, b, fuel as nat),
    decreases fuel,
{
    let ghost ts = tracks@.map_values(|t: Track| t@);
    let n = tracks.len();
    // locate the single track with id `a`
    let mut ai: usize = 0;
    let mut found = false;
    while !found && ai < n
        invariant
            ts == tracks@.map_values(|t: Track| t@),
            n == tracks@.len(),
            ai <= n,
            found ==> ai < n && ts[ai as int].id == a,
            !found ==> forall|j: int| 0 <= j < ai ==> ts[j].id != a,
        decreases n - ai, if found { 0int } else { 1int },
    {
        if tracks[ai].id == a {
            found = true;
        } else {
            ai = ai + 1;
        }
    }
    if !found {
        assert forall|m: u64| !edge(ts, a, m) by {
            if edge(ts, a, m) {
                let (i, j): (int, int) = choose|i: int, j: int|
                    0 <= i < ts.len() && 0 <= j < ts[i].sends.len() && ts[i].sends[j].target == m
                        && ts[i].id == a;
                assert(ts[i].id != a);
            }
        }
        assert(!reaches(ts, a, b, fuel as nat));
        return false;
    }
    assert(ts[ai as int].id == a);
    let t = &tracks[ai];
    let m = t.sends.len();
    // a direct edge to b?
    let mut j: usize = 0;
    while j < m
        invariant
            ts == tracks@.map_values(|t: Track| t@),
            ai < n == tracks@.len(),
            t == &tracks[ai as int],
            ts[ai as int].id == a,
            m == t.sends@.len(),
            j <= m,
            forall|k: int| 0 <= k < j ==> ts[ai as int].sends[k].target != b,
        decreases m - j,
    {
        if t.sends[j].target == b {
            assert(ts[ai as int].sends[j as int].target == b);
            assert(edge(ts, a, b));
            return true;
        }
        j = j + 1;
    }
    // no direct edge: any edge from a leaves through a send of track ai
    assert forall|x: u64| edge(ts, a, x) implies exists|k: int|
        0 <= k < ts[ai as int].sends.len() && ts[ai as int].sends[k].target == x by {
        let (i, j2): (int, int) = choose|i: int, j2: int|
            0 <= i < ts.len() && 0 <= j2 < ts[i].sends.len() && ts[i].sends[j2].target == x
                && ts[i].id == a;
        if i != ai as int {
            assert(ts[i].id != ts[ai as int].id);
        }
        assert(ts[ai as int].sends[j2].target == x);
    }
    assert(!edge(ts, a, b));
    if fuel == 0 {
        assert(!reaches(ts, a, b, fuel as nat));
        return false;
    }
    // follow each send one step deeper
    let mut k: usize = 0;
    while k < m
        invariant
            ts == tracks@.map_values(|t: Track| t@),
            ai < n == tracks@.len(),
            t == &tracks[ai as int],
            ts[ai as int].id == a,
            m == t.sends@.len(),
            k <= m,
            fuel >= 1,
            !edge(ts, a, b),
            crate::model::ids_unique(ts),
            forall|x: u64| edge(ts, a, x) ==> exists|w: int|
                0 <= w < ts[ai as int].sends.len() && ts[ai as int].sends[w].target == x,
            forall|w: int|
                0 <= w < k ==> !reaches(ts, ts[ai as int].sends[w].target, b, (fuel - 1) as nat),
        decreases m - k,
    {
        let next = t.sends[k].target;
        assert(ts[ai as int].sends[k as int].target == next);
        if reaches_check(tracks, next, b, fuel - 1) {
            assert(edge(ts, a, next));
            assert(reaches(ts, a, b, fuel as nat));
            return true;
        }
        k = k + 1;
    }
    assert forall|x: u64| !(edge(ts, a, x) && reaches(ts, x, b, (fuel - 1) as nat)) by {
        if edge(ts, a, x) {
            let w = choose|w: int|
                0 <= w < ts[ai as int].sends.len() && ts[ai as int].sends[w].target == x;
            assert(!reaches(ts, ts[ai as int].sends[w].target, b, (fuel - 1) as nat));
        }
    }
    assert(!reaches(ts, a, b, fuel as nat));
    false
}

/// Insert a control point into a sorted point vector, replacing the point
/// at the same time if one exists.
fn insert_point_exec(ps: &Vec<CurvePoint>, q: CurvePoint) -> (r: Vec<CurvePoint>)
    ensures
        r@ == insert_point(ps@, q),
{
    let n = ps.len();
    let mut out: Vec<CurvePoint> = Vec::new();
    let mut i: usize = 0;
    proof {
        assert(ps@.skip(0) =~= ps@);
        assert(out@ + insert_point(ps@, q) =~= insert_point(ps@, q));
        assert(out@ =~= ps@.take(0));
    }
    while i < n && ps[i].time < q.time
        invariant
            n == ps@.len(),
            i <= n,
            insert_point(ps@, q) == out@ + insert_point(ps@.skip(i as int), q),
            out@ == ps@.take(i as int),
            forall|j: int| 0 <= j < i ==> ps@[j].time < q.time,
        decreases n - i,
    {
        proof {
            assert(ps@.skip(i as int)[0] == ps@[i as int]);
            assert(ps@.skip(i as int).drop_first() =~= ps@.skip(i as int + 1));
            assert(insert_point(ps@.skip(i as int), q) == seq![ps@[i as int]] + insert_point(
                ps@.skip(i as int + 1),
                q,
            ));
            assert(out@ + insert_point(ps@.skip(i as int), q) =~= (out@.push(ps@[i as int]))
                + insert_point(ps@.skip(i as int + 1), q));
            assert(out@.push(ps@[i as int]) =~= ps@.take(i as int + 1));
        }
        out.push(ps[i]);
        i = i + 1;
    }
    out.push(q);
    if i < n {
        proof {
            assert(ps@.skip(i as int)[0] == ps@[i as int]);
            assert(ps@.skip(i as int).drop_first() =~= ps@.skip(i as int + 1));
        }
        if ps[i].time == q.time {
            i = i + 1;
        }
    } else {
        proof {
            assert(ps@.skip(i as int) =~= Seq::<CurvePoint>::empty());
        }
    }
    assert(insert_point(ps@, q) =~= out@ + ps@.skip(i as int));
    while i < n
        invariant
            n == ps@.len(),
            i <= n,
            insert_point(ps@, q) =~= out@ + ps@.skip(i as int),
        decreases n - i,
    {
        proof {
            assert(ps@.skip(i as int)[0] == ps@[i as int]);
            assert(ps@.skip(i as int).drop_first() =~= ps@.skip(i as int + 1));
            assert(out@ + ps@.skip(i as int) =~= out@.push(ps@[i as int]) + ps@.skip(i as int + 1));
        }
        out.push(ps[i]);
        i = i + 1;
    }
    proof {
        assert(ps@.skip(i as int) =~= Seq::<CurvePoint>::empty());
        assert(out@ + ps@.skip(i as int) =~= out@);
    }
    out
}

/// Remove the control point at the given time from a sorted point vector.
fn remove_point_exec(ps: &Vec<CurvePoint>, time: u64) -> (r: Vec<CurvePoint>)
    ensures
        r@ == remove_point(ps@, time),
{
    let n = ps.len();
    let mut out: Vec<CurvePoint> = Vec::new();
    let mut i: usize = 0;
    proof {
        assert(ps@.skip(0) =~= ps@);
        assert(out@ + remove_point(ps@, time) =~= remove_point(ps@, time));
        assert(out@ =~= ps@.take(0));
    }
    while i < n && ps[i].time != time
        invariant
            n == ps@.len(),
            i <= n,
            remove_point(ps@, time) == out@ + remove_point(ps@.skip(i as int), time),
            out@ == ps@.take(i as int),
        decreases n - i,
    {
        proof {
            assert(ps@.skip(i as int)[0] == ps@[i as int]);
            assert(ps@.skip(i as int).drop_first() =~= ps@.skip(i as int + 1));
            assert(out@ + remove_point(ps@.skip(i as int), time) =~= (out@.push(ps@[i as int]))
                + remove_point(ps@.skip(i as int + 1), time));
            assert(out@.push(ps@[i as int]) =~= ps@.take(i as int + 1));
        }
        out.push(ps[i]);
        i = i + 1;
    }
    if i < n {
        proof {
            assert(ps@.skip(i as int)[0] == ps@[i as int]);
            assert(ps@.skip(i as int).drop_first() =~= ps@.skip(i as int + 1));
        }
        i = i + 1;
    } else {
        proof {
            assert(ps@.skip(i as int) =~= Seq::<CurvePoint>::empty());
        }
    }
    assert(remove_point(ps@, time) =~= out@ + ps@.skip(i as int));
    while i < n
        invariant
            n == ps@.len(),
            i <= n,
            remove_point(ps@, time) =~= out@ + ps@.skip(i as int),
        decreases n - i,
    {
        proof {
            assert(ps@.skip(i as int)[0] == ps@[i as int]);
            assert(ps@.skip(i as int).drop_first() =~= ps@.skip(i as int + 1));
            assert(out@ + ps@.skip(i as int) =~= out@.push(ps@[i as int]) + ps@.skip(i as int + 1));
        }
        out.push(ps[i]);
        i = i + 1;
    }
    proof {
        assert(ps@.skip(i as int) =~= Seq::<CurvePoint>::empty());
        assert(out@ + ps@.skip(i as int) =~= out@);
    }
    out
}

impl Project {
    /// Apply one command to the project, returning the validation result:
    /// the new state and the result are exactly what the `step` relation
    /// prescribes, and a rejected command leaves the project unchanged.
    pub fn apply(&mut self, c: Command) -> (r: Result<(), CommandError>)
        requires
            old(self)@.wf(),
        ensures
            final(self)@ == step(old(self)@, c).0,
            r == step(old(self)@, c).1,
            final(self)@.wf(),
    {
        let ghost p0 = self@;
        match c {
            Command::AddTrack { id, kind, color } => self.apply_add_track(id, kind, color),
            Command::RemoveTrack { id } => self.apply_remove_track(id),
            Command::AddClip { track_id, clip } => self.apply_add_clip(track_id, clip),
            Command::RemoveClip { track_id, clip_id } => self.apply_remove_clip(track_id, clip_id),
            Command::MoveClip { track_id, clip_id, new_start } => self.apply_move_clip(
                track_id,
                clip_id,
                new_start,
            ),
            Command::SetAutomationPoint { track_id, target, point } => self
                .apply_set_automation_point(track_id, target, point),
            Command::RemoveAutomationPoint { track_id, target, time } => self
                .apply_remove_automation_point(track_id, target, time),
            Command::SetTrackParam { track_id, param } => self.apply_set_track_param(
                track_id,
                param,
            ),
            Command::AddSend { source, send } => self.apply_add_send(source, send),
            Command::RemoveSend { source, target } => self.apply_remove_send(source, target),
            Command::SetTempo { tempo_mbpm } => {
                if tempo_mbpm == 0 {
                    Err(CommandError::InvalidTempo)
                } else {
                    self.transport.tempo_mbpm = tempo_mbpm;
                    Ok(())
                }
            },
            Command::SetTimeSignature { sig_num, sig_den } => {
                if sig_num == 0 || sig_den == 0 {
                    Err(CommandError::InvalidTimeSignature)
                } else {
                    self.transport.sig_num = sig_num;
                    self.transport.sig_den = sig_den;
                    Ok(())
                }
            },
            Command::SetLoop { enabled, loop_start, loop_end } => {
                if (enabled && loop_start > loop_end) || loop_end >= POSITION_LIMIT {
                    Err(CommandError::InvalidLoopRange)
                } else {
                    self.transport.loop_enabled = enabled;
                    self.transport.loop_start = loop_start;
                    self.transport.loop_end = loop_end;
                    Ok(())
                }
            },
            Command::Seek { position } => {
                if position >= POSITION_LIMIT {
                    Err(CommandError::InvalidPosition)
                } else {
                    self.transport.position = position;
                    Ok(())
                }
            },
            Command::Play => {
                self.transport.playing = true;
                Ok(())
            },
            Command::Stop => {
                self.transport.playing = false;
                Ok(())
            },
        }
    }

    /// Create a fresh, empty track.
    fn apply_add_track(&mut self, id: u64, kind: TrackKind, color: u32) -> (r: Result<
        (),
        CommandError,
    >)
        requires
            old(self)@.wf(),
        ensures
            final(self)@ == step_add_track(old(self)@, id, kind, color).0,
            r == step_add_track(old(self)@, id, kind, color).1,
            final(self)@.wf(),
    {
        let ghost p0 = self@;
        if id == MASTER_ID {
            return Err(CommandError::DuplicateTrack);
        }
        match self.find_track(id) {
            Some(_) => Err(CommandError::DuplicateTrack),
            None => {
                if kind == TrackKind::Master {
                    return Err(CommandError::InvalidTrackKind);
                }
                let t = Track::new(id, String::new(), kind, color);
                proof {
                    assert(t@ =~~= fresh_track(id, kind, color));
                }
                self.tracks.push(t);
                proof {
                    let f = |t: Track| t@;
                    assert(self@.tracks =~= p0.tracks.push(fresh_track(id, kind, color)));
                    assert(self@ =~~= step_add_track(p0, id, kind, color).0);
                    let q = self@;
                    let nt = fresh_track(id, kind, color);
                    assert(nt.wf());
                    assert forall|i: int, j: int|
                        0 <= i < q.tracks.len() && 0 <= j < q.tracks[i].sends.len() implies (
                    (#[trigger] q.tracks[i].sends[j]).target == MASTER_ID || q.has_track(
                        q.tracks[i].sends[j].target,
                    )) by {
                        if i < p0.tracks.len() {
                            assert(q.tracks[i] == p0.tracks[i]);
                            if p0.tracks[i].sends[j].target != MASTER_ID {
                                let w = choose|w: int|
                                    0 <= w < p0.tracks.len() && p0.tracks[w].id
                                        == p0.tracks[i].sends[j].target;
                                assert(q.tracks[w].id == p0.tracks[i].sends[j].target);
                            }
                        } else {
                            assert(q.tracks[i] == nt);
                        }
                    }
                    assert(q.wf());
                }
                Ok(())
            },
        }
    }

    /// Remove a track that no send targets.
    fn apply_remove_track(&mut self, id: u64) -> (r: Result<(), CommandError>)
        requires
            old(self)@.wf(),
        ensures
            final(self)@ == step_remove_track(old(self)@, id).0,
            r == step_remove_track(old(self)@, id).1,
            final(self)@.wf(),
    {
        let ghost p0 = self@;
        if id == MASTER_ID {
            return Err(CommandError::MasterImmutable);
        }
        match self.find_track(id) {
            None => Err(CommandError::UnknownTrack),
            Some(ti) => {
                if send_targets_check(&self.tracks, id) {
                    return Err(CommandError::TrackInUse);
                }
                self.tracks.remove(ti);
                proof {
                    assert(self@.tracks =~= p0.tracks.remove(ti as int));
                    assert(self@ =~~= step_remove_track(p0, id).0);
                    let q = self@;
                    let n0 = p0.tracks.len();
                    assert forall|i: int| 0 <= i < q.tracks.len() implies (
                    #[trigger] q.tracks[i]).wf() && q.tracks[i].id != MASTER_ID && q.tracks[i].kind
                        != TrackKind::Master by {
                        if i < ti as int {
                            assert(q.tracks[i] == p0.tracks[i]);
                        } else {
                            assert(q.tracks[i] == p0.tracks[i + 1]);
                        }
                    }
                    assert forall|i: int, j: int| 0 <= i < j < q.tracks.len() implies q.tracks[i].id
                        != q.tracks[j].id by {
                        let i0 = if i < ti as int { i } else { i + 1 };
                        let j0 = if j < ti as int { j } else { j + 1 };
                        assert(q.tracks[i] == p0.tracks[i0] && q.tracks[j] == p0.tracks[j0]);
                    }
                    assert forall|i: int, j: int|
                        0 <= i < q.tracks.len() && 0 <= j < q.tracks[i].sends.len() implies (
                    (#[trigger] q.tracks[i].sends[j]).target == MASTER_ID || q.has_track(
                        q.tracks[i].sends[j].target,
                    )) by {
                        let i0 = if i < ti as int { i } else { i + 1 };
                        assert(q.tracks[i] == p0.tracks[i0]);
                        let tgt = p0.tracks[i0].sends[j].target;
                        assert(!send_targets(p0.tracks, id));
                        assert(tgt != id);
                        if tgt != MASTER_ID {
                            assert(p0.has_track(tgt));
                            let w = choose|w: int|
                                0 <= w < p0.tracks.len() && p0.tracks[w].id == tgt;
                            assert(p0.tracks[ti as int].id == id);
                            assert(w != ti as int);
                            let w2 = if w < ti as int { w } else { w - 1 };
                            assert(q.tracks[w2] == p0.tracks[w]);
                            assert(q.has_track(tgt));
                        }
                    }
                    assert(q.wf());
                }
                Ok(())
            },
        }
    }

    /// Place a clip on an audio track.
    fn apply_add_clip(&mut self, track_id: u64, clip: Clip) -> (r: Result<(), CommandError>)
        requires
            old(self)@.wf(),
        ensures
            final(self)@ == step_add_clip(old(self)@, track_id, clip).0,
            r == step_add_clip(old(self)@, track_id, clip).1,
            final(self)@.wf(),
    {
        let ghost p0 = self@;
        if track_id == MASTER_ID {
            return Err(CommandError::MasterImmutable);
        }
        match self.find_track(track_id) {
            None => Err(CommandError::UnknownTrack),
            Some(ti) => {
                if !matches!(self.tracks[ti].kind, TrackKind::Audio) {
                    return Err(CommandError::InvalidTrackKind);
                }
                if !(clip.duration > 0 && clip.duration < POSITION_LIMIT && clip.start
                    < POSITION_LIMIT - clip.duration && clip.offset < POSITION_LIMIT && clip.gain
                    >= 0) {
                    assert(!clip_ok(clip));
                    return Err(CommandError::InvalidClip);
                }
                assert(clip_ok(clip));
                if self.tracks[ti].find_clip(clip.id).is_some() {
                    return Err(CommandError::DuplicateClip);
                }
                if self.tracks[ti].overlaps_check(clip, clip.id) {
                    return Err(CommandError::ClipOverlap);
                }
                let ghost t0 = p0.tracks[ti as int];
                let tr = &mut self.tracks[ti];
                tr.clips.push(clip);
                proof {
                    let t2 = TrackV { clips: t0.clips.push(clip), ..t0 };
                    assert(self.tracks@[ti as int]@ =~~= t2);
                    assert(self@.tracks =~= p0.tracks.update(ti as int, t2));
                    assert(self@ =~~= step_add_clip(p0, track_id, clip).0);
                    assert forall|i: int, j: int|
                        0 <= i < j < t2.clips.len() implies t2.clips[i].id != t2.clips[j].id && !(
                    clips_overlap(t2.clips[i], t2.clips[j])) by {
                        if j < t0.clips.len() {
                        } else {
                            assert(t2.clips[j] == clip);
                            assert(!t0.has_clip(clip.id));
                            assert(t2.clips[i] == t0.clips[i]);
                            assert(t0.clips[i].id != clip.id);
                            assert(!t0.overlaps_any(clip, clip.id));
                            assert(!clips_overlap(t0.clips[i], clip));
                            assert(!clips_overlap(t2.clips[i], t2.clips[j]));
                        }
                    }
                    assert(t2.wf());
                    lemma_wf_track_update(p0, ti as int, t2);
                    assert(self@.wf());
                }
                Ok(())
            },
        }
    }

    /// Remove a clip from a track.
    fn apply_remove_clip(&mut self, track_id: u64, clip_id: u64) -> (r: Result<(), CommandError>)
        requires
            old(self)@.wf(),
        ensures
            final(self)@ == step_remove_clip(old(self)@, track_id, clip_id).0,
            r == step_remove_clip(old(self)@, track_id, clip_id).1,
            final(self)@.wf(),
    {
        let ghost p0 = self@;
        if track_id == MASTER_ID {
            return Err(CommandError::MasterImmutable);
        }
        match self.find_track(track_id) {
            None => Err(CommandError::UnknownTrack),
            Some(ti) => {
                let ci = match self.tracks[ti].find_clip(clip_id) {
                    None => {
                        return Err(CommandError::UnknownClip);
                    },
                    Some(ci) => ci,
                };
                let ghost t0 = p0.tracks[ti as int];
                let tr = &mut self.tracks[ti];
                tr.clips.remove(ci);
                proof {
                    let t2 = TrackV { clips: t0.clips.remove(ci as int), ..t0 };
                    assert(self.tracks@[ti as int]@ =~~= t2);
                    assert(self@.tracks =~= p0.tracks.update(ti as int, t2));
                    assert(self@ =~~= step_remove_clip(p0, track_id, clip_id).0);
                    assert forall|i: int, j: int|
                        0 <= i < j < t2.clips.len() implies t2.clips[i].id != t2.clips[j].id && !(
                    clips_overlap(t2.clips[i], t2.clips[j])) by {
                        let i0 = if i < ci as int { i } else { i + 1 };
                        let j0 = if j < ci as int { j } else { j + 1 };
                        assert(t2.clips[i] == t0.clips[i0] && t2.clips[j] == t0.clips[j0]);
                    }
                    assert forall|i: int| 0 <= i < t2.clips.len() implies clip_ok(
                        #[trigger] t2.clips[i],
                    ) by {
                        let i0 = if i < ci as int { i } else { i + 1 };
                        assert(t2.clips[i] == t0.clips[i0]);
                    }
                    assert(t2.wf());
                    lemma_wf_track_update(p0, ti as int, t2);
                }
                Ok(())
            },
        }
    }

    /// Move a clip to a new start position.
    fn apply_move_clip(&mut self, track_id: u64, clip_id: u64, new_start: u64) -> (r: Result<
        (),
        CommandError,
    >)
        requires
            old(self)@.wf(),
        ensures
            final(self)@ == step_move_clip(old(self)@, track_id, clip_id, new_start).0,
            r == step_move_clip(old(self)@, track_id, clip_id, new_start).1,
            final(self)@.wf(),
    {
        let ghost p0 = self@;
        if track_id == MASTER_ID {
            return Err(CommandError::MasterImmutable);
        }
        match self.find_track(track_id) {
            None => Err(CommandError::UnknownTrack),
            Some(ti) => {
                let ci = match self.tracks[ti].find_clip(clip_id) {
                    None => {
                        return Err(CommandError::UnknownClip);
                    },
                    Some(ci) => ci,
                };
                let old_clip = self.tracks[ti].clips[ci];
                let moved = Clip { start: new_start, ..old_clip };
                if !(moved.duration > 0 && moved.duration < POSITION_LIMIT && moved.start
                    < POSITION_LIMIT - moved.duration) {
                    assert(!clip_ok(moved));
                    return Err(CommandError::InvalidClip);
                }
                assert(clip_ok(moved));
                if self.tracks[ti].overlaps_check(moved, clip_id) {
                    return Err(CommandError::ClipOverlap);
                }
                let ghost t0 = p0.tracks[ti as int];
                let tr = &mut self.tracks[ti];
                tr.clips.set(ci, moved);
                proof {
                    let t2 = TrackV { clips: t0.clips.update(ci as int, moved), ..t0 };
                    assert(self.tracks@[ti as int]@ =~~= t2);
                    assert(self@.tracks =~= p0.tracks.update(ti as int, t2));
                    assert(self@ =~~= step_move_clip(p0, track_id, clip_id, new_start).0);
                    assert forall|i: int, j: int|
                        0 <= i < j < t2.clips.len() implies t2.clips[i].id != t2.clips[j].id && !(
                    clips_overlap(t2.clips[i], t2.clips[j])) by {
                        if i != ci as int && j != ci as int {
                            assert(t2.clips[i] == t0.clips[i] && t2.clips[j] == t0.clips[j]);
                        } else if i == ci as int {
                            assert(t2.clips[j] == t0.clips[j]);
                            assert(t0.clips[j].id != clip_id);
                            assert(!t0.overlaps_any(moved, clip_id));
                            assert(!clips_overlap(t0.clips[j], moved));
                        } else {
                            assert(t2.clips[i] == t0.clips[i]);
                            assert(t0.clips[i].id != clip_id);
                            assert(!t0.overlaps_any(moved, clip_id));
                            assert(!clips_overlap(t0.clips[i], moved));
                        }
                    }
                    assert forall|i: int| 0 <= i < t2.clips.len() implies clip_ok(
                        #[trigger] t2.clips[i],
                    ) by {
                        if i != ci as int {
                            assert(t2.clips[i] == t0.clips[i]);
                        }
                    }
                    assert(t2.wf());
                    lemma_wf_track_update(p0, ti as int, t2);
                }
                Ok(())
            },
        }
    }
}

/// The track view after `SetAutomationPoint` on it.
pub open spec fn track_with_point(t: TrackV, target: ParamTarget, point: CurvePoint) -> TrackV {
    if t.has_curve(target) {
        let ci = t.curve_idx(target);
        let cv = t.automation[ci];
        TrackV {
            automation: t.automation.update(
                ci,
                CurveV { points: insert_point(cv.points, point), ..cv },
            ),
            ..t
        }
    } else {
        TrackV { automation: t.automation.push(CurveV { target, points: seq![point] }), ..t }
    }
}

/// The track view after `RemoveAutomationPoint` on it.
pub open spec fn track_without_point(t: TrackV, target: ParamTarget, time: u64) -> TrackV {
    let ci = t.curve_idx(target);
    let cv = t.automation[ci];
    TrackV {
        automation: t.automation.update(ci, CurveV { points: remove_point(cv.points, time), ..cv }),
        ..t
    }
}

/// Insert or replace a control point on one track's curve for the given
/// parameter, creating the curve on first use.
fn track_set_point(tr: &mut Track, target: ParamTarget, point: CurvePoint)
    requires
        old(tr)@.wf(),
        point_ok(point),
    ensures
        final(tr)@ == track_with_point(old(tr)@, target, point),
        final(tr)@.wf(),
        final(tr)@.id == old(tr)@.id,
        final(tr)@.kind == old(tr)@.kind,
        final(tr)@.sends == old(tr)@.sends,
        final(tr)@.clips == old(tr)@.clips,
        final(tr)@.pan == old(tr)@.pan,
{
    let ghost t0 = tr@;
    match tr.find_curve(target) {
        Some(ci) => {
            let newpts = insert_point_exec(&tr.automation[ci].points, point);
            let nc = AutomationCurve { target: tr.automation[ci].target, points: newpts };
            let ghost cv = t0.automation[ci as int];
            proof {
                assert(nc@ =~~= CurveV { points: insert_point(cv.points, point), ..cv });
            }
            tr.automation.set(ci, nc);
            proof {
                let t2 = track_with_point(t0, target, point);
                assert(tr@.automation =~~= t0.automation.update(
                    ci as int,
                    CurveV { points: insert_point(cv.points, point), ..cv },
                ));
                assert(tr@ =~~= t2);
                lemma_insert_point_wf(cv.points, point);
                assert forall|i: int| 0 <= i < t2.automation.len() implies points_wf(
                    #[trigger] t2.automation[i].points,
                ) by {
                    if i != ci as int {
                        assert(t2.automation[i] == t0.automation[i]);
                    }
                }
                assert forall|i: int, j: int|
                    0 <= i < j < t2.automation.len() implies t2.automation[i].target
                    != t2.automation[j].target by {
                    assert(t2.automation[i].target == t0.automation[i].target);
                    assert(t2.automation[j].target == t0.automation[j].target);
                }
                assert(t2.wf());
            }
        },
        None => {
            let mut pts: Vec<CurvePoint> = Vec::new();
            pts.push(point);
            let nc = AutomationCurve { target, points: pts };
            proof {
                assert(nc@ =~~= CurveV { target, points: seq![point] });
            }
            tr.automation.push(nc);
            proof {
                let t2 = track_with_point(t0, target, point);
                assert(tr@.automation =~~= t0.automation.push(
                    CurveV { target, points: seq![point] },
                ));
                assert(tr@ =~~= t2);
                assert(points_wf(seq![point]));
                assert forall|i: int| 0 <= i < t2.automation.len() implies points_wf(
                    #[trigger] t2.automation[i].points,
                ) by {
                    if i < t0.automation.len() {
                        assert(t2.automation[i] == t0.automation[i]);
                    }
                }
                assert forall|i: int, j: int|
                    0 <= i < j < t2.automation.len() implies t2.automation[i].target
                    != t2.automation[j].target by {
                    if j < t0.automation.len() {
                    } else {
                        assert(t2.automation[j].target == target);
                        assert(t2.automation[i] == t0.automation[i]);
                        assert(!t0.has_curve(target));
                    }
                }
                assert(t2.wf());
            }
        },
    }
}

/// Remove the control point at the given time from one track's curve.
fn track_remove_point(tr: &mut Track, ci: usize, time: u64)
    requires
        old(tr)@.wf(),
        ci < old(tr)@.automation.len(),
    ensures
        final(tr)@ == (TrackV {
            automation: old(tr)@.automation.update(
                ci as int,
                CurveV {
                    points: remove_point(old(tr)@.automation[ci as int].points, time),
                    ..old(tr)@.automation[ci as int]
                },
            ),
            ..old(tr)@
        }),
        final(tr)@.wf(),
        final(tr)@.id == old(tr)@.id,
        final(tr)@.kind == old(tr)@.kind,
        final(tr)@.sends == old(tr)@.sends,
        final(tr)@.clips == old(tr)@.clips,
        final(tr)@.pan == old(tr)@.pan,
{
    let ghost t0 = tr@;
    let newpts = remove_point_exec(&tr.automation[ci].points, time);
    let nc = AutomationCurve { target: tr.automation[ci].target, points: newpts };
    let ghost cv = t0.automation[ci as int];
    proof {
        assert(nc@ =~~= CurveV { points: remove_point(cv.points, time), ..cv });
    }
    tr.automation.set(ci, nc);
    proof {
        let t2 = TrackV {
            automation: t0.automation.update(
                ci as int,
                CurveV { points: remove_point(cv.points, time), ..cv },
            ),
            ..t0
        };
        assert(tr@.automation =~~= t2.automation);
        assert(tr@ =~~= t2);
        lemma_remove_point_wf(cv.points, time);
        assert forall|i: int| 0 <= i < t2.automation.len() implies points_wf(
            #[trigger] t2.automation[i].points,
        ) by {
            if i != ci as int {
                assert(t2.automation[i] == t0.automation[i]);
            }
        }
        assert forall|i: int, j: int|
            0 <= i < j < t2.automation.len() implies t2.automation[i].target
            != t2.automation[j].target by {
            assert(t2.automation[i].target == t0.automation[i].target);
            assert(t2.automation[j].target == t0.automation[j].target);
        }
        assert(t2.wf());
    }
}

/// Set one mixer parameter on a track, after range validation.
fn track_set_param(tr: &mut Track, param: TrackParam)
    requires
        old(tr)@.wf(),
        param_ok(param),
    ensures
        final(tr)@ == set_param_v(old(tr)@, param),
        final(tr)@.wf(),
        final(tr)@.id == old(tr)@.id,
        final(tr)@.kind == old(tr)@.kind,
        final(tr)@.sends == old(tr)@.sends,
        final(tr)@.clips == old(tr)@.clips,
        (param is Pan) || final(tr)@.pan == old(tr)@.pan,
{
    match param {
        TrackParam::Volume(v) => {
            tr.volume = v;
        },
        TrackParam::Pan(v) => {
            tr.pan = v;
        },
        TrackParam::Muted(b) => {
            tr.muted = b;
        },
        TrackParam::Solo(b) => {
            tr.solo = b;
        },
        TrackParam::Armed(b) => {
            tr.armed = b;
        },
    }
}

impl Project {
    /// Insert or replace an automation control point.
    fn apply_set_automation_point(&mut self, track_id: u64, target: ParamTarget, point: CurvePoint)
        -> (r: Result<(), CommandError>)
        requires
            old(self)@.wf(),
        ensures
            final(self)@ == step_set_automation_point(old(self)@, track_id, target, point).0,
            r == step_set_automation_point(old(self)@, track_id, target, point).1,
            final(self)@.wf(),
    {
        let ghost p0 = self@;
        if track_id == MASTER_ID && matches!(target, ParamTarget::Pan) {
            return Err(CommandError::MasterImmutable);
        }
        if track_id == MASTER_ID {
            if point.value > crate::sample::CURVE_LIMIT || point.value < -crate::sample::CURVE_LIMIT {
                return Err(CommandError::ValueOutOfRange);
            }
            assert(point_ok(point));
            track_set_point(&mut self.master, target, point);
            proof {
                assert(self@ =~~= step_set_automation_point(p0, track_id, target, point).0);
                lemma_wf_master_update(p0, self@.master);
            }
            Ok(())
        } else {
            match self.find_track(track_id) {
                None => Err(CommandError::UnknownTrack),
                Some(ti) => {
                    if point.value > crate::sample::CURVE_LIMIT || point.value
                        < -crate::sample::CURVE_LIMIT {
                        return Err(CommandError::ValueOutOfRange);
                    }
                    assert(point_ok(point));
                    let ghost t0 = p0.tracks[ti as int];
                    let tr = &mut self.tracks[ti];
                    track_set_point(tr, target, point);
                    proof {
                        assert(self@.tracks =~= p0.tracks.update(
                            ti as int,
                            track_with_point(t0, target, point),
                        ));
                        assert(self@ =~~= step_set_automation_point(p0, track_id, target, point).0);
                        lemma_wf_track_update(p0, ti as int, track_with_point(t0, target, point));
                    }
                    Ok(())
                },
            }
        }
    }

    /// Remove an automation control point.
    fn apply_remove_automation_point(&mut self, track_id: u64, target: ParamTarget, time: u64) -> (
    r: Result<(), CommandError>)
        requires
            old(self)@.wf(),
        ensures
            final(self)@ == step_remove_automation_point(old(self)@, track_id, target, time).0,
            r == step_remove_automation_point(old(self)@, track_id, target, time).1,
            final(self)@.wf(),
    {
        let ghost p0 = self@;
        if track_id == MASTER_ID {
            let ci = match self.master.find_curve(target) {
                None => {
                    return Err(CommandError::UnknownCurve);
                },
                Some(ci) => ci,
            };
            match find_point_at(&self.master.automation[ci].points, time) {
                None => {
                    assert(!has_point_at(p0.master.automation[ci as int].points, time));
                    Err(CommandError::UnknownPoint)
                },
                Some(_) => {
                    track_remove_point(&mut self.master, ci, time);
                    proof {
                        assert(self@ =~~= step_remove_automation_point(p0, track_id, target, time)
                            .0);
                        lemma_wf_master_update(p0, self@.master);
                    }
                    Ok(())
                },
            }
        } else {
            match self.find_track(track_id) {
                None => Err(CommandError::UnknownTrack),
                Some(ti) => {
                    let ci = match self.tracks[ti].find_curve(target) {
                        None => {
                            return Err(CommandError::UnknownCurve);
                        },
                        Some(ci) => ci,
                    };
                    match find_point_at(&self.tracks[ti].automation[ci].points, time) {
                        None => {
                            assert(!has_point_at(
                                p0.tracks[ti as int].automation[ci as int].points,
                                time,
                            ));
                            Err(CommandError::UnknownPoint)
                        },
                        Some(_) => {
                            let ghost t0 = p0.tracks[ti as int];
                            let tr = &mut self.tracks[ti];
                            track_remove_point(tr, ci, time);
                            proof {
                                assert(self@.tracks =~= p0.tracks.update(
                                    ti as int,
                                    track_without_point(t0, target, time),
                                ));
                                assert(self@ =~~= step_remove_automation_point(
                                    p0,
                                    track_id,
                                    target,
                                    time,
                                ).0);
                                lemma_wf_track_update(
                                    p0,
                                    ti as int,
                                    track_without_point(t0, target, time),
                                );
                            }
                            Ok(())
                        },
                    }
                },
            }
        }
    }

    /// Set a mixer parameter of a track or of the master.
    fn apply_set_track_param(&mut self, track_id: u64, param: TrackParam) -> (r: Result<
        (),
        CommandError,
    >)
        requires
            old(self)@.wf(),
        ensures
            final(self)@ == step_set_track_param(old(self)@, track_id, param).0,
            r == step_set_track_param(old(self)@, track_id, param).1,
            final(self)@.wf(),
    {
        let ghost p0 = self@;
        let ok = match param {
            TrackParam::Volume(v) => v >= 0,
            TrackParam::Pan(v) => v >= -crate::sample::PAN_LIMIT && v <= crate::sample::PAN_LIMIT,
            TrackParam::Muted(_) => true,
            TrackParam::Solo(_) => true,
            TrackParam::Armed(_) => true,
        };
        if track_id == MASTER_ID {
            if matches!(param, TrackParam::Pan(_)) {
                return Err(CommandError::MasterImmutable);
            }
            if !ok {
                return Err(CommandError::ValueOutOfRange);
            }
            track_set_param(&mut self.master, param);
            proof {
                assert(self@ =~~= step_set_track_param(p0, track_id, param).0);
                lemma_wf_master_update(p0, self@.master);
            }
            Ok(())
        } else {
            match self.find_track(track_id) {
                None => Err(CommandError::UnknownTrack),
                Some(ti) => {
                    if !ok {
                        return Err(CommandError::ValueOutOfRange);
                    }
                    let ghost t0 = p0.tracks[ti as int];
                    let tr = &mut self.tracks[ti];
                    track_set_param(tr, param);
                    proof {
                        assert(self@.tracks =~= p0.tracks.update(ti as int, set_param_v(t0, param)));
                        assert(self@ =~~= step_set_track_param(p0, track_id, param).0);
                        lemma_wf_track_update(p0, ti as int, set_param_v(t0, param));
                    }
                    Ok(())
                },
            }
        }
    }

    /// Add a send from a track to a bus or the master.
    fn apply_add_send(&mut self, source: u64, send: Send) -> (r: Result<(), CommandError>)
        requires
            old(self)@.wf(),
        ensures
            final(self)@ == step_add_send(old(self)@, source, send).0,
            r == step_add_send(old(self)@, source, send).1,
            final(self)@.wf(),
    {
        let ghost p0 = self@;
        if source == MASTER_ID {
            return Err(CommandError::MasterImmutable);
        }
        match self.find_track(source) {
            None => Err(CommandError::UnknownTrack),
            Some(ti) => {
                if send.target != MASTER_ID && self.find_track(send.target).is_none() {
                    return Err(CommandError::UnknownTrack);
                }
                if send.target == source {
                    return Err(CommandError::SelfSend);
                }
                if self.tracks[ti].find_send(send.target).is_some() {
                    return Err(CommandError::DuplicateSend);
                }
                if send.level < 0 {
                    return Err(CommandError::ValueOutOfRange);
                }
                let n = self.tracks.len();
                if send.target != MASTER_ID {
                    proof {
                        assert(crate::model::ids_unique(p0.tracks));
                    }
                    if reaches_check(&self.tracks, send.target, source, n) {
                        return Err(CommandError::SendCycle);
                    }
                }
                let ghost t0 = p0.tracks[ti as int];
                let tr = &mut self.tracks[ti];
                tr.sends.push(send);
                proof {
                    let t2 = TrackV { sends: t0.sends.push(send), ..t0 };
                    assert(self.tracks@[ti as int]@ =~~= t2);
                    assert(self@.tracks =~= p0.tracks.update(ti as int, t2));
                    assert(self@ =~~= step_add_send(p0, source, send).0);
                    let q = self@;
                    assert forall|i: int, j: int|
                        0 <= i < j < t2.sends.len() implies t2.sends[i].target
                        != t2.sends[j].target by {
                        if j < t0.sends.len() {
                        } else {
                            assert(t2.sends[j] == send);
                            assert(!t0.has_send(send.target));
                            assert(t2.sends[i] == t0.sends[i]);
                        }
                    }
                    assert forall|i: int| 0 <= i < t2.sends.len() implies send_ok(
                        #[trigger] t2.sends[i],
                    ) && t2.sends[i].target != t2.id by {
                        if i < t0.sends.len() {
                            assert(t2.sends[i] == t0.sends[i]);
                        } else {
                            assert(t2.sends[i] == send);
                        }
                    }
                    assert(t2.wf());
                    assert forall|i: int, j: int|
                        0 <= i < q.tracks.len() && 0 <= j < q.tracks[i].sends.len() implies (
                    (#[trigger] q.tracks[i].sends[j]).target == MASTER_ID || q.has_track(
                        q.tracks[i].sends[j].target,
                    )) by {
                        let tgt = q.tracks[i].sends[j].target;
                        if tgt != MASTER_ID {
                            if i == ti as int && j == t0.sends.len() {
                                assert(tgt == send.target);
                                let w = choose|w: int|
                                    0 <= w < p0.tracks.len() && p0.tracks[w].id == tgt;
                                assert(q.tracks[w].id == tgt);
                            } else {
                                assert(q.tracks[i].sends[j] == p0.tracks[i].sends[j]);
                                let w = choose|w: int|
                                    0 <= w < p0.tracks.len() && p0.tracks[w].id == tgt;
                                assert(q.tracks[w].id == tgt);
                            }
                        }
                    }
                    assert(q.wf());
                }
                Ok(())
            },
        }
    }

    /// Remove the send from `source` to `target`.
    fn apply_remove_send(&mut self, source: u64, target: u64) -> (r: Result<(), CommandError>)
        requires
            old(self)@.wf(),
        ensures
            final(self)@ == step_remove_send(old(self)@, source, target).0,
            r == step_remove_send(old(self)@, source, target).1,
            final(self)@.wf(),
    {
        let ghost p0 = self@;
        if source == MASTER_ID {
            return Err(CommandError::MasterImmutable);
        }
        match self.find_track(source) {
            None => Err(CommandError::UnknownTrack),
            Some(ti) => {
                let si = match self.tracks[ti].find_send(target) {
                    None => {
                        return Err(CommandError::UnknownSend);
                    },
                    Some(si) => si,
                };
                let ghost t0 = p0.tracks[ti as int];
                let tr = &mut self.tracks[ti];
                tr.sends.remove(si);
                proof {
                    let t2 = TrackV { sends: t0.sends.remove(si as int), ..t0 };
                    assert(self.tracks@[ti as int]@ =~~= t2);
                    assert(self@.tracks =~= p0.tracks.update(ti as int, t2));
                    assert(self@ =~~= step_remove_send(p0, source, target).0);
                    let q = self@;
                    assert forall|i: int, j: int|
                        0 <= i < j < t2.sends.len() implies t2.sends[i].target
                        != t2.sends[j].target by {
                        let i0 = if i < si as int { i } else { i + 1 };
                        let j0 = if j < si as int { j } else { j + 1 };
                        assert(t2.sends[i] == t0.sends[i0] && t2.sends[j] == t0.sends[j0]);
                    }
                    assert forall|i: int| 0 <= i < t2.sends.len() implies send_ok(
                        #[trigger] t2.sends[i],
                    ) && t2.sends[i].target != t2.id by {
                        let i0 = if i < si as int { i } else { i + 1 };
                        assert(t2.sends[i] == t0.sends[i0]);
                    }
                    assert(t2.wf());
                    assert forall|i: int, j: int|
                        0 <= i < q.tracks.len() && 0 <= j < q.tracks[i].sends.len() implies (
                    (#[trigger] q.tracks[i].sends[j]).target == MASTER_ID || q.has_track(
                        q.tracks[i].sends[j].target,
                    )) by {
                        let tgt = q.tracks[i].sends[j].target;
                        if tgt != MASTER_ID {
                            if i == ti as int {
                                let j0 = if j < si as int { j } else { j + 1 };
                                assert(q.tracks[i].sends[j] == p0.tracks[i].sends[j0]);
                            } else {
                                assert(q.tracks[i].sends[j] == p0.tracks[i].sends[j]);
                            }
                            let w = choose|w: int|
                                0 <= w < p0.tracks.len() && p0.tracks[w].id == tgt;
                            assert(q.tracks[w].id == tgt);
                        }
                    }
                    assert(q.wf());
                }
                Ok(())
            },
        }
    }
}

/// Find the position of the control point at the given time.
fn find_point_at(ps: &Vec<CurvePoint>, time: u64) -> (r: Option<usize>)
    ensures
        r is Some <==> has_point_at(ps@, time),
{
    let n = ps.len();
    let mut i: usize = 0;
    while i < n
        invariant
            n == ps@.len(),
            i <= n,
            forall|j: int| 0 <= j < i ==> ps@[j].time != time,
        decreases n - i,
    {
        if ps[i].time == time {
            assert(ps@[i as int].time == time);
            return Some(i);
        }
        i = i + 1;
    }
    None
}

/// Idempotence of `SetTrackParam`: submitting the same parameter change
/// twice yields exactly the state reached by submitting it once, and the
/// same validation result.
pub proof fn lemma_set_track_param_idempotent(p: ProjectV, track_id: u64, param: TrackParam)
    requires
        p.wf(),
    ensures
        step_set_track_param(step_set_track_param(p, track_id, param).0, track_id, param).0
            == step_set_track_param(p, track_id, param).0,
        step_set_track_param(step_set_track_param(p, track_id, param).0, track_id, param).1
            == step_set_track_param(p, track_id, param).1,
{
    let (p1, r1) = step_set_track_param(p, track_id, param);
    if r1 is Err {
        assert(p1 == p);
    } else {
        if track_id == MASTER_ID {
            let m1 = set_param_v(p.master, param);
            assert(set_param_v(m1, param) == m1);
            assert(step_set_track_param(p1, track_id, param).0 == p1);
        } else {
            let ti = p.track_idx(track_id);
            assert(0 <= ti < p.tracks.len() && p.tracks[ti].id == track_id);
            let t1 = set_param_v(p.tracks[ti], param);
            assert(t1.id == track_id);
            assert(p1.tracks == p.tracks.update(ti, t1));
            assert(p1.tracks[ti].id == track_id);
            assert(p1.has_track(track_id));
            let ti2 = p1.track_idx(track_id);
            assert(0 <= ti2 < p1.tracks.len() && p1.tracks[ti2].id == track_id);
            if ti2 != ti {
                assert(p1.tracks[ti2] == p.tracks[ti2]);
                assert(p.tracks[ti2].id != p.tracks[ti].id);
                assert(false);
            }
            assert(p1.tracks[ti] == t1);
            assert(set_param_v(t1, param) == t1);
            let p2 = step_set_track_param(p1, track_id, param).0;
            assert(p2.tracks =~= p1.tracks);
            assert(p2 == p1);
        }
    }
}

/// Send-cycle rejection: once a send from `a` to `b` has been accepted,
/// the opposite send from `b` to `a` is rejected with `SendCycle` and the
/// graph is unchanged.
pub proof fn lemma_send_cycle_rejected(p: ProjectV, a: u64, b: u64, s1: Send, s2: Send)
    requires
        p.wf(),
        s1.target == b,
        s2.target == a,
        send_ok(s2),
        b != MASTER_ID,
        step_add_send(p, a, s1).1 is Ok,
    ensures
        step_add_send(step_add_send(p, a, s1).0, b, s2).1 == Err::<(), CommandError>(
            CommandError::SendCycle,
        ),
        step_add_send(step_add_send(p, a, s1).0, b, s2).0 == step_add_send(p, a, s1).0,
{
    let n = p.tracks.len();
    let ai = p.track_idx(a);
    assert(0 <= ai < n && p.tracks[ai].id == a);
    let ta1 = TrackV { sends: p.tracks[ai].sends.push(s1), ..p.tracks[ai] };
    let p1 = step_add_send(p, a, s1).0;
    assert(p1.tracks == p.tracks.update(ai, ta1));
    assert(p1.tracks.len() == n);
    // b is a known track of p, distinct from a
    assert(p.has_track(b));
    let bi = p.track_idx(b);
    assert(0 <= bi < n && p.tracks[bi].id == b);
    assert(a != b);
    assert(bi != ai);
    assert(p1.tracks[bi] == p.tracks[bi]);
    assert(p1.has_track(b));
    // the index of b in p1 is still bi
    let bi2 = p1.track_idx(b);
    assert(0 <= bi2 < n && p1.tracks[bi2].id == b);
    if bi2 != bi {
        if bi2 == ai {
            assert(p1.tracks[ai].id == a);
            assert(false);
        } else {
            assert(p1.tracks[bi2] == p.tracks[bi2]);
            assert(p.tracks[bi2].id != p.tracks[bi].id);
            assert(false);
        }
    }
    // a is still a track of p1
    assert(p1.tracks[ai].id == a);
    assert(p1.has_track(a));
    // no duplicate: a send from b to a would have been a cycle already
    if p1.tracks[bi].has_send(a) {
        let j = p1.tracks[bi].send_idx(a);
        assert(0 <= j < p.tracks[bi].sends.len() && p.tracks[bi].sends[j].target == a);
        assert(edge(p.tracks, b, a));
        assert(reaches(p.tracks, b, a, n as nat));
        assert(false);
    }
    // the new send makes an edge from a to b, so b's target a reaches b
    let k = ta1.sends.len() - 1;
    assert(ta1.sends[k].target == b && ta1.id == a);
    assert(p1.tracks[ai] == ta1);
    assert(edge(p1.tracks, a, b));
    assert(reaches(p1.tracks, a, b, p1.tracks.len() as nat));
    assert(step_add_send(p1, b, s2).1 == Err::<(), CommandError>(CommandError::SendCycle));
}

} // verus!
