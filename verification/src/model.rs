//! The project data model: clips, sends, tracks, the master bus and the
//! project itself, together with the mathematical view of each and the
//! well-formedness invariants the command channel preserves.
//!
//! Every mutable-state type has a spec-level view (`TrackV`, `ProjectV`)
//! built from sequences and plain values; contracts and the command-step
//! relation speak over those views.

use vstd::prelude::*;
use crate::automation::{AutomationCurve, CurvePoint, ParamTarget, points_wf};
use crate::sample::{PAN_LIMIT, UNIT};
use crate::transport::{Transport, POSITION_LIMIT};

verus! {

/// The id reserved for the master track.
pub const MASTER_ID: u64 = 0;

/// What role a track plays in the graph.
#[derive(Clone, Copy, PartialEq, Eq, Structural, Debug)]
pub enum TrackKind {
    /// An ordinary track carrying clips.
    Audio,
    /// A sub-mix bus: receives sends, has no clips of its own.
    Bus,
    /// The terminal master bus.
    Master,
}

/// An audio clip: a reference to a source placed on the timeline.
#[derive(Clone, Copy, PartialEq, Eq, Structural, Debug)]
pub struct Clip {
    /// Clip id, unique within its track.
    pub id: u64,
    /// Id of the audio source asset the clip reads.
    pub source: u64,
    /// First sample position of the clip on the timeline.
    pub start: u64,
    /// Length of the clip in samples; always positive.
    pub duration: u64,
    /// Offset into the source at which reading starts (the trim).
    pub offset: u64,
    /// Fixed-point playback gain of the clip.
    pub gain: i64,
}

/// A weighted audio path from one track to another.
#[derive(Clone, Copy, PartialEq, Eq, Structural, Debug)]
pub struct Send {
    /// Id of the receiving track (a bus or the master).
    pub target: u64,
    /// Fixed-point send level.
    pub level: i64,
    /// Whether the tap is taken before the fader (volume and mute).
    pub pre_fader: bool,
}

/// The spec-level image of an automation curve.
#[verifier::ext_equal]
pub struct CurveV {
    /// The parameter the curve drives.
    pub target: ParamTarget,
    /// The control points.
    pub points: Seq<CurvePoint>,
}

/// The spec-level image of a track.
#[verifier::ext_equal]
pub struct TrackV {
    /// Track id; unique in the project, 0 is reserved for the master.
    pub id: u64,
    /// Display name.
    pub name: Seq<char>,
    /// The track's role.
    pub kind: TrackKind,
    /// Fixed-point volume gain.
    pub volume: i64,
    /// Fixed-point pan position.
    pub pan: i64,
    /// Whether the track is muted.
    pub muted: bool,
    /// Whether the track is soloed.
    pub solo: bool,
    /// Whether the track is armed for recording.
    pub armed: bool,
    /// Display color, packed RGB.
    pub color: u32,
    /// The clips on the track's timeline.
    pub clips: Seq<Clip>,
    /// The automation curves bound to the track's parameters.
    pub automation: Seq<CurveV>,
    /// The sends leaving the track.
    pub sends: Seq<Send>,
    /// Ids of the effects in the track's chain, in processing order.
    pub effects: Seq<u64>,
}

/// A track of the mixing graph.
#[derive(Debug)]
pub struct Track {
    /// Track id; unique in the project, 0 is reserved for the master.
    pub id: u64,
    /// Display name.
    pub name: String,
    /// The track's role.
    pub kind: TrackKind,
    /// Fixed-point volume gain.
    pub volume: i64,
    /// Fixed-point pan position.
    pub pan: i64,
    /// Whether the track is muted.
    pub muted: bool,
    /// Whether the track is soloed.
    pub solo: bool,
    /// Whether the track is armed for recording.
    pub armed: bool,
    /// Display color, packed RGB.
    pub color: u32,
    /// The clips on the track's timeline.
    pub clips: Vec<Clip>,
    /// The automation curves bound to the track's parameters.
    pub automation: Vec<AutomationCurve>,
    /// The sends leaving the track.
    pub sends: Vec<Send>,
    /// Ids of the effects in the track's chain, in processing order.
    pub effects: Vec<u64>,
}

impl View for AutomationCurve {
    type V = CurveV;

    open spec fn view(&self) -> CurveV {
        CurveV { target: self.target, points: self.points@ }
    }
}

impl View for Track {
    type V = TrackV;

    open spec fn view(&self) -> TrackV {
        TrackV {
            id: self.id,
            name: self.name@,
            kind: self.kind,
            volume: self.volume,
            pan: self.pan,
            muted: self.muted,
            solo: self.solo,
            armed: self.armed,
            color: self.color,
            clips: self.clips@,
            automation: self.automation@.map_values(|c: AutomationCurve| c@),
            sends: self.sends@,
            effects: self.effects@,
        }
    }
}

/// The spec-level image of a project.
#[verifier::ext_equal]
pub struct ProjectV {
    /// Display name.
    pub name: Seq<char>,
    /// Sample rate in Hz, fixed for the project's lifetime.
    pub sample_rate: u32,
    /// The ordinary tracks; the master is held apart.
    pub tracks: Seq<TrackV>,
    /// The master track.
    pub master: TrackV,
    /// The musical clock.
    pub transport: Transport,
}

/// A project: tracks, master bus and transport.
#[derive(Debug)]
pub struct Project {
    /// Display name.
    pub name: String,
    /// Sample rate in Hz, fixed for the project's lifetime.
    pub sample_rate: u32,
    /// The ordinary tracks; the master is held apart.
    pub tracks: Vec<Track>,
    /// The master track.
    pub master: Track,
    /// The musical clock.
    pub transport: Transport,
}

impl View for Project {
    type V = ProjectV;

    open spec fn view(&self) -> ProjectV {
        ProjectV {
            name: self.name@,
            sample_rate: self.sample_rate,
            tracks: self.tracks@.map_values(|t: Track| t@),
            master: self.master@,
            transport: self.transport,
        }
    }
}

/// A gain value is valid: a linear gain is nonnegative and otherwise
/// unbounded; the saturating fixed-point arithmetic needs no cap.
pub open spec fn gain_ok(g: i64) -> bool {
    0 <= g as int
}

/// A pan value is in the valid range.
pub open spec fn pan_ok(p: i64) -> bool {
    -(PAN_LIMIT as int) <= p as int <= PAN_LIMIT as int
}

/// A clip is internally valid: positive duration, bounded placement and
/// trim, gain in range.
pub open spec fn clip_ok(c: Clip) -> bool {
    c.duration > 0 && (c.start as int + c.duration as int) < (POSITION_LIMIT as int) && c.offset
        < POSITION_LIMIT && gain_ok(c.gain)
}

/// Two clips overlap on the timeline.
pub open spec fn clips_overlap(a: Clip, b: Clip) -> bool {
    &&& (a.start as int) < b.start as int + b.duration as int
    &&& (b.start as int) < a.start as int + a.duration as int
}

/// A send is internally valid: its level is a nonnegative linear gain.
pub open spec fn send_ok(s: Send) -> bool {
    0 <= s.level as int
}

impl TrackV {
    /// A track is internally well-formed: parameters in range, clips valid,
    /// pairwise non-overlapping and with unique ids, automation curves
    /// well-formed with unique targets, sends valid with unique targets and
    /// never to the track itself.
    pub open spec fn wf(self) -> bool {
        &&& gain_ok(self.volume)
        &&& pan_ok(self.pan)
        &&& forall|i: int| 0 <= i < self.clips.len() ==> clip_ok(#[trigger] self.clips[i])
        &&& forall|i: int, j: int|
            0 <= i < j < self.clips.len() ==> self.clips[i].id != self.clips[j].id
        &&& forall|i: int, j: int|
            0 <= i < j < self.clips.len() ==> !clips_overlap(self.clips[i], self.clips[j])
        &&& forall|i: int| 0 <= i < self.automation.len() ==> points_wf(
            #[trigger] self.automation[i].points,
        )
        &&& forall|i: int, j: int|
            0 <= i < j < self.automation.len() ==> self.automation[i].target
                != self.automation[j].target
        &&& forall|i: int| 0 <= i < self.sends.len() ==> send_ok(#[trigger] self.sends[i])
        &&& forall|i: int, j: int|
            0 <= i < j < self.sends.len() ==> self.sends[i].target != self.sends[j].target
        &&& forall|i: int| 0 <= i < self.sends.len() ==> (#[trigger] self.sends[i]).target
            != self.id
    }
}

impl ProjectV {
    /// There is a track (other than the master) with the given id.
    pub open spec fn has_track(self, id: u64) -> bool {
        exists|i: int| 0 <= i < self.tracks.len() && self.tracks[i].id == id
    }

    /// The index of the track with the given id.
    pub open spec fn track_idx(self, id: u64) -> int {
        choose|i: int| 0 <= i < self.tracks.len() && self.tracks[i].id == id
    }

    /// A project is well-formed: the master is the reserved terminal bus
    /// (id 0, no clips, no sends, and — as a policy for the terminal
    /// stereo bus — pan pinned to centre, so pan changes and pan curves on
    /// the master are rejected by the command channel), every track is
    /// well-formed
    /// with a unique nonzero id and a non-master kind, every send targets
    /// the master or an existing track, and the transport is well-formed.
    pub open spec fn wf(self) -> bool {
        &&& self.sample_rate > 0
        &&& self.master.id == MASTER_ID
        &&& self.master.kind == TrackKind::Master
        &&& self.master.wf()
        &&& self.master.clips.len() == 0
        &&& self.master.sends.len() == 0
        &&& self.master.pan == 0i64
        &&& forall|i: int| 0 <= i < self.tracks.len() ==> (#[trigger] self.tracks[i]).wf()
        &&& forall|i: int| 0 <= i < self.tracks.len() ==> (#[trigger] self.tracks[i]).id
            != MASTER_ID
        &&& forall|i: int| 0 <= i < self.tracks.len() ==> (#[trigger] self.tracks[i]).kind
            != TrackKind::Master
        &&& forall|i: int, j: int|
            0 <= i < j < self.tracks.len() ==> self.tracks[i].id != self.tracks[j].id
        &&& forall|i: int, j: int|
            0 <= i < self.tracks.len() && 0 <= j < self.tracks[i].sends.len() ==> (
            (#[trigger] self.tracks[i].sends[j]).target == MASTER_ID || self.has_track(
                self.tracks[i].sends[j].target,
            ))
        &&& self.transport.wf()
    }

    /// Any valid index holding the id is the track index: ids are unique.
    pub proof fn lemma_track_idx_unique(self, id: u64, i: int)
        requires
            self.wf(),
            0 <= i < self.tracks.len(),
            self.tracks[i].id == id,
        ensures
            self.track_idx(id) == i,
            self.has_track(id),
    {
        assert(self.has_track(id));
        let j = self.track_idx(id);
        assert(0 <= j < self.tracks.len() && self.tracks[j].id == id);
        if i != j {
            assert(self.tracks[i].id != self.tracks[j].id);
        }
    }
}

/// Track ids are pairwise distinct.
pub open spec fn ids_unique(ts: Seq<TrackV>) -> bool {
    forall|i: int, j: int| 0 <= i < j < ts.len() ==> ts[i].id != ts[j].id
}

/// There is a send from the track with id `a` to the track with id `b`.
pub open spec fn edge(ts: Seq<TrackV>, a: u64, b: u64) -> bool {
    exists|i: int, j: int|
        0 <= i < ts.len() && 0 <= j < ts[i].sends.len() && ts[i].sends[j].target == b && ts[i].id
            == a
}

/// The track with id `b` can be reached from the track with id `a` along a
/// chain of at most `fuel + 1` sends.
pub open spec fn reaches(ts: Seq<TrackV>, a: u64, b: u64, fuel: nat) -> bool
    decreases fuel,
{
    ||| edge(ts, a, b)
    ||| (fuel > 0 && exists|m: u64| edge(ts, a, m) && reaches(ts, m, b, (fuel - 1) as nat))
}

impl Track {
    /// A fresh, empty track with default mix parameters: unity volume,
    /// centred pan, nothing muted or soloed.
    pub fn new(id: u64, name: String, kind: TrackKind, color: u32) -> (t: Track)
        ensures
            t@ == (TrackV {
                id,
                name: name@,
                kind,
                volume: UNIT,
                pan: 0i64,
                muted: false,
                solo: false,
                armed: false,
                color,
                clips: Seq::<Clip>::empty(),
                automation: Seq::<CurveV>::empty(),
                sends: Seq::<Send>::empty(),
                effects: Seq::<u64>::empty(),
            }),
            t@.wf(),
    {
        let t = Track {
            id,
            name,
            kind,
            volume: UNIT,
            pan: 0,
            muted: false,
            solo: false,
            armed: false,
            color,
            clips: Vec::new(),
            automation: Vec::new(),
            sends: Vec::new(),
            effects: Vec::new(),
        };
        proof {
            assert(t.automation@.map_values(|c: AutomationCurve| c@) =~= Seq::<CurveV>::empty());
            assert(t@ =~= TrackV {
                id,
                name: name@,
                kind,
                volume: UNIT,
                pan: 0i64,
                muted: false,
                solo: false,
                armed: false,
                color,
                clips: Seq::<Clip>::empty(),
                automation: Seq::<CurveV>::empty(),
                sends: Seq::<Send>::empty(),
                effects: Seq::<u64>::empty(),
            });
        }
        t
    }
}

impl Track {
    /// Find the position of the clip with the given id.
    pub fn find_clip(&self, id: u64) -> (r: Option<usize>)
        requires
            self@.wf(),
        ensures
            match r {
                Some(i) => self@.has_clip(id) && self@.clip_idx(id) == i as int && i
                    < self.clips.len() && self@.clips[i as int].id == id,
                None => !self@.has_clip(id),
            },
    {
        let n = self.clips.len();
        let mut i: usize = 0;
        while i < n
            invariant
                self@.wf(),
                n == self.clips@.len(),
                i <= n,
                forall|j: int| 0 <= j < i ==> self@.clips[j].id != id,
            decreases n - i,
        {
            if self.clips[i].id == id {
                proof {
                    let k = self@.clip_idx(id);
                    assert(self@.has_clip(id));
                    let w = choose|w: int| 0 <= w < self@.clips.len() && self@.clips[w].id == id;
                    if w != i as int {
                        assert(self@.clips[w].id != self@.clips[i as int].id);
                    }
                }
                return Some(i);
            }
            i = i + 1;
        }
        None
    }

    /// Find the position of the automation curve for the given parameter.
    pub fn find_curve(&self, target: ParamTarget) -> (r: Option<usize>)
        requires
            self@.wf(),
        ensures
            match r {
                Some(i) => self@.has_curve(target) && self@.curve_idx(target) == i as int && i
                    < self.automation.len() && self@.automation[i as int].target == target,
                None => !self@.has_curve(target),
            },
    {
        let n = self.automation.len();
        let mut i: usize = 0;
        while i < n
            invariant
                self@.wf(),
                n == self.automation@.len(),
                i <= n,
                forall|j: int| 0 <= j < i ==> self@.automation[j].target != target,
            decreases n - i,
        {
            if self.automation[i].target == target {
                proof {
                    assert(self@.automation[i as int].target == target);
                    assert(self@.has_curve(target));
                    let w = choose|w: int|
                        0 <= w < self@.automation.len() && self@.automation[w].target == target;
                    if w != i as int {
                        assert(self@.automation[w].target != self@.automation[i as int].target);
                    }
                }
                return Some(i);
            }
            i = i + 1;
        }
        assert(forall|j: int|
            0 <= j < self@.automation.len() ==> self@.automation[j].target != target);
        None
    }

    /// Find the position of the send to the given target.
    pub fn find_send(&self, target: u64) -> (r: Option<usize>)
        requires
            self@.wf(),
        ensures
            match r {
                Some(i) => self@.has_send(target) && self@.send_idx(target) == i as int && i
                    < self.sends.len() && self@.sends[i as int].target == target,
                None => !self@.has_send(target),
            },
    {
        let n = self.sends.len();
        let mut i: usize = 0;
        while i < n
            invariant
                self@.wf(),
                n == self.sends@.len(),
                i <= n,
                forall|j: int| 0 <= j < i ==> self@.sends[j].target != target,
            decreases n - i,
        {
            if self.sends[i].target == target {
                proof {
                    assert(self@.sends[i as int].target == target);
                    assert(self@.has_send(target));
                    let w = choose|w: int|
                        0 <= w < self@.sends.len() && self@.sends[w].target == target;
                    if w != i as int {
                        assert(self@.sends[w].target != self@.sends[i as int].target);
                    }
                }
                return Some(i);
            }
            i = i + 1;
        }
        None
    }

    /// Whether the given clip overlaps any clip on the track other than
    /// the one with id `skip`.
    pub fn overlaps_check(&self, c: Clip, skip: u64) -> (r: bool)
        requires
            self@.wf(),
            clip_ok(c),
        ensures
            r == self@.overlaps_any(c, skip),
    {
        let n = self.clips.len();
        let mut i: usize = 0;
        while i < n
            invariant
                self@.wf(),
                clip_ok(c),
                n == self.clips@.len(),
                i <= n,
                forall|j: int|
                    0 <= j < i ==> !(self@.clips[j].id != skip && clips_overlap(
                        self@.clips[j],
                        c,
                    )),
            decreases n - i,
        {
            let e = self.clips[i];
            proof {
                assert(clip_ok(self@.clips[i as int]));
            }
            if e.id != skip && e.start < c.start + c.duration && c.start < e.start + e.duration {
                assert(clips_overlap(self@.clips[i as int], c));
                return true;
            }
            i = i + 1;
        }
        false
    }
}

impl Project {
    /// A fresh project: no tracks, a master bus at unity gain, a stopped
    /// transport at common defaults.
    pub fn new(name: String, sample_rate: u32) -> (p: Project)
        requires
            sample_rate > 0,
        ensures
            p@.wf(),
            p@.name == name@,
            p@.sample_rate == sample_rate,
            p@.tracks.len() == 0,
            p@.master.volume == UNIT,
            !p@.transport.playing,
            p@.transport.position == 0u64,
            !p@.transport.loop_enabled,
    {
        let master = Track::new(MASTER_ID, String::new(), TrackKind::Master, 0x808080);
        Project { name, sample_rate, tracks: Vec::new(), master, transport: Transport::new() }
    }

    /// Find the position of the track with the given id.
    pub fn find_track(&self, id: u64) -> (r: Option<usize>)
        requires
            self@.wf(),
        ensures
            match r {
                Some(i) => self@.has_track(id) && self@.track_idx(id) == i as int && i
                    < self.tracks.len() && self@.tracks[i as int].id == id,
                None => !self@.has_track(id),
            },
    {
        let n = self.tracks.len();
        let mut i: usize = 0;
        while i < n
            invariant
                self@.wf(),
                n == self.tracks@.len(),
                i <= n,
                forall|j: int| 0 <= j < i ==> self@.tracks[j].id != id,
            decreases n - i,
        {
            if self.tracks[i].id == id {
                proof {
                    self@.lemma_track_idx_unique(id, i as int);
                }
                return Some(i);
            }
            i = i + 1;
        }
        assert(!self@.has_track(id));
        None
    }
}

} // verus!
