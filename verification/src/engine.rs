//! The mixing graph: renders one stereo audio block per call, sample
//! accurate and deterministic for the project state and transport position
//! at call time.
//!
//! The meaning of a rendered sample is given by the spec functions here:
//! clips are summed into track content, sends feed their targets (pre- or
//! post-fader), the fader applies the automation-evaluated volume, pan
//! splits each track's signal onto the stereo master input, and the master
//! applies its own volume and clamps into the valid output range. Effects
//! are opaque host-supplied units; where every effect chain is empty the
//! output is pinned exactly by these functions, and in every case each
//! output sample is clamped into `[-OUTPUT_LIMIT, OUTPUT_LIMIT]`.
//!
//! The contracts pin what every block holds, not how its memory is
//! managed: this implementation allocates working buffers per block, and
//! a host with a hard real-time budget would pool them. That operational
//! concern lies outside what these contracts state.

use vstd::prelude::*;
use crate::automation::{curve_value_at, points_wf, ParamTarget};
use crate::command::{apply_all, lemma_step_err_unchanged, step, Command, CommandError};
use crate::model::{Clip, Project, ProjectV, Track, TrackKind, TrackV};
use crate::sample::{clamp_out, mix_step, sat64, scaled_mul, PAN_LIMIT, UNIT};
use crate::transport::{TimeRange, Transport, POSITION_LIMIT};

verus! {

/// Largest block size a render call may ask for.
pub const MAX_BLOCK: u64 = 0x100000;

/// An audio source asset: a buffer of samples addressed by id.
#[derive(Debug)]
pub struct AudioSource {
    /// The asset id clips refer to.
    pub id: u64,
    /// The source samples.
    pub samples: Vec<i64>,
}

/// The spec-level image of an audio source.
#[verifier::ext_equal]
pub struct SourceV {
    /// The asset id clips refer to.
    pub id: u64,
    /// The source samples.
    pub samples: Seq<i64>,
}

impl View for AudioSource {
    type V = SourceV;

    open spec fn view(&self) -> SourceV {
        SourceV { id: self.id, samples: self.samples@ }
    }
}

/// A non-fatal condition raised while rendering; playback continues with
/// silence substituted for the affected region.
#[derive(Clone, Copy, PartialEq, Eq, Structural, Debug)]
pub enum Warning {
    /// A clip refers to an audio source that is not loaded.
    MissingSource { clip_id: u64, source: u64 },
    /// An effect handed back a block of the wrong length; it was replaced
    /// with silence.
    EffectShape { track_id: u64, effect_id: u64 },
    /// An effect handed back a non-finite sample; it was replaced with
    /// silence.
    NonFiniteSample { track_id: u64 },
}

/// The host side of the effect boundary: an opaque processing unit invoked
/// at most once per track per block, in chain order, handed the track's
/// effect-parameter values evaluated once at block start. Implementations
/// are unverified; the engine sanitises whatever comes back.
pub trait EffectHost {
    /// Process one mono block through the effect with the given id.
    /// `params` holds one `(parameter id, fixed-point value)` pair for
    /// each populated effect-parameter automation curve of the track,
    /// evaluated at the start of the block.
    fn process(
        &mut self,
        effect_id: u64,
        track_id: u64,
        input: Vec<i64>,
        params: &Vec<(u64, i64)>,
    ) -> Vec<i64>;
}

/// An effect host with no effects: hands every block back unchanged.
pub struct NoEffects {}

impl EffectHost for NoEffects {
    fn process(
        &mut self,
        effect_id: u64,
        track_id: u64,
        input: Vec<i64>,
        params: &Vec<(u64, i64)>,
    ) -> Vec<i64> {
        input
    }
}

/// There is a source with the given id.
pub open spec fn has_source(srcs: Seq<SourceV>, id: u64) -> bool {
    exists|i: int| 0 <= i < srcs.len() && srcs[i].id == id
}

/// The index of the source with the given id.
pub open spec fn source_idx(srcs: Seq<SourceV>, id: u64) -> int {
    choose|i: int| 0 <= i < srcs.len() && srcs[i].id == id
}

/// Source ids are pairwise distinct.
pub open spec fn sources_unique(srcs: Seq<SourceV>) -> bool {
    forall|i: int, j: int| 0 <= i < j < srcs.len() ==> srcs[i].id != srcs[j].id
}

/// The sample a source holds at an index: silence for a missing source or
/// an index past its end.
pub open spec fn source_sample(srcs: Seq<SourceV>, id: u64, idx: int) -> int {
    if has_source(srcs, id) && 0 <= idx < srcs[source_idx(srcs, id)].samples.len() {
        srcs[source_idx(srcs, id)].samples[idx] as int
    } else {
        0
    }
}

/// One clip's contribution at timeline position `t`: the source sample at
/// the clip's trim offset, scaled by the clip gain; zero outside the clip.
pub open spec fn clip_term(c: Clip, srcs: Seq<SourceV>, t: int) -> int {
    if c.start as int <= t < c.start as int + c.duration as int {
        sat64(scaled_mul(source_sample(srcs, c.source, c.offset as int + (t - c.start as int)), c.gain as int))
    } else {
        0
    }
}

/// The saturating sum of the first `k` clips' contributions at `t`.
pub open spec fn clips_prefix(cs: Seq<Clip>, srcs: Seq<SourceV>, t: int, k: int) -> int
    decreases k,
{
    if k <= 0 {
        0
    } else {
        sat64(clips_prefix(cs, srcs, t, k - 1) + clip_term(cs[k - 1], srcs, t))
    }
}

/// A track's own content at `t`: all its clips summed.
pub open spec fn content_at(t: TrackV, srcs: Seq<SourceV>, time: int) -> int {
    clips_prefix(t.clips, srcs, time, t.clips.len() as int)
}

/// Clamp a mathematical integer into the valid gain range: a gain is
/// nonnegative.
pub open spec fn clamp_gain(x: int) -> int {
    if x < 0 {
        0
    } else {
        x
    }
}

/// Clamp a mathematical integer into the valid pan range.
pub open spec fn clamp_pan(x: int) -> int {
    if x < -(PAN_LIMIT as int) {
        -(PAN_LIMIT as int)
    } else if x > PAN_LIMIT as int {
        PAN_LIMIT as int
    } else {
        x
    }
}

/// The effective volume of a track at block-start time `t0`: the volume
/// automation curve evaluated at `t0` and clamped into the gain range, or
/// the static volume when the track has no populated volume curve.
pub open spec fn vol_at(t: TrackV, t0: int) -> int {
    if t.has_curve(ParamTarget::Volume) && t.automation[t.curve_idx(ParamTarget::Volume)].points.len() > 0 {
        clamp_gain(curve_value_at(t.automation[t.curve_idx(ParamTarget::Volume)].points, t0))
    } else {
        t.volume as int
    }
}

/// The effective pan of a track at block-start time `t0`.
pub open spec fn pan_at(t: TrackV, t0: int) -> int {
    if t.has_curve(ParamTarget::Pan) && t.automation[t.curve_idx(ParamTarget::Pan)].points.len() > 0 {
        clamp_pan(curve_value_at(t.automation[t.curve_idx(ParamTarget::Pan)].points, t0))
    } else {
        t.pan as int
    }
}

/// The effect-parameter values of the first `k` automation curves of a
/// track, evaluated at block-start time `t0`: one `(parameter id, value)`
/// pair for each populated curve bound to an effect parameter.
pub open spec fn effect_params_prefix(cs: Seq<crate::model::CurveV>, t0: int, k: int) -> Seq<
    (u64, i64),
>
    decreases k,
{
    if k <= 0 {
        Seq::<(u64, i64)>::empty()
    } else {
        let rest = effect_params_prefix(cs, t0, k - 1);
        match cs[k - 1].target {
            ParamTarget::EffectParam(pid) => if cs[k - 1].points.len() > 0 {
                rest.push((pid, curve_value_at(cs[k - 1].points, t0) as i64))
            } else {
                rest
            },
            _ => rest,
        }
    }
}

/// All effect-parameter values of a track at block-start time `t0`.
pub open spec fn effect_params_at(t: TrackV, t0: int) -> Seq<(u64, i64)> {
    effect_params_prefix(t.automation, t0, t.automation.len() as int)
}

/// Evaluate a track's effect-parameter automation once at block start.
fn eval_effect_params(tr: &Track, t0: u64) -> (r: Vec<(u64, i64)>)
    requires
        tr@.wf(),
    ensures
        r@ == effect_params_at(tr@, t0 as int),
{
    let n = tr.automation.len();
    let mut r: Vec<(u64, i64)> = Vec::new();
    let mut i: usize = 0;
    while i < n
        invariant
            tr@.wf(),
            n == tr.automation@.len(),
            i <= n,
            r@ == effect_params_prefix(tr@.automation, t0 as int, i as int),
        decreases n - i,
    {
        proof {
            assert(tr@.automation[i as int] == tr.automation@[i as int]@);
        }
        match tr.automation[i].target {
            ParamTarget::EffectParam(pid) => {
                if tr.automation[i].points.len() > 0 {
                    proof {
                        assert(points_wf(tr@.automation[i as int].points));
                    }
                    let v = tr.automation[i].value_at(t0);
                    r.push((pid, v));
                }
            },
            _ => {},
        }
        i = i + 1;
    }
    r
}

/// The warnings already raised stay in place: `a` is a prefix of `b`, so
/// nothing recorded earlier is discarded.
pub open spec fn keeps_warnings(a: Seq<Warning>, b: Seq<Warning>) -> bool {
    a.len() <= b.len() && b.subrange(0, a.len() as int) == a
}

/// Prefix preservation is transitive.
proof fn lemma_keeps_warnings_trans(a: Seq<Warning>, b: Seq<Warning>, c: Seq<Warning>)
    requires
        keeps_warnings(a, b),
        keeps_warnings(b, c),
    ensures
        keeps_warnings(a, c),
{
    assert forall|i: int| 0 <= i < a.len() implies c.subrange(0, a.len() as int)[i] == a[i] by {
        assert(c.subrange(0, b.len() as int)[i] == b[i]);
        assert(b.subrange(0, a.len() as int)[i] == a[i]);
    }
    assert(c.subrange(0, a.len() as int) =~= a);
}

/// Pushing one warning keeps every earlier one in place.
proof fn lemma_keeps_warnings_push(a: Seq<Warning>, w: Warning)
    ensures
        keeps_warnings(a, a.push(w)),
{
    assert(a.push(w).subrange(0, a.len() as int) =~= a);
}

/// A sequence is a prefix of itself.
proof fn lemma_keeps_warnings_refl(a: Seq<Warning>)
    ensures
        keeps_warnings(a, a),
{
    assert(a.subrange(0, a.len() as int) =~= a);
}

/// Some track is soloed.
pub open spec fn any_solo(p: ProjectV) -> bool {
    exists|i: int| 0 <= i < p.tracks.len() && p.tracks[i].solo
}

/// A soloed track's signal flows into the track with the given id along
/// sends (following chains bounded by the track count, which covers every
/// simple path).
pub open spec fn solo_feeds(p: ProjectV, tid: u64) -> bool {
    exists|i: int|
        0 <= i < p.tracks.len() && p.tracks[i].solo && crate::model::reaches(
            p.tracks,
            p.tracks[i].id,
            tid,
            p.tracks.len() as nat,
        )
}

/// Whether a track is audible this block: muted tracks are silent, and
/// when any track is soloed only soloed tracks stay audible, together
/// with the buses on a soloed track's send path.
pub open spec fn audible(p: ProjectV, t: TrackV) -> bool {
    !t.muted && (!any_solo(p) || t.solo || (t.kind == TrackKind::Bus && solo_feeds(p, t.id)))
}

/// Whether a soloed track's signal flows into the track with the given id.
fn solo_feeds_check(p: &Project, tid: u64) -> (r: bool)
    requires
        p@.wf(),
    ensures
        r == solo_feeds(p@, tid),
{
    let n = p.tracks.len();
    let mut i: usize = 0;
    while i < n
        invariant
            p@.wf(),
            n == p.tracks@.len(),
            i <= n,
            forall|j: int|
                0 <= j < i ==> !(p@.tracks[j].solo && crate::model::reaches(
                    p@.tracks,
                    p@.tracks[j].id,
                    tid,
                    p@.tracks.len() as nat,
                )),
        decreases n - i,
    {
        if p.tracks[i].solo {
            proof {
                assert(crate::model::ids_unique(p@.tracks));
            }
            if crate::command::reaches_check(&p.tracks, p.tracks[i].id, tid, n) {
                assert(p@.tracks[i as int].solo);
                return true;
            }
        }
        i = i + 1;
    }
    false
}

/// The gain the left channel receives for a pan position.
pub open spec fn pan_left(pan: int) -> int {
    if pan > 0 {
        UNIT as int - pan
    } else {
        UNIT as int
    }
}

/// The gain the right channel receives for a pan position.
pub open spec fn pan_right(pan: int) -> int {
    if pan < 0 {
        UNIT as int + pan
    } else {
        UNIT as int
    }
}

/// No track (and not the master) carries an effect chain: on such projects
/// the rendered output is pinned exactly.
pub open spec fn no_effects(p: ProjectV) -> bool {
    &&& p.master.effects.len() == 0
    &&& forall|i: int| 0 <= i < p.tracks.len() ==> (#[trigger] p.tracks[i]).effects.len() == 0
}

/// The pre-fader signal of track `i` at time `t` (volume automation read
/// at block start `t0`): its own content plus everything the sends of
/// other tracks feed into it, following send chains at most `fuel` deep.
pub open spec fn pre_sig(p: ProjectV, srcs: Seq<SourceV>, i: int, t: int, t0: int, fuel: nat) -> int
    decreases fuel, p.tracks.len() + 2, 0int,
{
    if fuel == 0 {
        content_at(p.tracks[i], srcs, t)
    } else {
        recv_upto(p, srcs, i, t, t0, fuel, p.tracks.len() as int, 0)
    }
}

/// The running mix of track `i`'s content with the sends of all tracks
/// before `j`, plus the first `k` sends of track `j`, in order.
pub open spec fn recv_upto(
    p: ProjectV,
    srcs: Seq<SourceV>,
    i: int,
    t: int,
    t0: int,
    fuel: nat,
    j: int,
    k: int,
) -> int
    decreases fuel, j, k,
{
    if j <= 0 && k <= 0 {
        content_at(p.tracks[i], srcs, t)
    } else if k <= 0 {
        recv_upto(p, srcs, i, t, t0, fuel, j - 1, p.tracks[j - 1].sends.len() as int)
    } else {
        let prev = recv_upto(p, srcs, i, t, t0, fuel, j, k - 1);
        let snd = p.tracks[j].sends[k - 1];
        if snd.target == p.tracks[i].id && fuel > 0 {
            let tap = if snd.pre_fader {
                pre_sig(p, srcs, j, t, t0, (fuel - 1) as nat)
            } else {
                post_sig(p, srcs, j, t, t0, (fuel - 1) as nat)
            };
            mix_step(prev, tap, snd.level as int)
        } else {
            prev
        }
    }
}

/// The post-fader signal of track `i`: the pre-fader signal scaled by the
/// effective volume, or silence when the track is not audible.
pub open spec fn post_sig(p: ProjectV, srcs: Seq<SourceV>, i: int, t: int, t0: int, fuel: nat) -> int
    decreases fuel, p.tracks.len() + 3, 0int,
{
    if audible(p, p.tracks[i]) {
        sat64(scaled_mul(pre_sig(p, srcs, i, t, t0, fuel), vol_at(p.tracks[i], t0)))
    } else {
        0
    }
}

/// The master's left input at `t`: every track's post-fader signal, split
/// by its pan position, summed over the first `k` tracks.
///
/// Mixing is additive in track-index order, saturating at every step;
/// this order is the definition of the mix. Whenever no accumulation
/// saturates, integer addition is commutative and the summation order is
/// immaterial; in saturated corners the canonical order decides.
pub open spec fn master_in_left(p: ProjectV, srcs: Seq<SourceV>, t: int, t0: int, k: int) -> int
    decreases k,
{
    if k <= 0 {
        0
    } else {
        let pan = pan_at(p.tracks[k - 1], t0);
        mix_step(
            master_in_left(p, srcs, t, t0, k - 1),
            post_sig(p, srcs, k - 1, t, t0, p.tracks.len() as nat),
            pan_left(pan),
        )
    }
}

/// The master's right input at `t`.
pub open spec fn master_in_right(p: ProjectV, srcs: Seq<SourceV>, t: int, t0: int, k: int) -> int
    decreases k,
{
    if k <= 0 {
        0
    } else {
        let pan = pan_at(p.tracks[k - 1], t0);
        mix_step(
            master_in_right(p, srcs, t, t0, k - 1),
            post_sig(p, srcs, k - 1, t, t0, p.tracks.len() as nat),
            pan_right(pan),
        )
    }
}

/// Sends that target the master feed its input directly (mono, on both
/// channels): the running mix over all send entries before position
/// `(j, k)`, starting from `acc`.
pub open spec fn master_sends_from(
    p: ProjectV,
    srcs: Seq<SourceV>,
    t: int,
    t0: int,
    j: int,
    k: int,
    acc: int,
) -> int
    decreases j, k,
{
    if j <= 0 && k <= 0 {
        acc
    } else if k <= 0 {
        master_sends_from(p, srcs, t, t0, j - 1, p.tracks[j - 1].sends.len() as int, acc)
    } else {
        let prev = master_sends_from(p, srcs, t, t0, j, k - 1, acc);
        let snd = p.tracks[j].sends[k - 1];
        if snd.target == crate::model::MASTER_ID {
            let tap = if snd.pre_fader {
                pre_sig(p, srcs, j, t, t0, p.tracks.len() as nat)
            } else {
                post_sig(p, srcs, j, t, t0, p.tracks.len() as nat)
            };
            mix_step(prev, tap, snd.level as int)
        } else {
            prev
        }
    }
}

/// The master's whole left input: the pan-split track signals plus every
/// send that targets the master.
pub open spec fn master_total_left(p: ProjectV, srcs: Seq<SourceV>, t: int, t0: int) -> int {
    master_sends_from(
        p,
        srcs,
        t,
        t0,
        p.tracks.len() as int,
        0,
        master_in_left(p, srcs, t, t0, p.tracks.len() as int),
    )
}

/// The master's whole right input.
pub open spec fn master_total_right(p: ProjectV, srcs: Seq<SourceV>, t: int, t0: int) -> int {
    master_sends_from(
        p,
        srcs,
        t,
        t0,
        p.tracks.len() as int,
        0,
        master_in_right(p, srcs, t, t0, p.tracks.len() as int),
    )
}

/// The final left output sample at `t`: the master input scaled by the
/// master's effective volume and clamped into the valid output range.
pub open spec fn final_left(p: ProjectV, srcs: Seq<SourceV>, t: int, t0: int) -> int {
    clamp_out(sat64(scaled_mul(master_total_left(p, srcs, t, t0), vol_at(p.master, t0))))
}

/// The final right output sample at `t`.
pub open spec fn final_right(p: ProjectV, srcs: Seq<SourceV>, t: int, t0: int) -> int {
    clamp_out(sat64(scaled_mul(master_total_right(p, srcs, t, t0), vol_at(p.master, t0))))
}

/// The number of samples a block takes from the current position before
/// wrapping at the loop end.
pub open spec fn first_len(tr: Transport, bs: int) -> int {
    if tr.wraps(bs) {
        tr.loop_end as int - tr.position as int
    } else {
        bs
    }
}

/// The timeline position of output sample `k` of a block: before the wrap
/// it counts from the current position, after it from the loop start.
pub open spec fn sample_pos(tr: Transport, bs: int, k: int) -> int {
    if k < first_len(tr, bs) {
        tr.position as int + k
    } else {
        tr.loop_start as int + (k - first_len(tr, bs))
    }
}

/// The block-start time governing automation for output sample `k`.
pub open spec fn sample_t0(tr: Transport, bs: int, k: int) -> int {
    if k < first_len(tr, bs) {
        tr.position as int
    } else {
        tr.loop_start as int
    }
}

/// Find the position of the source with the given id.
fn find_source(srcs: &Vec<AudioSource>, id: u64) -> (r: Option<usize>)
    requires
        sources_unique(srcs@.map_values(|s: AudioSource| s@)),
    ensures
        match r {
            Some(i) => has_source(srcs@.map_values(|s: AudioSource| s@), id) && source_idx(
                srcs@.map_values(|s: AudioSource| s@),
                id,
            ) == i as int && i < srcs.len() && srcs@[i as int].id == id,
            None => !has_source(srcs@.map_values(|s: AudioSource| s@), id),
        },
{
    let ghost sv = srcs@.map_values(|s: AudioSource| s@);
    let n = srcs.len();
    let mut i: usize = 0;
    while i < n
        invariant
            sv == srcs@.map_values(|s: AudioSource| s@),
            sources_unique(sv),
            n == srcs@.len(),
            i <= n,
            forall|j: int| 0 <= j < i ==> sv[j].id != id,
        decreases n - i,
    {
        if srcs[i].id == id {
            proof {
                assert(sv[i as int].id == id);
                assert(has_source(sv, id));
                let w = choose|w: int| 0 <= w < sv.len() && sv[w].id == id;
                if w != i as int {
                    assert(sv[w].id != sv[i as int].id);
                }
            }
            return Some(i);
        }
        i = i + 1;
    }
    None
}

/// Whether any track of the project is soloed.
fn any_solo_check(p: &Project) -> (r: bool)
    ensures
        r == any_solo(p@),
{
    let n = p.tracks.len();
    let mut i: usize = 0;
    while i < n
        invariant
            n == p.tracks@.len(),
            i <= n,
            forall|j: int| 0 <= j < i ==> !p@.tracks[j].solo,
        decreases n - i,
    {
        if p.tracks[i].solo {
            assert(p@.tracks[i as int].solo);
            return true;
        }
        i = i + 1;
    }
    false
}

/// The effective volume of a track at block-start time `t0`.
fn eval_vol(tr: &Track, t0: u64) -> (v: i64)
    requires
        tr@.wf(),
    ensures
        v as int == vol_at(tr@, t0 as int),
        0 <= v as int,
{
    match tr.find_curve(ParamTarget::Volume) {
        Some(ci) => {
            if tr.automation[ci].points.len() > 0 {
                proof {
                    assert(points_wf(tr@.automation[ci as int].points));
                    assert(tr.automation@[ci as int]@.points == tr@.automation[ci as int].points);
                }
                let raw = tr.automation[ci].value_at(t0);
                if raw < 0 {
                    0
                } else {
                    raw
                }
            } else {
                tr.volume
            }
        },
        None => tr.volume,
    }
}

/// The effective pan of a track at block-start time `t0`.
fn eval_pan(tr: &Track, t0: u64) -> (v: i64)
    requires
        tr@.wf(),
    ensures
        v as int == pan_at(tr@, t0 as int),
        -(PAN_LIMIT as int) <= v as int <= PAN_LIMIT as int,
{
    match tr.find_curve(ParamTarget::Pan) {
        Some(ci) => {
            if tr.automation[ci].points.len() > 0 {
                proof {
                    assert(points_wf(tr@.automation[ci as int].points));
                    assert(tr.automation@[ci as int]@.points == tr@.automation[ci as int].points);
                }
                let raw = tr.automation[ci].value_at(t0);
                if raw < -PAN_LIMIT {
                    -PAN_LIMIT
                } else if raw > PAN_LIMIT {
                    PAN_LIMIT
                } else {
                    raw
                }
            } else {
                tr.pan
            }
        },
        None => tr.pan,
    }
}

/// Accumulate one clip's contribution over a time range onto a buffer.
fn add_clip_into(
    buf: &mut Vec<i64>,
    clip: Clip,
    srcs: &Vec<AudioSource>,
    range: TimeRange,
    warn: &mut Vec<Warning>,
)
    requires
        crate::model::clip_ok(clip),
        sources_unique(srcs@.map_values(|s: AudioSource| s@)),
        range.wf(),
        range.end < POSITION_LIMIT,
        range.len() <= MAX_BLOCK as int,
        old(buf)@.len() == range.len(),
    ensures
        final(buf)@.len() == range.len(),
        forall|q: int|
            0 <= q < range.len() ==> #[trigger] final(buf)@[q] as int == sat64(
                old(buf)@[q] as int + clip_term(
                    clip,
                    srcs@.map_values(|s: AudioSource| s@),
                    range.start as int + q,
                ),
            ),
        keeps_warnings(old(warn)@, final(warn)@),
{
    let ghost sv = srcs@.map_values(|s: AudioSource| s@);
    let src_opt = find_source(srcs, clip.source);
    if src_opt.is_none() {
        warn.push(Warning::MissingSource { clip_id: clip.id, source: clip.source });
        proof {
            lemma_keeps_warnings_push(old(warn)@, Warning::MissingSource {
                clip_id: clip.id,
                source: clip.source,
            });
        }
    } else {
        proof {
            lemma_keeps_warnings_refl(old(warn)@);
        }
    }
    let len = (range.end - range.start) as usize;
    let mut k: usize = 0;
    while k < len
        invariant
            sv == srcs@.map_values(|s: AudioSource| s@),
            sources_unique(sv),
            crate::model::clip_ok(clip),
            range.wf(),
            range.end < POSITION_LIMIT,
            len == range.len(),
            buf@.len() == len,
            k <= len,
            match src_opt {
                Some(si) => has_source(sv, clip.source) && source_idx(sv, clip.source) == si as int
                    && si < srcs@.len(),
                None => !has_source(sv, clip.source),
            },
            forall|q: int|
                0 <= q < k ==> #[trigger] buf@[q] as int == sat64(
                    old(buf)@[q] as int + clip_term(clip, sv, range.start as int + q),
                ),
            forall|q: int| k <= q < len ==> buf@[q] == old(buf)@[q],
            keeps_warnings(old(warn)@, warn@),
        decreases len - k,
    {
        let t = range.start + k as u64;
        if clip.start <= t && t < clip.start + clip.duration {
            let idx = clip.offset + (t - clip.start);
            let val: i64 = match src_opt {
                Some(si) => {
                    let smp = &srcs[si].samples;
                    if idx < smp.len() as u64 {
                        smp[idx as usize]
                    } else {
                        0
                    }
                },
                None => 0,
            };
            assert(val as int == source_sample(sv, clip.source, idx as int));
            let scaled = crate::sample::apply_gain(val, clip.gain);
            let mixed = crate::sample::sat_add(buf[k], scaled);
            buf.set(k, mixed);
            assert(buf@[k as int] as int == sat64(
                old(buf)@[k as int] as int + clip_term(clip, sv, t as int),
            ));
        } else {
            assert(clip_term(clip, sv, t as int) == 0);
            assert(buf@[k as int] as int == sat64(
                old(buf)@[k as int] as int + clip_term(clip, sv, t as int),
            ));
        }
        k = k + 1;
    }
}

/// Render the pre-fader signal of track `i` over a time range: clip
/// content, received sends (chains at most `fuel` deep), then the track's
/// effect chain, sanitised.
fn render_pre<E: EffectHost>(
    p: &Project,
    srcs: &Vec<AudioSource>,
    i: usize,
    range: TimeRange,
    fuel: usize,
    fx: &mut E,
    warn: &mut Vec<Warning>,
) -> (out: Vec<i64>)
    requires
        p@.wf(),
        i < p.tracks@.len(),
        sources_unique(srcs@.map_values(|s: AudioSource| s@)),
        range.wf(),
        range.end < POSITION_LIMIT,
        range.len() <= MAX_BLOCK as int,
    ensures
        out@.len() == range.len(),
        no_effects(p@) ==> forall|q: int|
            0 <= q < range.len() ==> #[trigger] out@[q] as int == pre_sig(
                p@,
                srcs@.map_values(|s: AudioSource| s@),
                i as int,
                range.start as int + q,
                range.start as int,
                fuel as nat,
            ),
        keeps_warnings(old(warn)@, final(warn)@),
    decreases fuel, 0int,
{
    proof {
        lemma_keeps_warnings_refl(old(warn)@);
    }
    let ghost sv = srcs@.map_values(|s: AudioSource| s@);
    let ghost t0 = range.start as int;
    let len = (range.end - range.start) as usize;
    let mut buf = crate::block::silence(len);
    let tid = p.tracks[i].id;
    // clip content
    let nclips = p.tracks[i].clips.len();
    proof {
        assert(p@.tracks[i as int].clips == p.tracks@[i as int].clips@);
    }
    let mut c: usize = 0;
    while c < nclips
        invariant
            p@.wf(),
            i < p.tracks@.len(),
            sv == srcs@.map_values(|s: AudioSource| s@),
            sources_unique(sv),
            range.wf(),
            range.end < POSITION_LIMIT,
            range.len() <= MAX_BLOCK as int,
            len == range.len(),
            nclips == p@.tracks[i as int].clips.len(),
            c <= nclips,
            buf@.len() == len,
            forall|q: int|
                0 <= q < len ==> #[trigger] buf@[q] as int == clips_prefix(
                    p@.tracks[i as int].clips,
                    sv,
                    range.start as int + q,
                    c as int,
                ),
            keeps_warnings(old(warn)@, warn@),
        decreases nclips - c,
    {
        let clip = p.tracks[i].clips[c];
        proof {
            assert(clip == p@.tracks[i as int].clips[c as int]);
            assert(crate::model::clip_ok(clip));
        }
        let ghost before = buf@;
        let ghost wsnap = warn@;
        add_clip_into(&mut buf, clip, srcs, range, warn);
        proof {
            lemma_keeps_warnings_trans(old(warn)@, wsnap, warn@);
        }
        proof {
            assert forall|q: int| 0 <= q < len implies #[trigger] buf@[q] as int == clips_prefix(
                p@.tracks[i as int].clips,
                sv,
                range.start as int + q,
                c as int + 1,
            ) by {
                assert(buf@[q] as int == sat64(
                    before[q] as int + clip_term(clip, sv, range.start as int + q),
                ));
            }
        }
        c = c + 1;
    }
    proof {
        assert(forall|q: int|
            0 <= q < len ==> #[trigger] buf@[q] as int == content_at(
                p@.tracks[i as int],
                sv,
                range.start as int + q,
            ));
    }
    // received sends
    if fuel > 0 {
        let n = p.tracks.len();
        proof {
            assert forall|q: int| 0 <= q < len implies #[trigger] buf@[q] as int == recv_upto(
                p@,
                sv,
                i as int,
                range.start as int + q,
                t0,
                fuel as nat,
                0,
                0,
            ) by {}
        }
        let mut j: usize = 0;
        while j < n
            invariant
                p@.wf(),
                i < p.tracks@.len(),
                sv == srcs@.map_values(|s: AudioSource| s@),
                sources_unique(sv),
                range.wf(),
                range.end < POSITION_LIMIT,
                range.len() <= MAX_BLOCK as int,
                len == range.len(),
                t0 == range.start as int,
                tid == p@.tracks[i as int].id,
                fuel >= 1,
                n == p.tracks@.len(),
                j <= n,
                buf@.len() == len,
                no_effects(p@) ==> forall|q: int|
                    0 <= q < len ==> #[trigger] buf@[q] as int == recv_upto(
                        p@,
                        sv,
                        i as int,
                        range.start as int + q,
                        t0,
                        fuel as nat,
                        j as int,
                        0,
                    ),
                keeps_warnings(old(warn)@, warn@),
            decreases n - j,
        {
            let nsends = p.tracks[j].sends.len();
            proof {
                assert(p@.tracks[j as int].sends == p.tracks@[j as int].sends@);
            }
            let mut k: usize = 0;
            while k < nsends
                invariant
                    p@.wf(),
                    i < p.tracks@.len(),
                    sv == srcs@.map_values(|s: AudioSource| s@),
                    sources_unique(sv),
                    range.wf(),
                    range.end < POSITION_LIMIT,
                    range.len() <= MAX_BLOCK as int,
                    len == range.len(),
                    t0 == range.start as int,
                    tid == p@.tracks[i as int].id,
                    fuel >= 1,
                    n == p.tracks@.len(),
                    j < n,
                    nsends == p@.tracks[j as int].sends.len(),
                    k <= nsends,
                    buf@.len() == len,
                    no_effects(p@) ==> forall|q: int|
                        0 <= q < len ==> #[trigger] buf@[q] as int == recv_upto(
                            p@,
                            sv,
                            i as int,
                            range.start as int + q,
                            t0,
                            fuel as nat,
                            j as int,
                            k as int,
                        ),
                    keeps_warnings(old(warn)@, warn@),
                decreases nsends - k,
            {
                let snd = p.tracks[j].sends[k];
                proof {
                    assert(snd == p@.tracks[j as int].sends[k as int]);
                }
                if snd.target == tid {
                    let ghost wsnap = warn@;
                    let tap = if snd.pre_fader {
                        render_pre(p, srcs, j, range, fuel - 1, fx, warn)
                    } else {
                        render_post(p, srcs, j, range, fuel - 1, fx, warn)
                    };
                    proof {
                        lemma_keeps_warnings_trans(old(warn)@, wsnap, warn@);
                    }
                    let ghost before = buf@;
                    crate::block::accumulate_scaled(&mut buf, &tap, snd.level);
                    proof {
                        if no_effects(p@) {
                            assert forall|q: int|
                                0 <= q < len implies #[trigger] buf@[q] as int == recv_upto(
                                p@,
                                sv,
                                i as int,
                                range.start as int + q,
                                t0,
                                fuel as nat,
                                j as int,
                                k as int + 1,
                            ) by {
                                assert(buf@[q] as int == mix_step(
                                    before[q] as int,
                                    tap@[q] as int,
                                    snd.level as int,
                                ));
                            }
                        }
                    }
                } else {
                    proof {
                        if no_effects(p@) {
                            assert forall|q: int|
                                0 <= q < len implies #[trigger] buf@[q] as int == recv_upto(
                                p@,
                                sv,
                                i as int,
                                range.start as int + q,
                                t0,
                                fuel as nat,
                                j as int,
                                k as int + 1,
                            ) by {}
                        }
                    }
                }
                k = k + 1;
            }
            proof {
                if no_effects(p@) {
                    assert forall|q: int|
                        0 <= q < len implies #[trigger] buf@[q] as int == recv_upto(
                        p@,
                        sv,
                        i as int,
                        range.start as int + q,
                        t0,
                        fuel as nat,
                        j as int + 1,
                        0,
                    ) by {}
                }
            }
            j = j + 1;
        }
    }
    // effect chain, driven by the track's effect-parameter automation
    proof {
        assert(p@.tracks[i as int].wf());
        assert(p@.tracks[i as int] == p.tracks@[i as int]@);
    }
    let params = eval_effect_params(&p.tracks[i], range.start);
    let neff = p.tracks[i].effects.len();
    let mut e: usize = 0;
    while e < neff
        invariant
            p@.wf(),
            i < p.tracks@.len(),
            len == range.len(),
            neff == p@.tracks[i as int].effects.len(),
            e <= neff,
            buf@.len() == len,
            tid == p@.tracks[i as int].id,
            sv == srcs@.map_values(|s: AudioSource| s@),
            t0 == range.start as int,
            no_effects(p@) ==> forall|q: int|
                0 <= q < len ==> #[trigger] buf@[q] as int == pre_sig(
                    p@,
                    sv,
                    i as int,
                    range.start as int + q,
                    t0,
                    fuel as nat,
                ),
            keeps_warnings(old(warn)@, warn@),
        decreases neff - e,
    {
        proof {
            assert(p@.tracks[i as int].effects.len() > 0);
            assert(!no_effects(p@));
        }
        let eid = p.tracks[i].effects[e];
        buf = fx.process(eid, tid, buf, &params);
        if buf.len() != len {
            proof {
                lemma_keeps_warnings_push(warn@, Warning::EffectShape {
                    track_id: tid,
                    effect_id: eid,
                });
                lemma_keeps_warnings_trans(old(warn)@, warn@, warn@.push(Warning::EffectShape {
                    track_id: tid,
                    effect_id: eid,
                }));
            }
            warn.push(Warning::EffectShape { track_id: tid, effect_id: eid });
            buf = crate::block::silence(len);
        }
        let degraded = crate::block::sanitize_block(&mut buf);
        if degraded {
            proof {
                lemma_keeps_warnings_push(warn@, Warning::NonFiniteSample { track_id: tid });
                lemma_keeps_warnings_trans(old(warn)@, warn@, warn@.push(
                    Warning::NonFiniteSample { track_id: tid },
                ));
            }
            warn.push(Warning::NonFiniteSample { track_id: tid });
        }
        e = e + 1;
    }
    proof {
        if no_effects(p@) {
            assert(p@.tracks[i as int].effects.len() == 0);
        }
    }
    buf
}

/// Render the post-fader signal of track `i`: the pre-fader signal scaled
/// by the effective volume, or silence when the track is not audible.
fn render_post<E: EffectHost>(
    p: &Project,
    srcs: &Vec<AudioSource>,
    i: usize,
    range: TimeRange,
    fuel: usize,
    fx: &mut E,
    warn: &mut Vec<Warning>,
) -> (out: Vec<i64>)
    requires
        p@.wf(),
        i < p.tracks@.len(),
        sources_unique(srcs@.map_values(|s: AudioSource| s@)),
        range.wf(),
        range.end < POSITION_LIMIT,
        range.len() <= MAX_BLOCK as int,
    ensures
        out@.len() == range.len(),
        no_effects(p@) ==> forall|q: int|
            0 <= q < range.len() ==> #[trigger] out@[q] as int == post_sig(
                p@,
                srcs@.map_values(|s: AudioSource| s@),
                i as int,
                range.start as int + q,
                range.start as int,
                fuel as nat,
            ),
        keeps_warnings(old(warn)@, final(warn)@),
    decreases fuel, 1int,
{
    proof {
        lemma_keeps_warnings_refl(old(warn)@);
    }
    let len = (range.end - range.start) as usize;
    let solo = any_solo_check(p);
    let aud = !p.tracks[i].muted && (!solo || p.tracks[i].solo || (matches!(
        p.tracks[i].kind,
        TrackKind::Bus,
    ) && solo_feeds_check(p, p.tracks[i].id)));
    proof {
        assert(aud == audible(p@, p@.tracks[i as int]));
    }
    if aud {
        let mut pre = render_pre(p, srcs, i, range, fuel, fx, warn);
        proof {
            assert(p@.tracks[i as int].wf());
            assert(p@.tracks[i as int] == p.tracks@[i as int]@);
        }
        let v = eval_vol(&p.tracks[i], range.start);
        crate::block::scale_block(&mut pre, v);
        pre
    } else {
        crate::block::silence(len)
    }
}

/// Render one contiguous time range of the whole graph into a stereo pair:
/// every track's post-fader signal is pan-split onto the master input, the
/// master's effect chain and volume apply, and every sample is clamped
/// into the valid output range.
fn render_range<E: EffectHost>(
    p: &Project,
    srcs: &Vec<AudioSource>,
    range: TimeRange,
    fx: &mut E,
    warn: &mut Vec<Warning>,
) -> (out: (Vec<i64>, Vec<i64>))
    requires
        p@.wf(),
        sources_unique(srcs@.map_values(|s: AudioSource| s@)),
        range.wf(),
        range.end < POSITION_LIMIT,
        range.len() <= MAX_BLOCK as int,
    ensures
        out.0@.len() == range.len(),
        out.1@.len() == range.len(),
        forall|q: int|
            0 <= q < range.len() ==> -(crate::sample::OUTPUT_LIMIT as int) <= #[trigger] out.0@[q]
                as int <= crate::sample::OUTPUT_LIMIT as int,
        forall|q: int|
            0 <= q < range.len() ==> -(crate::sample::OUTPUT_LIMIT as int) <= #[trigger] out.1@[q]
                as int <= crate::sample::OUTPUT_LIMIT as int,
        no_effects(p@) ==> forall|q: int|
            0 <= q < range.len() ==> #[trigger] out.0@[q] as int == final_left(
                p@,
                srcs@.map_values(|s: AudioSource| s@),
                range.start as int + q,
                range.start as int,
            ),
        no_effects(p@) ==> forall|q: int|
            0 <= q < range.len() ==> #[trigger] out.1@[q] as int == final_right(
                p@,
                srcs@.map_values(|s: AudioSource| s@),
                range.start as int + q,
                range.start as int,
            ),
        keeps_warnings(old(warn)@, final(warn)@),
{
    proof {
        lemma_keeps_warnings_refl(old(warn)@);
    }
    let ghost sv = srcs@.map_values(|s: AudioSource| s@);
    let ghost t0 = range.start as int;
    let len = (range.end - range.start) as usize;
    let mut out_l = crate::block::silence(len);
    let mut out_r = crate::block::silence(len);
    let n = p.tracks.len();
    let mut i: usize = 0;
    while i < n
        invariant
            p@.wf(),
            sv == srcs@.map_values(|s: AudioSource| s@),
            sources_unique(sv),
            range.wf(),
            range.end < POSITION_LIMIT,
            range.len() <= MAX_BLOCK as int,
            len == range.len(),
            t0 == range.start as int,
            n == p.tracks@.len(),
            i <= n,
            out_l@.len() == len,
            out_r@.len() == len,
            no_effects(p@) ==> forall|q: int|
                0 <= q < len ==> #[trigger] out_l@[q] as int == master_in_left(
                    p@,
                    sv,
                    range.start as int + q,
                    t0,
                    i as int,
                ),
            no_effects(p@) ==> forall|q: int|
                0 <= q < len ==> #[trigger] out_r@[q] as int == master_in_right(
                    p@,
                    sv,
                    range.start as int + q,
                    t0,
                    i as int,
                ),
            keeps_warnings(old(warn)@, warn@),
        decreases n - i,
    {
        let ghost wsnap = warn@;
        let post = render_post(p, srcs, i, range, n, fx, warn);
        proof {
            lemma_keeps_warnings_trans(old(warn)@, wsnap, warn@);
            assert(p@.tracks[i as int].wf());
            assert(p@.tracks[i as int] == p.tracks@[i as int]@);
        }
        let pan = eval_pan(&p.tracks[i], range.start);
        let gl = if pan > 0 {
            UNIT - pan
        } else {
            UNIT
        };
        let gr = if pan < 0 {
            UNIT + pan
        } else {
            UNIT
        };
        proof {
            assert(gl as int == pan_left(pan_at(p@.tracks[i as int], t0)));
            assert(gr as int == pan_right(pan_at(p@.tracks[i as int], t0)));
        }
        let ghost before_l = out_l@;
        let ghost before_r = out_r@;
        crate::block::accumulate_scaled(&mut out_l, &post, gl);
        crate::block::accumulate_scaled(&mut out_r, &post, gr);
        proof {
            if no_effects(p@) {
                assert forall|q: int| 0 <= q < len implies #[trigger] out_l@[q] as int
                    == master_in_left(p@, sv, range.start as int + q, t0, i as int + 1) by {
                    assert(out_l@[q] as int == mix_step(
                        before_l[q] as int,
                        post@[q] as int,
                        gl as int,
                    ));
                }
                assert forall|q: int| 0 <= q < len implies #[trigger] out_r@[q] as int
                    == master_in_right(p@, sv, range.start as int + q, t0, i as int + 1) by {
                    assert(out_r@[q] as int == mix_step(
                        before_r[q] as int,
                        post@[q] as int,
                        gr as int,
                    ));
                }
            }
        }
        i = i + 1;
    }
    // sends that target the master feed both channels directly
    let ghost base_l = out_l@;
    let ghost base_r = out_r@;
    let mut j: usize = 0;
    while j < n
        invariant
            p@.wf(),
            sv == srcs@.map_values(|s: AudioSource| s@),
            sources_unique(sv),
            range.wf(),
            range.end < POSITION_LIMIT,
            range.len() <= MAX_BLOCK as int,
            len == range.len(),
            t0 == range.start as int,
            n == p.tracks@.len(),
            j <= n,
            out_l@.len() == len,
            out_r@.len() == len,
            base_l.len() == len,
            base_r.len() == len,
            no_effects(p@) ==> forall|q: int|
                0 <= q < len ==> #[trigger] out_l@[q] as int == master_sends_from(
                    p@,
                    sv,
                    range.start as int + q,
                    t0,
                    j as int,
                    0,
                    base_l[q] as int,
                ),
            no_effects(p@) ==> forall|q: int|
                0 <= q < len ==> #[trigger] out_r@[q] as int == master_sends_from(
                    p@,
                    sv,
                    range.start as int + q,
                    t0,
                    j as int,
                    0,
                    base_r[q] as int,
                ),
            no_effects(p@) ==> forall|q: int|
                0 <= q < len ==> base_l[q] as int == master_in_left(
                    p@,
                    sv,
                    range.start as int + q,
                    t0,
                    n as int,
                ) && base_r[q] as int == master_in_right(p@, sv, range.start as int + q, t0, n as int),
            keeps_warnings(old(warn)@, warn@),
        decreases n - j,
    {
        let nsends = p.tracks[j].sends.len();
        proof {
            assert(p@.tracks[j as int].sends == p.tracks@[j as int].sends@);
        }
        let mut k: usize = 0;
        while k < nsends
            invariant
                p@.wf(),
                sv == srcs@.map_values(|s: AudioSource| s@),
                sources_unique(sv),
                range.wf(),
                range.end < POSITION_LIMIT,
                range.len() <= MAX_BLOCK as int,
                len == range.len(),
                t0 == range.start as int,
                n == p.tracks@.len(),
                j < n,
                nsends == p@.tracks[j as int].sends.len(),
                k <= nsends,
                out_l@.len() == len,
                out_r@.len() == len,
                base_l.len() == len,
                base_r.len() == len,
                no_effects(p@) ==> forall|q: int|
                    0 <= q < len ==> #[trigger] out_l@[q] as int == master_sends_from(
                        p@,
                        sv,
                        range.start as int + q,
                        t0,
                        j as int,
                        k as int,
                        base_l[q] as int,
                    ),
                no_effects(p@) ==> forall|q: int|
                    0 <= q < len ==> #[trigger] out_r@[q] as int == master_sends_from(
                        p@,
                        sv,
                        range.start as int + q,
                        t0,
                        j as int,
                        k as int,
                        base_r[q] as int,
                    ),
                keeps_warnings(old(warn)@, warn@),
            decreases nsends - k,
        {
            let snd = p.tracks[j].sends[k];
            proof {
                assert(snd == p@.tracks[j as int].sends[k as int]);
            }
            if snd.target == crate::model::MASTER_ID {
                let ghost wsnap = warn@;
                let tap = if snd.pre_fader {
                    render_pre(p, srcs, j, range, n, fx, warn)
                } else {
                    render_post(p, srcs, j, range, n, fx, warn)
                };
                proof {
                    lemma_keeps_warnings_trans(old(warn)@, wsnap, warn@);
                }
                let ghost before_l2 = out_l@;
                let ghost before_r2 = out_r@;
                crate::block::accumulate_scaled(&mut out_l, &tap, snd.level);
                crate::block::accumulate_scaled(&mut out_r, &tap, snd.level);
                proof {
                    if no_effects(p@) {
                        assert forall|q: int| 0 <= q < len implies #[trigger] out_l@[q] as int
                            == master_sends_from(
                            p@,
                            sv,
                            range.start as int + q,
                            t0,
                            j as int,
                            k as int + 1,
                            base_l[q] as int,
                        ) by {
                            assert(out_l@[q] as int == mix_step(
                                before_l2[q] as int,
                                tap@[q] as int,
                                snd.level as int,
                            ));
                        }
                        assert forall|q: int| 0 <= q < len implies #[trigger] out_r@[q] as int
                            == master_sends_from(
                            p@,
                            sv,
                            range.start as int + q,
                            t0,
                            j as int,
                            k as int + 1,
                            base_r[q] as int,
                        ) by {
                            assert(out_r@[q] as int == mix_step(
                                before_r2[q] as int,
                                tap@[q] as int,
                                snd.level as int,
                            ));
                        }
                    }
                }
            } else {
                proof {
                    if no_effects(p@) {
                        assert forall|q: int| 0 <= q < len implies #[trigger] out_l@[q] as int
                            == master_sends_from(
                            p@,
                            sv,
                            range.start as int + q,
                            t0,
                            j as int,
                            k as int + 1,
                            base_l[q] as int,
                        ) by {}
                        assert forall|q: int| 0 <= q < len implies #[trigger] out_r@[q] as int
                            == master_sends_from(
                            p@,
                            sv,
                            range.start as int + q,
                            t0,
                            j as int,
                            k as int + 1,
                            base_r[q] as int,
                        ) by {}
                    }
                }
            }
            k = k + 1;
        }
        proof {
            if no_effects(p@) {
                assert forall|q: int| 0 <= q < len implies #[trigger] out_l@[q] as int
                    == master_sends_from(
                    p@,
                    sv,
                    range.start as int + q,
                    t0,
                    j as int + 1,
                    0,
                    base_l[q] as int,
                ) by {}
                assert forall|q: int| 0 <= q < len implies #[trigger] out_r@[q] as int
                    == master_sends_from(
                    p@,
                    sv,
                    range.start as int + q,
                    t0,
                    j as int + 1,
                    0,
                    base_r[q] as int,
                ) by {}
            }
        }
        j = j + 1;
    }
    // the master's own effect chain, applied to both channels
    proof {
        assert(p@.master.wf());
        assert(p@.master == p.master@);
    }
    let mparams = eval_effect_params(&p.master, range.start);
    let neff = p.master.effects.len();
    let mut e: usize = 0;
    while e < neff
        invariant
            p@.wf(),
            len == range.len(),
            neff == p@.master.effects.len(),
            e <= neff,
            out_l@.len() == len,
            out_r@.len() == len,
            sv == srcs@.map_values(|s: AudioSource| s@),
            t0 == range.start as int,
            n == p.tracks@.len(),
            no_effects(p@) ==> forall|q: int|
                0 <= q < len ==> #[trigger] out_l@[q] as int == master_total_left(
                    p@,
                    sv,
                    range.start as int + q,
                    t0,
                ),
            no_effects(p@) ==> forall|q: int|
                0 <= q < len ==> #[trigger] out_r@[q] as int == master_total_right(
                    p@,
                    sv,
                    range.start as int + q,
                    t0,
                ),
            keeps_warnings(old(warn)@, warn@),
        decreases neff - e,
    {
        proof {
            assert(p@.master.effects.len() > 0);
            assert(!no_effects(p@));
        }
        let eid = p.master.effects[e];
        out_l = fx.process(eid, crate::model::MASTER_ID, out_l, &mparams);
        if out_l.len() != len {
            proof {
                lemma_keeps_warnings_push(warn@, Warning::EffectShape {
                    track_id: crate::model::MASTER_ID,
                    effect_id: eid,
                });
                lemma_keeps_warnings_trans(old(warn)@, warn@, warn@.push(Warning::EffectShape {
                    track_id: crate::model::MASTER_ID,
                    effect_id: eid,
                }));
            }
            warn.push(Warning::EffectShape { track_id: crate::model::MASTER_ID, effect_id: eid });
            out_l = crate::block::silence(len);
        }
        let dl = crate::block::sanitize_block(&mut out_l);
        out_r = fx.process(eid, crate::model::MASTER_ID, out_r, &mparams);
        if out_r.len() != len {
            proof {
                lemma_keeps_warnings_push(warn@, Warning::EffectShape {
                    track_id: crate::model::MASTER_ID,
                    effect_id: eid,
                });
                lemma_keeps_warnings_trans(old(warn)@, warn@, warn@.push(Warning::EffectShape {
                    track_id: crate::model::MASTER_ID,
                    effect_id: eid,
                }));
            }
            warn.push(Warning::EffectShape { track_id: crate::model::MASTER_ID, effect_id: eid });
            out_r = crate::block::silence(len);
        }
        let dr = crate::block::sanitize_block(&mut out_r);
        if dl || dr {
            proof {
                lemma_keeps_warnings_push(warn@, Warning::NonFiniteSample {
                    track_id: crate::model::MASTER_ID,
                });
                lemma_keeps_warnings_trans(old(warn)@, warn@, warn@.push(
                    Warning::NonFiniteSample { track_id: crate::model::MASTER_ID },
                ));
            }
            warn.push(Warning::NonFiniteSample { track_id: crate::model::MASTER_ID });
        }
        e = e + 1;
    }
    proof {
        if no_effects(p@) {
            assert(p@.master.effects.len() == 0);
        }
        assert(p@.master.wf());
        assert(p@.master == p.master@);
    }
    let mv = eval_vol(&p.master, range.start);
    crate::block::scale_block(&mut out_l, mv);
    crate::block::clamp_block(&mut out_l);
    crate::block::scale_block(&mut out_r, mv);
    crate::block::clamp_block(&mut out_r);
    (out_l, out_r)
}

/// Copy a vector of plain (Copy) elements.
fn clone_copy_vec<T: Copy>(v: &Vec<T>) -> (r: Vec<T>)
    ensures
        r@ == v@,
{
    let n = v.len();
    let mut r: Vec<T> = Vec::new();
    let mut i: usize = 0;
    while i < n
        invariant
            n == v@.len(),
            i <= n,
            r@ == v@.take(i as int),
        decreases n - i,
    {
        r.push(v[i]);
        proof {
            assert(r@ =~= v@.take(i as int + 1));
        }
        i = i + 1;
    }
    proof {
        assert(v@.take(n as int) =~= v@);
    }
    r
}

/// Deep-copy a track; the copy has the same view.
fn clone_track(t: &Track) -> (r: Track)
    ensures
        r@ == t@,
{
    let mut automation: Vec<crate::automation::AutomationCurve> = Vec::new();
    let na = t.automation.len();
    let mut i: usize = 0;
    while i < na
        invariant
            na == t.automation@.len(),
            i <= na,
            automation@.len() == i,
            forall|k: int| 0 <= k < i ==> #[trigger] automation@[k]@ == t.automation@[k]@,
        decreases na - i,
    {
        let src = &t.automation[i];
        let c = crate::automation::AutomationCurve {
            target: src.target,
            points: clone_copy_vec(&src.points),
        };
        proof {
            assert(c@ =~~= t.automation@[i as int]@);
        }
        automation.push(c);
        i = i + 1;
    }
    proof {
        assert(automation@.map_values(|c: crate::automation::AutomationCurve| c@)
            =~= t.automation@.map_values(|c: crate::automation::AutomationCurve| c@));
    }
    let r = Track {
        id: t.id,
        name: t.name.clone(),
        kind: t.kind,
        volume: t.volume,
        pan: t.pan,
        muted: t.muted,
        solo: t.solo,
        armed: t.armed,
        color: t.color,
        clips: clone_copy_vec(&t.clips),
        automation,
        sends: clone_copy_vec(&t.sends),
        effects: clone_copy_vec(&t.effects),
    };
    proof {
        assert(r@ =~~= t@);
    }
    r
}

/// Deep-copy a project; the copy has the same view.
fn clone_project(p: &Project) -> (r: Project)
    ensures
        r@ == p@,
{
    let mut tracks: Vec<Track> = Vec::new();
    let n = p.tracks.len();
    let mut i: usize = 0;
    while i < n
        invariant
            n == p.tracks@.len(),
            i <= n,
            tracks@.len() == i,
            forall|k: int| 0 <= k < i ==> #[trigger] tracks@[k]@ == p.tracks@[k]@,
        decreases n - i,
    {
        let t = clone_track(&p.tracks[i]);
        tracks.push(t);
        i = i + 1;
    }
    proof {
        assert(tracks@.map_values(|t: Track| t@) =~= p.tracks@.map_values(|t: Track| t@));
    }
    let r = Project {
        name: p.name.clone(),
        sample_rate: p.sample_rate,
        tracks,
        master: clone_track(&p.master),
        transport: p.transport,
    };
    proof {
        assert(r@ =~~= p@);
    }
    r
}

/// Appending one command to a queue steps the final state once more.
pub proof fn lemma_apply_all_snoc(p: ProjectV, cs: Seq<Command>, c: Command)
    ensures
        apply_all(p, cs.push(c)) == step(apply_all(p, cs), c).0,
    decreases cs.len(),
{
    if cs.len() == 0 {
        assert(cs.push(c)[0] == c);
        assert(cs.push(c).drop_first() =~= Seq::<Command>::empty());
        assert(apply_all(p, cs.push(c)) == apply_all(step(p, c).0, Seq::<Command>::empty()));
        assert(apply_all(step(p, c).0, Seq::<Command>::empty()) == step(p, c).0);
        assert(apply_all(p, cs) == p);
    } else {
        assert(cs.push(c)[0] == cs[0]);
        assert(cs.push(c).drop_first() =~= cs.drop_first().push(c));
        assert(apply_all(p, cs.push(c)) == apply_all(step(p, cs[0]).0, cs.drop_first().push(c)));
        lemma_apply_all_snoc(step(p, cs[0]).0, cs.drop_first(), c);
        assert(apply_all(p, cs) == apply_all(step(p, cs[0]).0, cs.drop_first()));
    }
}

/// The mixing graph service: owns the render-side project, a staged copy
/// the control side validates against, the bounded command queue, the
/// loaded audio sources and the outstanding warnings.
pub struct AudioService {
    /// The project the render path reads; mutated only at block boundaries.
    pub project: Project,
    /// The project as it will be once every pending command has applied;
    /// submissions are validated against this copy.
    pub staged: Project,
    /// Commands accepted but not yet applied, in submission order.
    pub pending: Vec<Command>,
    /// The loaded audio sources.
    pub sources: Vec<AudioSource>,
    /// Warnings raised while rendering, drained by the telemetry feed.
    pub warnings: Vec<Warning>,
}

impl AudioService {
    /// The service invariant: both project copies are well-formed, and the
    /// staged copy is exactly the render-side project with the pending
    /// queue applied in order.
    pub open spec fn wf(self) -> bool {
        &&& self.project@.wf()
        &&& self.staged@.wf()
        &&& self.staged@ == apply_all(self.project@, self.pending@)
        &&& sources_unique(self.sources@.map_values(|s: AudioSource| s@))
    }

    /// Build a service around a fully validated project and its loaded
    /// sources; validating the project is the loader's responsibility.
    pub fn new(project: Project, sources: Vec<AudioSource>) -> (s: AudioService)
        requires
            project@.wf(),
            sources_unique(sources@.map_values(|s: AudioSource| s@)),
        ensures
            s.wf(),
            s.project@ == project@,
            s.pending@.len() == 0,
            s.warnings@.len() == 0,
            s.sources@ == sources@,
    {
        let staged = clone_project(&project);
        AudioService { project, staged, pending: Vec::new(), sources, warnings: Vec::new() }
    }

    /// Submit a command: it is validated against the state the project
    /// will be in once everything already queued has applied, and queued
    /// on success. Validation is synchronous; application happens at the
    /// next block boundary.
    #[verifier::rlimit(100)]
    pub fn submit(&mut self, c: Command) -> (r: Result<(), CommandError>)
        requires
            old(self).wf(),
        ensures
            final(self).wf(),
            r == step(old(self).staged@, c).1,
            r is Ok ==> final(self).pending@ == old(self).pending@.push(c),
            r is Err ==> final(self).pending@ == old(self).pending@,
            final(self).staged@ == step(old(self).staged@, c).0,
            final(self).project@ == old(self).project@,
            final(self).sources@ == old(self).sources@,
            final(self).warnings@ == old(self).warnings@,
    {
        let r = self.staged.apply(c);
        match r {
            Ok(()) => {
                self.pending.push(c);
                proof {
                    lemma_apply_all_snoc(self.project@, old(self).pending@, c);
                }
                Ok(())
            },
            Err(e) => {
                proof {
                    lemma_step_err_unchanged(old(self).staged@, c);
                }
                Err(e)
            },
        }
    }

    /// Produce exactly one stereo output block: drain the pending command
    /// queue (every command submitted before this call is applied, in
    /// submission order, before anything is rendered), advance the
    /// transport honoring the loop region, and render the graph. Every
    /// output sample is clamped into `[-OUTPUT_LIMIT, OUTPUT_LIMIT]`; on a
    /// project without effect chains the output is pinned exactly by the
    /// mix functions; when the transport is stopped the output is silence
    /// and the position does not move.
    #[verifier::rlimit(100)]
    pub fn render_block<E: EffectHost>(&mut self, block_size: u64, fx: &mut E) -> (out: (
        Vec<i64>,
        Vec<i64>,
    ))
        requires
            old(self).wf(),
            1 <= block_size <= MAX_BLOCK,
            old(self).staged@.transport.position + block_size < POSITION_LIMIT,
            old(self).staged@.transport.loop_start + block_size < POSITION_LIMIT,
        ensures
            final(self).wf(),
            final(self).pending@.len() == 0,
            final(self).sources@ == old(self).sources@,
            // warnings already raised stay for the telemetry feed
            keeps_warnings(old(self).warnings@, final(self).warnings@),
            // every queued command is visible in this block's state
            ({
                let applied = apply_all(old(self).project@, old(self).pending@);
                &&& !applied.transport.playing ==> final(self).project@ == applied
                &&& applied.transport.playing ==> final(self).project@ == (ProjectV {
                    transport: applied.transport.advanced(block_size as int),
                    ..applied
                })
            }),
            out.0@.len() == block_size,
            out.1@.len() == block_size,
            // the output never leaves the valid range
            forall|q: int|
                0 <= q < block_size ==> -(crate::sample::OUTPUT_LIMIT as int)
                    <= #[trigger] out.0@[q] as int <= crate::sample::OUTPUT_LIMIT as int,
            forall|q: int|
                0 <= q < block_size ==> -(crate::sample::OUTPUT_LIMIT as int)
                    <= #[trigger] out.1@[q] as int <= crate::sample::OUTPUT_LIMIT as int,
            // a stopped transport renders silence
            ({
                let applied = apply_all(old(self).project@, old(self).pending@);
                !applied.transport.playing ==> forall|q: int|
                    0 <= q < block_size ==> #[trigger] out.0@[q] == 0i64 && out.1@[q] == 0i64
            }),
            // without effect chains every sample is pinned exactly
            ({
                let applied = apply_all(old(self).project@, old(self).pending@);
                let sv = old(self).sources@.map_values(|s: AudioSource| s@);
                applied.transport.playing && no_effects(applied) ==> forall|q: int|
                    0 <= q < block_size ==> #[trigger] out.0@[q] as int == final_left(
                        applied,
                        sv,
                        sample_pos(applied.transport, block_size as int, q),
                        sample_t0(applied.transport, block_size as int, q),
                    ) && out.1@[q] as int == final_right(
                        applied,
                        sv,
                        sample_pos(applied.transport, block_size as int, q),
                        sample_t0(applied.transport, block_size as int, q),
                    )
            }),
    {
        let ghost orig = self.project@;
        let ghost queued = self.pending@;
        let ghost applied = apply_all(orig, queued);
        // drain the queue: apply every pending command in submission order
        let npending = self.pending.len();
        let mut q: usize = 0;
        while q < npending
            invariant
                npending == self.pending@.len(),
                self.pending@ == queued,
                q <= npending,
                self.project@.wf(),
                self.project@ == apply_all(orig, queued.take(q as int)),
                self.staged@ == old(self).staged@,
                self.sources@ == old(self).sources@,
                self.warnings@ == old(self).warnings@,
            decreases npending - q,
        {
            let c = self.pending[q];
            let _ = self.project.apply(c);
            proof {
                assert(queued.take(q as int + 1) =~= queued.take(q as int).push(queued[q as int]));
                lemma_apply_all_snoc(orig, queued.take(q as int), c);
            }
            q = q + 1;
        }
        proof {
            assert(queued.take(npending as int) =~= queued);
            assert(self.project@ == applied);
        }
        self.pending.clear();
        let bs = block_size as usize;
        if !self.project.transport.playing {
            let l = crate::block::silence(bs);
            let r = crate::block::silence(bs);
            proof {
                assert(apply_all(self.project@, self.pending@) == self.project@);
                lemma_keeps_warnings_refl(old(self).warnings@);
            }
            return (l, r);
        }
        // the ranges this block covers, taken before the position advances
        let tr = self.project.transport;
        let wraps = tr.loop_enabled && tr.position < tr.loop_end && block_size >= tr.loop_end
            - tr.position;
        let first = if wraps {
            TimeRange { start: tr.position, end: tr.loop_end }
        } else {
            TimeRange { start: tr.position, end: tr.position + block_size }
        };
        let ghost sv = self.sources@.map_values(|s: AudioSource| s@);
        let (mut out_l, mut out_r) = render_range(
            &self.project,
            &self.sources,
            first,
            fx,
            &mut self.warnings,
        );
        proof {
            lemma_keeps_warnings_refl(old(self).warnings@);
        }
        if wraps {
            let remainder = block_size - (tr.loop_end - tr.position);
            let second = TimeRange { start: tr.loop_start, end: tr.loop_start + remainder };
            let ghost wsnap = self.warnings@;
            let (mut l2, mut r2) = render_range(
                &self.project,
                &self.sources,
                second,
                fx,
                &mut self.warnings,
            );
            proof {
                lemma_keeps_warnings_trans(old(self).warnings@, wsnap, self.warnings@);
            }
            out_l.append(&mut l2);
            out_r.append(&mut r2);
            proof {
                assert(first.len() == tr.loop_end - tr.position);
                assert(first.len() == first_len(applied.transport, block_size as int));
                assert forall|k: int| 0 <= k < block_size implies sample_pos(
                    applied.transport,
                    block_size as int,
                    k,
                ) == (if k < first.len() {
                    first.start as int + k
                } else {
                    second.start as int + (k - first.len())
                }) by {}
            }
        } else {
            proof {
                assert(!applied.transport.wraps(block_size as int));
                assert(first_len(applied.transport, block_size as int) == block_size as int);
            }
        }
        // advance the transport; both copies stay in step
        let _ = self.project.transport.tick(block_size);
        self.staged.transport = self.project.transport;
        proof {
            assert(self.project@ =~~= (ProjectV {
                transport: applied.transport.advanced(block_size as int),
                ..applied
            }));
            assert(self.staged@ =~~= self.project@);
            assert(apply_all(self.project@, self.pending@) == self.project@);
            assert(self.project@.wf());
        }
        (out_l, out_r)
    }

    /// The position and telemetry feed: the current transport position and
    /// the warnings raised since the last poll, which are drained.
    pub fn poll_telemetry(&mut self) -> (r: (u64, Vec<Warning>))
        requires
            old(self).wf(),
        ensures
            final(self).wf(),
            r.0 == old(self).project@.transport.position,
            r.1@ == old(self).warnings@,
            final(self).warnings@.len() == 0,
            final(self).project@ == old(self).project@,
            final(self).staged@ == old(self).staged@,
            final(self).pending@ == old(self).pending@,
    {
        let pos = self.project.transport.position;
        let drained = self.warnings.split_off(0);
        proof {
            assert(drained@ =~= old(self).warnings@);
            assert(self.warnings@ =~= Seq::<Warning>::empty());
        }
        (pos, drained)
    }
}

} // verus!
