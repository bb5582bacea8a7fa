//! The edit decision engine: filtering, merging and sample-aligning removal
//! intervals, and rendering the edited audio with an audit trail.

use vstd::prelude::*;

use vstd::math::{max, min};
use vstd::seq_lib::*;
use vstd::string::StringExecFns;

use crate::audio::{
    spec_crossfade, spec_duration_ms, spec_sample_to_time, spec_time_to_sample, spec_zero_cross,
    AudioData, AudioProcessor,
};
use crate::types::{
    removal_models, removals_valid, AppliedEdit, EditModel, EditReport, Removal, RemovalModel,
};

verus! {

/// Tunable timing policy of the editor.
#[derive(Debug, Clone, Copy)]
pub struct EditorConfig {
    /// Crossfade length at every internal join, in milliseconds.
    pub crossfade_ms: u32,
    /// Removals shorter than this are ignored, in milliseconds.
    pub min_removal_ms: u32,
    /// Removals closer together than this are merged, in milliseconds.
    pub merge_gap_ms: u32,
    /// Radius of the zero-crossing search around each cut, in milliseconds.
    pub zero_crossing_search_ms: u32,
}

impl Default for EditorConfig {
    /// The default policy: 30 ms crossfades, 100 ms minimum removal, 50 ms
    /// merge gap and a 5 ms zero-crossing search.
    fn default() -> (c: EditorConfig)
        ensures
            c.crossfade_ms == 30,
            c.min_removal_ms == 100,
            c.merge_gap_ms == 50,
            c.zero_crossing_search_ms == 5,
    {
        EditorConfig { crossfade_ms: 30, min_removal_ms: 100, merge_gap_ms: 50, zero_crossing_search_ms: 5 }
    }
}

/// Removals that survive the minimum-length filter, in their input order.
/// The signed length `end - start` is compared, so an interval whose end
/// lies before its start never survives.
pub open spec fn spec_filter_min(rs: Seq<RemovalModel>, min_ms: int) -> Seq<RemovalModel>
    decreases rs.len(),
{
    if rs.len() == 0 {
        Seq::empty()
    } else if rs.last().end - rs.last().start >= min_ms {
        spec_filter_min(rs.drop_last(), min_ms).push(rs.last())
    } else {
        spec_filter_min(rs.drop_last(), min_ms)
    }
}

/// Stable insertion of `x` into a sequence sorted by start time: `x` lands
/// after every element whose start does not exceed its own.
pub open spec fn insert_by_start(s: Seq<RemovalModel>, x: RemovalModel) -> Seq<RemovalModel>
    decreases s.len(),
{
    if s.len() > 0 && s.last().start > x.start {
        insert_by_start(s.drop_last(), x).push(s.last())
    } else {
        s.push(x)
    }
}

/// Stable sort by start time.
pub open spec fn spec_sort_by_start(rs: Seq<RemovalModel>) -> Seq<RemovalModel>
    decreases rs.len(),
{
    if rs.len() == 0 {
        rs
    } else {
        insert_by_start(spec_sort_by_start(rs.drop_last()), rs.last())
    }
}

/// Sorted by start time (non-strictly).
pub open spec fn sorted_by_start(s: Seq<RemovalModel>) -> bool {
    forall|i: int, j: int| 0 <= i < j < s.len() ==> s[i].start <= s[j].start
}

/// Two merged removals: the earlier start, the later end, the earlier
/// reason, the concatenated text, and the weaker confidence.
pub open spec fn merge_pair(a: RemovalModel, b: RemovalModel) -> RemovalModel {
    RemovalModel {
        start: a.start,
        end: max(a.end, b.end),
        reason: a.reason,
        text: a.text + " ... "@ + b.text,
        confidence: min(a.confidence, b.confidence),
    }
}

/// One step of the merge walk: `next` either extends the interval under
/// construction (when its start lies within `gap` of that interval's end)
/// or opens a new one.
pub open spec fn merge_step(acc: Seq<RemovalModel>, next: RemovalModel, gap: int) -> Seq<
    RemovalModel,
> {
    if acc.len() > 0 && next.start <= acc.last().end + gap {
        acc.drop_last().push(merge_pair(acc.last(), next))
    } else {
        acc.push(next)
    }
}

/// The merge walk over a start-sorted sequence.
pub open spec fn spec_merge_sorted(rs: Seq<RemovalModel>, gap: int) -> Seq<RemovalModel>
    decreases rs.len(),
{
    if rs.len() == 0 {
        Seq::empty()
    } else {
        merge_step(spec_merge_sorted(rs.drop_last(), gap), rs.last(), gap)
    }
}

/// The full merge rule: sort by start, then walk once merging every
/// removal that starts within `gap` of the interval under construction.
pub open spec fn spec_merge(rs: Seq<RemovalModel>, gap: int) -> Seq<RemovalModel> {
    spec_merge_sorted(spec_sort_by_start(rs), gap)
}

proof fn lemma_models_push(s: Seq<Removal>, r: Removal)
    ensures
        removal_models(s.push(r)) == removal_models(s).push(r@),
{
    assert(removal_models(s.push(r)) =~= removal_models(s).push(r@));
}

proof fn lemma_models_insert(s: Seq<Removal>, i: int, r: Removal)
    requires
        0 <= i <= s.len(),
    ensures
        removal_models(s.insert(i, r)) == removal_models(s).insert(i, r@),
{
    assert(removal_models(s.insert(i, r)) =~= removal_models(s).insert(i, r@));
}

proof fn lemma_models_drop_last(s: Seq<Removal>)
    requires
        s.len() > 0,
    ensures
        removal_models(s.drop_last()) == removal_models(s).drop_last(),
{
    assert(removal_models(s.drop_last()) =~= removal_models(s).drop_last());
}

proof fn lemma_models_take(s: Seq<Removal>, i: int)
    requires
        0 <= i <= s.len(),
    ensures
        removal_models(s.take(i)) == removal_models(s).take(i),
{
    assert(removal_models(s.take(i)) =~= removal_models(s).take(i));
}

/// Splitting a stable insertion at the insertion point: when everything at
/// or after `idx` starts later than `x` and the element just before does
/// not, inserting `x` means placing it exactly at `idx`.
proof fn lemma_insert_split(s: Seq<RemovalModel>, x: RemovalModel, idx: int)
    requires
        0 <= idx <= s.len(),
        forall|k: int| idx <= k < s.len() ==> (#[trigger] s[k]).start > x.start,
        idx == 0 || s[idx - 1].start <= x.start,
    ensures
        insert_by_start(s, x) == s.insert(idx, x),
    decreases s.len() - idx,
{
    if idx == s.len() {
        assert(insert_by_start(s, x) == s.push(x));
        assert(s.insert(idx, x) =~= s.push(x));
    } else {
        assert(s.last().start > x.start);
        lemma_insert_split(s.drop_last(), x, idx);
        assert(insert_by_start(s, x) == s.drop_last().insert(idx, x).push(s.last()));
        assert(s.drop_last().insert(idx, x).push(s.last()) =~= s.insert(idx, x));
    }
}

/// The stable insertion of `x` into `v` at the position the exec scan
/// finds.
fn insert_sorted(v: &mut Vec<Removal>, x: Removal)
    ensures
        removal_models(final(v)@) == insert_by_start(removal_models(old(v)@), x@),
{
    let mut idx: usize = v.len();
    while idx > 0 && v[idx - 1].start > x.start
        invariant
            0 <= idx <= v@.len(),
            forall|k: int|
                idx <= k < v@.len() ==> (#[trigger] removal_models(v@)[k]).start > x@.start,
            v@ == old(v)@,
        decreases idx,
    {
        idx = idx - 1;
    }
    proof {
        lemma_insert_split(removal_models(v@), x@, idx as int);
        lemma_models_insert(v@, idx as int, x);
    }
    v.insert(idx, x);
}

/// Mathematical image of a [`SampleAlignedRemoval`].
pub ghost struct AlignedModel {
    /// First sample of the cut (inclusive).
    pub start_sample: int,
    /// Last sample of the cut (exclusive).
    pub end_sample: int,
    /// The merged removal this cut came from.
    pub removal: RemovalModel,
}

/// A removal snapped to the sample grid, with its source interval.
pub struct SampleAlignedRemoval {
    /// First sample of the cut (inclusive).
    pub start_sample: usize,
    /// Last sample of the cut (exclusive).
    pub end_sample: usize,
    /// The merged removal this cut came from.
    pub removal: Removal,
}

impl View for SampleAlignedRemoval {
    type V = AlignedModel;

    open spec fn view(&self) -> AlignedModel {
        AlignedModel {
            start_sample: self.start_sample as int,
            end_sample: self.end_sample as int,
            removal: self.removal@,
        }
    }
}

/// The models of a sequence of sample-aligned removals.
pub open spec fn aligned_models(s: Seq<SampleAlignedRemoval>) -> Seq<AlignedModel> {
    s.map_values(|a: SampleAlignedRemoval| a@)
}

/// An index value clamped into `usize` range, as the conversion from
/// 64-bit sample arithmetic to machine indices does.
pub open spec fn clamp_index(x: int) -> int {
    min(x, usize::MAX as int)
}

/// The zero-crossing search radius in samples: the configured search
/// window in milliseconds, truncated to whole samples.
pub open spec fn spec_search_radius(search_ms: int, rate: int) -> int {
    clamp_index(search_ms * rate / 1000)
}

/// The crossfade length in samples, truncated to whole samples.
pub open spec fn spec_fade_samples(crossfade_ms: int, rate: int) -> int {
    clamp_index(crossfade_ms * rate / 1000)
}

/// Where a time stamp snaps to: the zero crossing nearest the nominal
/// sample index of `ms`.
pub open spec fn spec_snap(samples: Seq<i32>, rate: int, ms: int, radius: int) -> int {
    spec_zero_cross(samples, clamp_index(spec_time_to_sample(ms, rate)), radius)
}

/// The sample-alignment walk.  Each interval's boundaries snap to zero
/// crossings independently; a snapped start is pulled up to the previous
/// cut's end so cuts never overlap, and an interval left without positive
/// length is discarded.
pub open spec fn spec_adjust_walk(
    samples: Seq<i32>,
    rate: int,
    rs: Seq<RemovalModel>,
    radius: int,
    prev_end: int,
) -> Seq<AlignedModel>
    decreases rs.len(),
{
    if rs.len() == 0 {
        Seq::empty()
    } else {
        let r = rs.first();
        let s0 = spec_snap(samples, rate, r.start, radius);
        let e0 = spec_snap(samples, rate, r.end, radius);
        let s1 = max(s0, prev_end);
        if e0 > s1 {
            seq![
                AlignedModel { start_sample: s1, end_sample: e0, removal: r },
            ] + spec_adjust_walk(samples, rate, rs.drop_first(), radius, e0)
        } else {
            spec_adjust_walk(samples, rate, rs.drop_first(), radius, prev_end)
        }
    }
}

/// The whole sample-alignment step.  An empty buffer yields an empty plan.
pub open spec fn spec_adjust(samples: Seq<i32>, rate: int, rs: Seq<RemovalModel>, radius: int) -> Seq<AlignedModel> {
    if samples.len() == 0 {
        Seq::empty()
    } else {
        spec_adjust_walk(samples, rate, rs, radius, 0)
    }
}

/// A safe render plan: every cut has positive length, lies inside the
/// buffer (a cut may reach the buffer end, removing everything up to it),
/// and the cuts are ordered and pairwise disjoint.
pub open spec fn plan_well_formed(plan: Seq<AlignedModel>, len: int) -> bool {
    &&& forall|i: int|
        0 <= i < plan.len() ==> 0 <= (#[trigger] plan[i]).start_sample < plan[i].end_sample <= len
    &&& forall|i: int, j: int|
        0 <= i < j < plan.len() ==> (#[trigger] plan[i]).end_sample <= (#[trigger] plan[j]).start_sample
}

/// The alignment walk produces a well-formed plan: every cut starts at or
/// after `prev_end`, has positive length, ends inside the buffer, and the
/// cuts are ordered and disjoint.
pub proof fn lemma_adjust_walk_wf(
    samples: Seq<i32>,
    rate: int,
    rs: Seq<RemovalModel>,
    radius: int,
    prev_end: int,
)
    requires
        samples.len() > 0,
        rate >= 1,
        radius >= 0,
        prev_end >= 0,
        removals_valid(rs),
    ensures
        ({
            let plan = spec_adjust_walk(samples, rate, rs, radius, prev_end);
            &&& forall|i: int|
                0 <= i < plan.len() ==> prev_end <= (#[trigger] plan[i]).start_sample
                    < plan[i].end_sample < samples.len()
            &&& forall|i: int, j: int|
                0 <= i < j < plan.len() ==> (#[trigger] plan[i]).end_sample <= (
                #[trigger] plan[j]).start_sample
        }),
    decreases rs.len(),
{
    if rs.len() > 0 {
        let r = rs.first();
        assert(r.valid()) by {
            assert(rs[0].valid());
        }
        let t_start = clamp_index(spec_time_to_sample(r.start, rate));
        let t_end = clamp_index(spec_time_to_sample(r.end, rate));
        vstd::arithmetic::div_mod::lemma_div_pos_is_pos(r.start * rate + 500, 1000);
        vstd::arithmetic::div_mod::lemma_div_pos_is_pos(r.end * rate + 500, 1000);
        assert(r.start * rate >= 0) by (nonlinear_arith)
            requires
                r.start >= 0,
                rate >= 1,
        ;
        assert(r.end * rate >= 0) by (nonlinear_arith)
            requires
                r.end >= 0,
                rate >= 1,
        ;
        crate::audio::lemma_zero_cross_in_bounds(samples, t_start, radius);
        crate::audio::lemma_zero_cross_in_bounds(samples, t_end, radius);
        let s0 = spec_snap(samples, rate, r.start, radius);
        let e0 = spec_snap(samples, rate, r.end, radius);
        let s1 = max(s0, prev_end);
        assert(removals_valid(rs.drop_first())) by {
            assert(forall|i: int|
                0 <= i < rs.drop_first().len() ==> rs.drop_first()[i] == rs[i + 1]);
        }
        if e0 > s1 {
            lemma_adjust_walk_wf(samples, rate, rs.drop_first(), radius, e0);
        } else {
            lemma_adjust_walk_wf(samples, rate, rs.drop_first(), radius, prev_end);
        }
    }
}

proof fn lemma_aligned_push(s: Seq<SampleAlignedRemoval>, a: SampleAlignedRemoval)
    ensures
        aligned_models(s.push(a)) == aligned_models(s).push(a@),
{
    assert(aligned_models(s.push(a)) =~= aligned_models(s).push(a@));
}

/// The views of a sequence of owned sample buffers.
pub open spec fn seg_views(s: Seq<Vec<i32>>) -> Seq<Seq<i32>> {
    s.map_values(|v: Vec<i32>| v@)
}

/// A gap segment: the samples between the previous cut's end and the next
/// cut's start, when there are any.
pub open spec fn gap_segment(samples: Seq<i32>, e: AlignedModel, last_end: int) -> Seq<Seq<i32>> {
    if e.start_sample > last_end {
        seq![samples.subrange(last_end, e.start_sample)]
    } else {
        Seq::empty()
    }
}

/// The kept segments between cuts (the trailing region excluded).
pub open spec fn spec_keep_mid(samples: Seq<i32>, plan: Seq<AlignedModel>, last_end: int) -> Seq<
    Seq<i32>,
>
    decreases plan.len(),
{
    if plan.len() == 0 {
        Seq::empty()
    } else {
        let e = plan.first();
        gap_segment(samples, e, last_end) + spec_keep_mid(samples, plan.drop_first(), e.end_sample)
    }
}

/// Where the trailing kept region starts: the end of the last cut, or the
/// initial position when there is no cut.
pub open spec fn spec_final_end(plan: Seq<AlignedModel>, last_end: int) -> int
    decreases plan.len(),
{
    if plan.len() == 0 {
        last_end
    } else {
        spec_final_end(plan.drop_first(), plan.first().end_sample)
    }
}

/// All kept segments, the trailing region included.
pub open spec fn spec_keep_segments(samples: Seq<i32>, plan: Seq<AlignedModel>, last_end: int) -> Seq<Seq<i32>> {
    spec_keep_mid(samples, plan, last_end) + (if spec_final_end(plan, last_end) < samples.len() {
        seq![samples.skip(spec_final_end(plan, last_end))]
    } else {
        Seq::empty()
    })
}

/// Pairwise crossfaded concatenation, left to right: every internal join
/// is crossfaded, the absolute start and end are not.
pub open spec fn spec_concat_fade(segs: Seq<Seq<i32>>, fade: int) -> Seq<i32>
    decreases segs.len(),
{
    if segs.len() == 0 {
        Seq::empty()
    } else if segs.len() == 1 {
        segs[0]
    } else {
        spec_crossfade(spec_concat_fade(segs.drop_last(), fade), segs.last(), fade)
    }
}

/// The rendered sample stream: the input unchanged for an empty plan, and
/// otherwise the kept segments joined by crossfades.
pub open spec fn spec_render(samples: Seq<i32>, plan: Seq<AlignedModel>, fade: int) -> Seq<i32> {
    if plan.len() == 0 {
        samples
    } else {
        spec_concat_fade(spec_keep_segments(samples, plan, 0), fade)
    }
}

/// The audit trail of a plan: one row per cut, carrying the original
/// (pre-snap) time stamps.
pub open spec fn spec_edits_of_plan(plan: Seq<AlignedModel>) -> Seq<EditModel> {
    plan.map_values(
        |a: AlignedModel|
            EditModel {
                original_start: a.removal.start,
                original_end: a.removal.end,
                reason: a.removal.reason.spec_str(),
                text: a.removal.text,
            },
    )
}

proof fn lemma_keep_mid_push(samples: Seq<i32>, plan: Seq<AlignedModel>, e: AlignedModel, last_end: int)
    ensures
        spec_keep_mid(samples, plan.push(e), last_end) == spec_keep_mid(samples, plan, last_end)
            + gap_segment(samples, e, spec_final_end(plan, last_end)),
        spec_final_end(plan.push(e), last_end) == e.end_sample,
    decreases plan.len(),
{
    if plan.len() == 0 {
        assert(plan.push(e).drop_first() =~= Seq::<AlignedModel>::empty());
        assert(plan.push(e).first() == e);
        assert(spec_keep_mid(samples, plan.push(e), last_end) == gap_segment(samples, e, last_end)
            + spec_keep_mid(samples, Seq::<AlignedModel>::empty(), e.end_sample));
        assert(gap_segment(samples, e, last_end) + Seq::<Seq<i32>>::empty() =~= gap_segment(
            samples,
            e,
            last_end,
        ));
        assert(spec_keep_mid(samples, plan, last_end) + gap_segment(samples, e, last_end)
            =~= gap_segment(samples, e, last_end));
        assert(spec_final_end(plan.push(e), last_end) == spec_final_end(
            Seq::<AlignedModel>::empty(),
            e.end_sample,
        ));
    } else {
        assert(plan.push(e).drop_first() =~= plan.drop_first().push(e));
        assert(plan.push(e).first() == plan.first());
        lemma_keep_mid_push(samples, plan.drop_first(), e, plan.first().end_sample);
        assert(spec_final_end(plan.push(e), last_end) == spec_final_end(
            plan.drop_first().push(e),
            plan.first().end_sample,
        ));
        assert(spec_keep_mid(samples, plan.push(e), last_end) =~= spec_keep_mid(
            samples,
            plan,
            last_end,
        ) + gap_segment(samples, e, spec_final_end(plan, last_end)));
    }
}

proof fn lemma_seg_push(s: Seq<Vec<i32>>, v: Vec<i32>)
    ensures
        seg_views(s.push(v)) == seg_views(s).push(v@),
{
    assert(seg_views(s.push(v)) =~= seg_views(s).push(v@));
}

proof fn lemma_edits_push(s: Seq<AppliedEdit>, e: AppliedEdit)
    ensures
        crate::types::edit_models(s.push(e)) == crate::types::edit_models(s).push(e@),
{
    assert(crate::types::edit_models(s.push(e)) =~= crate::types::edit_models(s).push(e@));
}

proof fn lemma_edits_of_plan_push(plan: Seq<AlignedModel>, a: AlignedModel)
    ensures
        spec_edits_of_plan(plan.push(a)) == spec_edits_of_plan(plan).push(
            EditModel {
                original_start: a.removal.start,
                original_end: a.removal.end,
                reason: a.removal.reason.spec_str(),
                text: a.removal.text,
            },
        ),
{
    assert(spec_edits_of_plan(plan.push(a)) =~= spec_edits_of_plan(plan).push(
        EditModel {
            original_start: a.removal.start,
            original_end: a.removal.end,
            reason: a.removal.reason.spec_str(),
            text: a.removal.text,
        },
    ));
}

/// Total length of a list of segments.
pub open spec fn sum_lens(segs: Seq<Seq<i32>>) -> int
    decreases segs.len(),
{
    if segs.len() == 0 {
        0
    } else {
        sum_lens(segs.drop_last()) + segs.last().len()
    }
}

/// The segment sum of a single segment is its length.
proof fn lemma_sum_single(x: Seq<i32>)
    ensures
        sum_lens(seq![x]) == x.len(),
{
    assert(seq![x].drop_last() =~= Seq::<Seq<i32>>::empty());
    assert(seq![x].last() == x);
    assert(sum_lens(Seq::<Seq<i32>>::empty()) == 0);
}

/// Crossfading never lengthens: the fold is at most the plain sum of the
/// segment lengths.
pub proof fn lemma_concat_fade_le_sum(segs: Seq<Seq<i32>>, fade: int)
    requires
        fade >= 0,
    ensures
        spec_concat_fade(segs, fade).len() <= sum_lens(segs),
    decreases segs.len(),
{
    if segs.len() == 1 {
        assert(segs.drop_last() =~= Seq::<Seq<i32>>::empty());
        assert(sum_lens(segs) == sum_lens(Seq::<Seq<i32>>::empty()) + segs.last().len());
        assert(segs.last() == segs[0]);
    } else if segs.len() > 1 {
        lemma_concat_fade_le_sum(segs.drop_last(), fade);
        crate::audio::lemma_crossfade_len(
            spec_concat_fade(segs.drop_last(), fade),
            segs.last(),
            fade,
        );
    }
}

/// The kept segments of a well-formed plan cover at most the part of the
/// buffer after `last_end`.
pub proof fn lemma_keep_total(samples: Seq<i32>, plan: Seq<AlignedModel>, last_end: int)
    requires
        plan_well_formed(plan, samples.len() as int),
        0 <= last_end <= samples.len(),
        plan.len() > 0 ==> last_end <= plan[0].start_sample,
    ensures
        sum_lens(spec_keep_segments(samples, plan, last_end)) <= samples.len() - last_end,
        last_end <= spec_final_end(plan, last_end) <= samples.len(),
    decreases plan.len(),
{
    if plan.len() == 0 {
        if last_end < samples.len() {
            assert(spec_keep_segments(samples, plan, last_end) =~= seq![samples.skip(last_end)]);
            lemma_sum_single(samples.skip(last_end));
        } else {
            assert(spec_keep_mid(samples, plan, last_end) =~= Seq::<Seq<i32>>::empty());
            assert(spec_keep_segments(samples, plan, last_end) =~= Seq::<Seq<i32>>::empty());
        }
    } else {
        let e = plan.first();
        let rest = plan.drop_first();
        assert(forall|i: int| 0 <= i < rest.len() ==> rest[i] == plan[i + 1]);
        assert(plan_well_formed(rest, samples.len() as int));
        assert(rest.len() > 0 ==> e.end_sample <= rest[0].start_sample) by {
            if rest.len() > 0 {
                assert(plan[0].end_sample <= plan[1].start_sample);
            }
        }
        assert(0 <= e.start_sample < e.end_sample <= samples.len()) by {
            assert(0 <= plan[0].start_sample < plan[0].end_sample <= samples.len());
        }
        lemma_keep_total(samples, rest, e.end_sample);
        // Split the segment sum across the head gap and the rest.
        let head = gap_segment(samples, e, last_end);
        let tail_segs = spec_keep_segments(samples, rest, e.end_sample);
        assert(spec_keep_segments(samples, plan, last_end) =~= head + tail_segs);
        lemma_sum_lens_add(head, tail_segs);
        if e.start_sample > last_end {
            lemma_sum_single(samples.subrange(last_end, e.start_sample));
        } else {
            assert(sum_lens(head) == 0);
        }
    }
}

/// Segment sums add across concatenation.
proof fn lemma_sum_lens_add(a: Seq<Seq<i32>>, b: Seq<Seq<i32>>)
    ensures
        sum_lens(a + b) == sum_lens(a) + sum_lens(b),
    decreases b.len(),
{
    if b.len() == 0 {
        assert(a + b =~= a);
    } else {
        assert((a + b).drop_last() =~= a + b.drop_last());
        lemma_sum_lens_add(a, b.drop_last());
    }
}

/// Rendering never lengthens the audio.
pub proof fn lemma_render_le(samples: Seq<i32>, plan: Seq<AlignedModel>, fade: int)
    requires
        plan_well_formed(plan, samples.len() as int),
        fade >= 0,
    ensures
        spec_render(samples, plan, fade).len() <= samples.len(),
{
    if plan.len() > 0 {
        lemma_keep_total(samples, plan, 0);
        lemma_concat_fade_le_sum(spec_keep_segments(samples, plan, 0), fade);
    }
}

/// The filter keeps only valid removals when all inputs are valid.
proof fn lemma_filter_min_valid(rs: Seq<RemovalModel>, min_ms: int)
    requires
        removals_valid(rs),
    ensures
        removals_valid(spec_filter_min(rs, min_ms)),
    decreases rs.len(),
{
    if rs.len() > 0 {
        assert(removals_valid(rs.drop_last())) by {
            assert(forall|i: int|
                0 <= i < rs.drop_last().len() ==> rs.drop_last()[i] == rs[i]);
        }
        lemma_filter_min_valid(rs.drop_last(), min_ms);
        let f = spec_filter_min(rs.drop_last(), min_ms);
        if rs.last().end - rs.last().start >= min_ms {
            assert(rs.last().valid());
            assert(forall|i: int|
                0 <= i < f.push(rs.last()).len() ==> f.push(rs.last())[i] == (if i < f.len() {
                    f[i]
                } else {
                    rs.last()
                }));
        }
    }
}

/// Stable insertion preserves validity of every element.
proof fn lemma_insert_valid(s: Seq<RemovalModel>, x: RemovalModel)
    requires
        removals_valid(s),
        x.valid(),
    ensures
        removals_valid(insert_by_start(s, x)),
    decreases s.len(),
{
    if s.len() > 0 && s.last().start > x.start {
        assert(removals_valid(s.drop_last())) by {
            assert(forall|i: int|
                0 <= i < s.drop_last().len() ==> s.drop_last()[i] == s[i]);
        }
        lemma_insert_valid(s.drop_last(), x);
        let r = insert_by_start(s.drop_last(), x);
        assert(forall|i: int|
            0 <= i < r.push(s.last()).len() ==> r.push(s.last())[i] == (if i < r.len() {
                r[i]
            } else {
                s.last()
            }));
    } else {
        assert(forall|i: int|
            0 <= i < s.push(x).len() ==> s.push(x)[i] == (if i < s.len() {
                s[i]
            } else {
                x
            }));
    }
}

/// Sorting preserves validity of every element.
proof fn lemma_sort_valid(rs: Seq<RemovalModel>)
    requires
        removals_valid(rs),
    ensures
        removals_valid(spec_sort_by_start(rs)),
    decreases rs.len(),
{
    if rs.len() > 0 {
        assert(removals_valid(rs.drop_last())) by {
            assert(forall|i: int|
                0 <= i < rs.drop_last().len() ==> rs.drop_last()[i] == rs[i]);
        }
        lemma_sort_valid(rs.drop_last());
        assert(rs.last().valid());
        lemma_insert_valid(spec_sort_by_start(rs.drop_last()), rs.last());
    }
}

/// Merging preserves validity: a merged interval takes the later of two
/// bounded ends and the smaller of two bounded confidences.
proof fn lemma_merge_sorted_valid(rs: Seq<RemovalModel>, gap: int)
    requires
        removals_valid(rs),
    ensures
        removals_valid(spec_merge_sorted(rs, gap)),
    decreases rs.len(),
{
    if rs.len() > 0 {
        assert(removals_valid(rs.drop_last())) by {
            assert(forall|i: int|
                0 <= i < rs.drop_last().len() ==> rs.drop_last()[i] == rs[i]);
        }
        lemma_merge_sorted_valid(rs.drop_last(), gap);
        let acc = spec_merge_sorted(rs.drop_last(), gap);
        let next = rs.last();
        assert(next.valid());
        if acc.len() > 0 && next.start <= acc.last().end + gap {
            let m = merge_pair(acc.last(), next);
            assert(acc.last().valid());
            assert(m.valid());
            let d = acc.drop_last();
            assert(forall|i: int| 0 <= i < d.len() ==> d[i] == acc[i]);
            assert(forall|i: int|
                0 <= i < d.push(m).len() ==> d.push(m)[i] == (if i < d.len() {
                    d[i]
                } else {
                    m
                }));
        } else {
            assert(forall|i: int|
                0 <= i < acc.push(next).len() ==> acc.push(next)[i] == (if i < acc.len() {
                    acc[i]
                } else {
                    next
                }));
        }
    }
}

/// The whole merge rule preserves validity.
pub proof fn lemma_merge_valid(rs: Seq<RemovalModel>, gap: int)
    requires
        removals_valid(rs),
    ensures
        removals_valid(spec_merge(rs, gap)),
{
    lemma_sort_valid(rs);
    lemma_merge_sorted_valid(spec_sort_by_start(rs), gap);
}

/// The removals that survive the minimum-length filter.
fn filter_min(removals: &Vec<Removal>, min_ms: u64) -> (out: Vec<Removal>)
    ensures
        removal_models(out@) == spec_filter_min(removal_models(removals@), min_ms as int),
{
    let mut out: Vec<Removal> = Vec::new();
    let mut i: usize = 0;
    proof {
        assert(removal_models(removals@.take(0)) =~= Seq::<RemovalModel>::empty());
    }
    while i < removals.len()
        invariant
            0 <= i <= removals@.len(),
            removal_models(out@) == spec_filter_min(
                removal_models(removals@.take(i as int)),
                min_ms as int,
            ),
        decreases removals@.len() - i,
    {
        let r: &Removal = &removals[i];
        proof {
            lemma_models_take(removals@, i as int);
            lemma_models_take(removals@, i + 1);
            assert(removal_models(removals@).take(i + 1).drop_last() =~= removal_models(
                removals@,
            ).take(i as int));
            assert(removal_models(removals@).take(i + 1).last() == removals@[i as int]@);
        }
        if r.end >= r.start && r.end - r.start >= min_ms {
            let dup: Removal = r.duplicate();
            let ghost before = out@;
            out.push(dup);
            proof {
                lemma_models_push(before, dup);
            }
        }
        i = i + 1;
    }
    proof {
        assert(removals@.take(removals@.len() as int) =~= removals@);
    }
    out
}

/// The reconciled render plan for a removal list: filter out the short
/// ones, merge the close ones, snap to the sample grid.
pub open spec fn spec_reconcile(
    samples: Seq<i32>,
    rate: int,
    rs: Seq<RemovalModel>,
    cfg: EditorConfig,
) -> Seq<AlignedModel> {
    spec_adjust(
        samples,
        rate,
        spec_merge(spec_filter_min(rs, cfg.min_removal_ms as int), cfg.merge_gap_ms as int),
        spec_search_radius(cfg.zero_crossing_search_ms as int, rate),
    )
}

/// Mathematical image of a [`PreviewEdit`].
pub ghost struct PreviewModel {
    /// Original start time in milliseconds.
    pub original_start: int,
    /// Original end time in milliseconds.
    pub original_end: int,
    /// Snapped start time in milliseconds.
    pub adjusted_start: int,
    /// Snapped end time in milliseconds.
    pub adjusted_end: int,
    /// Snapped duration in milliseconds.
    pub duration: int,
    /// Reason tag.
    pub reason: Seq<char>,
    /// Removed text.
    pub text: Seq<char>,
    /// Confidence in thousandths.
    pub confidence: int,
}

/// One planned cut as shown to a user before rendering: original and
/// snapped boundaries, with the removal's text and confidence.
pub struct PreviewEdit {
    /// Original start time in milliseconds.
    pub original_start: u64,
    /// Original end time in milliseconds.
    pub original_end: u64,
    /// Snapped start time in milliseconds.
    pub adjusted_start: u64,
    /// Snapped end time in milliseconds.
    pub adjusted_end: u64,
    /// Snapped duration in milliseconds.
    pub duration: u64,
    /// Reason tag.
    pub reason: String,
    /// Removed text.
    pub text: String,
    /// Confidence in thousandths.
    pub confidence: u32,
}

impl View for PreviewEdit {
    type V = PreviewModel;

    open spec fn view(&self) -> PreviewModel {
        PreviewModel {
            original_start: self.original_start as int,
            original_end: self.original_end as int,
            adjusted_start: self.adjusted_start as int,
            adjusted_end: self.adjusted_end as int,
            duration: self.duration as int,
            reason: self.reason@,
            text: self.text@,
            confidence: self.confidence as int,
        }
    }
}

/// The models of a sequence of preview rows.
pub open spec fn preview_models(s: Seq<PreviewEdit>) -> Seq<PreviewModel> {
    s.map_values(|p: PreviewEdit| p@)
}

/// The preview row of one planned cut.
pub open spec fn preview_of_cut(a: AlignedModel, rate: int) -> PreviewModel {
    PreviewModel {
        original_start: a.removal.start,
        original_end: a.removal.end,
        adjusted_start: spec_sample_to_time(a.start_sample, rate),
        adjusted_end: spec_sample_to_time(a.end_sample, rate),
        duration: spec_sample_to_time(a.end_sample, rate) - spec_sample_to_time(
            a.start_sample,
            rate,
        ),
        reason: a.removal.reason.spec_str(),
        text: a.removal.text,
        confidence: a.removal.confidence,
    }
}

/// The preview of a whole plan.
pub open spec fn spec_preview_of_plan(plan: Seq<AlignedModel>, rate: int) -> Seq<PreviewModel> {
    plan.map_values(|a: AlignedModel| preview_of_cut(a, rate))
}

proof fn lemma_preview_push(s: Seq<PreviewEdit>, e: PreviewEdit)
    ensures
        preview_models(s.push(e)) == preview_models(s).push(e@),
{
    assert(preview_models(s.push(e)) =~= preview_models(s).push(e@));
}

proof fn lemma_preview_plan_push(plan: Seq<AlignedModel>, a: AlignedModel, rate: int)
    ensures
        spec_preview_of_plan(plan.push(a), rate) == spec_preview_of_plan(plan, rate).push(
            preview_of_cut(a, rate),
        ),
{
    assert(spec_preview_of_plan(plan.push(a), rate) =~= spec_preview_of_plan(plan, rate).push(
        preview_of_cut(a, rate),
    ));
}

/// Consecutive merged intervals are strictly farther apart than the merge
/// gap.
pub open spec fn gap_separated(s: Seq<RemovalModel>, gap: int) -> bool {
    forall|i: int| 0 <= i < s.len() - 1 ==> (#[trigger] s[i + 1]).start > s[i].end + gap
}

/// Stable insertion into a sorted sequence keeps it sorted; every start in
/// the result is bounded by the larger of the old bound and the new
/// element's start.
proof fn lemma_insert_sorted_prop(s: Seq<RemovalModel>, x: RemovalModel)
    requires
        sorted_by_start(s),
    ensures
        sorted_by_start(insert_by_start(s, x)),
        insert_by_start(s, x).len() == s.len() + 1,
        forall|i: int|
            0 <= i < insert_by_start(s, x).len() ==> (#[trigger] insert_by_start(s, x)[i]).start
                <= max(x.start, if s.len() > 0 { s.last().start } else { x.start }),
    decreases s.len(),
{
    if s.len() > 0 && s.last().start > x.start {
        assert(sorted_by_start(s.drop_last())) by {
            assert(forall|i: int|
                0 <= i < s.drop_last().len() ==> s.drop_last()[i] == s[i]);
        }
        lemma_insert_sorted_prop(s.drop_last(), x);
        let r0 = insert_by_start(s.drop_last(), x);
        let r = r0.push(s.last());
        assert(forall|i: int|
            0 <= i < r.len() ==> r[i] == (if i < r0.len() {
                r0[i]
            } else {
                s.last()
            }));
        assert forall|i: int| 0 <= i < r0.len() implies r0[i].start <= s.last().start by {
            if s.len() >= 2 {
                assert(s.drop_last().last() == s[s.len() - 2]);
                assert(s[s.len() - 2].start <= s.last().start);
            }
        }
    } else {
        let r = s.push(x);
        assert(forall|i: int|
            0 <= i < r.len() ==> r[i] == (if i < s.len() {
                s[i]
            } else {
                x
            }));
    }
}

/// Sorting sorts.
pub proof fn lemma_sort_sorts(rs: Seq<RemovalModel>)
    ensures
        sorted_by_start(spec_sort_by_start(rs)),
    decreases rs.len(),
{
    if rs.len() > 0 {
        lemma_sort_sorts(rs.drop_last());
        lemma_insert_sorted_prop(spec_sort_by_start(rs.drop_last()), rs.last());
    }
}

/// Sorting an already sorted sequence changes nothing.
proof fn lemma_sort_of_sorted(s: Seq<RemovalModel>)
    requires
        sorted_by_start(s),
    ensures
        spec_sort_by_start(s) == s,
    decreases s.len(),
{
    if s.len() > 0 {
        assert(sorted_by_start(s.drop_last())) by {
            assert(forall|i: int|
                0 <= i < s.drop_last().len() ==> s.drop_last()[i] == s[i]);
        }
        lemma_sort_of_sorted(s.drop_last());
        if s.len() >= 2 {
            assert(s.drop_last().last() == s[s.len() - 2]);
            assert(s[s.len() - 2].start <= s.last().start);
        }
        assert(insert_by_start(s.drop_last(), s.last()) == s.drop_last().push(s.last()));
        assert(s.drop_last().push(s.last()) =~= s);
    }
}

/// The merge walk over a sorted input yields a sorted, gap-separated
/// sequence whose last start does not exceed the input's last start.
proof fn lemma_merge_sorted_props(rs: Seq<RemovalModel>, gap: int)
    requires
        sorted_by_start(rs),
        gap >= 0,
    ensures
        sorted_by_start(spec_merge_sorted(rs, gap)),
        gap_separated(spec_merge_sorted(rs, gap), gap),
        rs.len() > 0 ==> spec_merge_sorted(rs, gap).len() > 0 && spec_merge_sorted(
            rs,
            gap,
        ).last().start <= rs.last().start,
        rs.len() == 0 ==> spec_merge_sorted(rs, gap).len() == 0,
    decreases rs.len(),
{
    if rs.len() > 0 {
        assert(sorted_by_start(rs.drop_last())) by {
            assert(forall|i: int|
                0 <= i < rs.drop_last().len() ==> rs.drop_last()[i] == rs[i]);
        }
        lemma_merge_sorted_props(rs.drop_last(), gap);
        let acc = spec_merge_sorted(rs.drop_last(), gap);
        let next = rs.last();
        if rs.len() >= 2 {
            assert(rs.drop_last().last() == rs[rs.len() - 2]);
            assert(rs[rs.len() - 2].start <= rs.last().start);
        }
        if acc.len() > 0 && next.start <= acc.last().end + gap {
            let m = merge_pair(acc.last(), next);
            let r = acc.drop_last().push(m);
            assert(m.start == acc.last().start);
            assert(forall|i: int|
                0 <= i < r.len() ==> r[i] == (if i < acc.len() - 1 {
                    acc[i]
                } else {
                    m
                }));
            assert(forall|i: int| 0 <= i < r.len() ==> (#[trigger] r[i]).start == acc[i].start);
            assert(sorted_by_start(r));
            assert forall|i: int| 0 <= i < r.len() - 1 implies (#[trigger] r[i + 1]).start > r[i].end
                + gap by {
                assert(acc[i + 1].start > acc[i].end + gap);
            }
        } else {
            let r = acc.push(next);
            assert(forall|i: int|
                0 <= i < r.len() ==> r[i] == (if i < acc.len() {
                    acc[i]
                } else {
                    next
                }));
            if acc.len() > 0 {
                assert forall|i: int| 0 <= i < r.len() - 1 implies (#[trigger] r[i + 1]).start
                    > r[i].end + gap by {
                    if i < acc.len() - 1 {
                        assert(acc[i + 1].start > acc[i].end + gap);
                    }
                }
                assert forall|i: int, j: int| 0 <= i < j < r.len() implies r[i].start
                    <= r[j].start by {
                    if j < acc.len() {
                        assert(acc[i].start <= acc[j].start);
                    } else {
                        assert(r[i].start <= acc.last().start);
                        assert(acc.last().start <= rs.drop_last().last().start);
                    }
                }
            }
        }
    }
}

/// Merging a gap-separated sequence changes nothing.
proof fn lemma_merge_of_separated(m: Seq<RemovalModel>, gap: int)
    requires
        gap_separated(m, gap),
    ensures
        spec_merge_sorted(m, gap) == m,
    decreases m.len(),
{
    if m.len() > 0 {
        assert(gap_separated(m.drop_last(), gap)) by {
            assert(forall|i: int|
                0 <= i < m.drop_last().len() ==> m.drop_last()[i] == m[i]);
        }
        lemma_merge_of_separated(m.drop_last(), gap);
        if m.len() >= 2 {
            assert(m[m.len() - 1].start > m[m.len() - 2].end + gap) by {
                assert(m[(m.len() - 2) + 1].start > m[m.len() - 2].end + gap);
            }
            assert(m.drop_last().last() == m[m.len() - 2]);
        }
        assert(spec_merge_sorted(m, gap) == merge_step(m.drop_last(), m.last(), gap));
        assert(merge_step(m.drop_last(), m.last(), gap) == m.drop_last().push(m.last()));
        assert(m.drop_last().push(m.last()) =~= m);
    }
}

/// Merging is idempotent: applying the merge rule to its own output
/// changes nothing, for any removal list and any non-negative merge gap.
pub proof fn lemma_merge_idempotent(rs: Seq<RemovalModel>, gap: int)
    requires
        gap >= 0,
    ensures
        spec_merge(spec_merge(rs, gap), gap) == spec_merge(rs, gap),
{
    lemma_sort_sorts(rs);
    lemma_merge_sorted_props(spec_sort_by_start(rs), gap);
    let m = spec_merge(rs, gap);
    lemma_sort_of_sorted(m);
    lemma_merge_of_separated(m, gap);
}

/// The audio editor: applies a removal plan to an audio buffer under a
/// fixed [`EditorConfig`].
pub struct Editor {
    /// The timing policy used for every call.
    pub config: EditorConfig,
    /// The audio processor used for loading policy.
    pub processor: AudioProcessor,
}

impl Editor {
    /// An editor with the given policy and a default audio processor.
    pub fn new(config: EditorConfig) -> (e: Editor)
        ensures
            e.config == config,
            e.processor.target_sample_rate == 48000,
    {
        Editor { config, processor: AudioProcessor::new(48000) }
    }

    /// Merges removals that overlap or sit within `merge_gap_ms` of each
    /// other, exactly as [`spec_merge`] states: the list is sorted by start
    /// and walked once; a merged interval takes the later end, the joined
    /// text and the weaker confidence.
    pub fn merge_removals(&self, removals: &Vec<Removal>) -> (out: Vec<Removal>)
        ensures
            removal_models(out@) == spec_merge(
                removal_models(removals@),
                self.config.merge_gap_ms as int,
            ),
    {
        let ghost all = removal_models(removals@);
        let gap: u64 = self.config.merge_gap_ms as u64;

        // Sort a copy by start time (stable).
        let mut sorted: Vec<Removal> = Vec::new();
        let mut i: usize = 0;
        while i < removals.len()
            invariant
                0 <= i <= removals@.len(),
                all == removal_models(removals@),
                removal_models(sorted@) == spec_sort_by_start(removal_models(removals@.take(i as int))),
            decreases removals@.len() - i,
        {
            let x: Removal = removals[i].duplicate();
            proof {
                lemma_models_take(removals@, i as int);
                lemma_models_take(removals@, i + 1);
                assert(removals@.take(i + 1).drop_last() =~= removals@.take(i as int));
                assert(removals@.take(i + 1).last() == removals@[i as int]);
                assert(removal_models(removals@.take(i + 1)).drop_last() =~= removal_models(
                    removals@.take(i as int),
                ));
                assert(removal_models(removals@.take(i + 1)).last() == removals@[i as int]@);
            }
            insert_sorted(&mut sorted, x);
            i = i + 1;
        }
        proof {
            assert(removals@.take(removals@.len() as int) =~= removals@);
        }

        // Walk once, merging neighbours within the gap.
        let mut merged: Vec<Removal> = Vec::new();
        let mut j: usize = 0;
        while j < sorted.len()
            invariant
                0 <= j <= sorted@.len(),
                gap == self.config.merge_gap_ms as u64,
                removal_models(merged@) == spec_merge_sorted(
                    removal_models(sorted@.take(j as int)),
                    gap as int,
                ),
            decreases sorted@.len() - j,
        {
            let next: Removal = sorted[j].duplicate();
            proof {
                lemma_models_take(sorted@, j as int);
                lemma_models_take(sorted@, j + 1);
                assert(removal_models(sorted@.take(j + 1)).drop_last() =~= removal_models(
                    sorted@.take(j as int),
                ));
                assert(removal_models(sorted@.take(j + 1)).last() == sorted@[j as int]@);
            }
            let mlen: usize = merged.len();
            let extends: bool = if mlen > 0 {
                match merged[mlen - 1].end.checked_add(gap) {
                    Some(threshold) => next.start <= threshold,
                    None => true,
                }
            } else {
                false
            };
            if extends {
                let ghost pre = merged@;
                let ghost acc = removal_models(merged@);
                let mut cur: Removal = merged.pop().unwrap();
                let ghost cur0 = cur@;
                proof {
                    assert(merged@.push(cur) =~= pre);
                    lemma_models_drop_last(pre);
                    assert(acc.last() == cur0);
                }
                cur.end = if cur.end >= next.end {
                    cur.end
                } else {
                    next.end
                };
                cur.text.append(" ... ");
                cur.text.append(next.text.as_str());
                cur.confidence = if cur.confidence <= next.confidence {
                    cur.confidence
                } else {
                    next.confidence
                };
                let ghost before_push = merged@;
                merged.push(cur);
                proof {
                    lemma_models_push(before_push, cur);
                    assert(cur@ == merge_pair(cur0, next@));
                    assert(removal_models(before_push) == acc.drop_last());
                    assert(removal_models(merged@) == merge_step(acc, next@, gap as int));
                }
            } else {
                let ghost before_push = merged@;
                merged.push(next);
                proof {
                    lemma_models_push(before_push, next);
                }
            }
            j = j + 1;
        }
        proof {
            assert(sorted@.take(sorted@.len() as int) =~= sorted@);
        }
        merged
    }

    /// Snaps each merged removal to the sample grid: both boundaries move
    /// to the nearest zero crossing within the configured search window, a
    /// start never reaches back before the previous cut, and intervals
    /// left without positive length are silently discarded.  The resulting
    /// plan is ordered, disjoint and inside the buffer.
    pub fn adjust_to_zero_crossings(
        &self,
        audio: &AudioData,
        removals: &Vec<Removal>,
    ) -> (out: Vec<SampleAlignedRemoval>)
        requires
            audio.well_formed(),
            removals_valid(removal_models(removals@)),
        ensures
            aligned_models(out@) == spec_adjust(
                audio.samples@,
                audio.sample_rate as int,
                removal_models(removals@),
                spec_search_radius(
                    self.config.zero_crossing_search_ms as int,
                    audio.sample_rate as int,
                ),
            ),
            plan_well_formed(aligned_models(out@), audio.samples@.len() as int),
    {
        let ghost rate = audio.sample_rate as int;
        let ghost all = removal_models(removals@);
        let ghost radius_spec = spec_search_radius(
            self.config.zero_crossing_search_ms as int,
            rate,
        );

        let mut out: Vec<SampleAlignedRemoval> = Vec::new();
        if audio.samples.len() == 0 {
            return out;
        }
        proof {
            lemma_adjust_walk_wf(audio.samples@, rate, all, radius_spec, 0);
        }

        proof {
            crate::audio::lemma_mul_bound_commute(
                self.config.zero_crossing_search_ms as int,
                audio.sample_rate as int,
                u32::MAX as int,
                crate::MAX_SAMPLE_RATE as int,
            );
        }
        let search64: u64 = (self.config.zero_crossing_search_ms as u64
            * audio.sample_rate as u64) / 1000;
        let radius: usize = if search64 <= usize::MAX as u64 {
            search64 as usize
        } else {
            usize::MAX
        };
        assert(radius as int == radius_spec);

        let len: usize = audio.samples.len();
        let mut prev_end: usize = 0;
        let mut j: usize = 0;
        proof {
            assert(all.skip(0) =~= all);
            assert(aligned_models(out@) =~= Seq::<AlignedModel>::empty());
            assert(Seq::<AlignedModel>::empty() + spec_adjust_walk(
                audio.samples@,
                rate,
                all,
                radius_spec,
                0,
            ) =~= spec_adjust_walk(audio.samples@, rate, all, radius_spec, 0));
        }
        while j < removals.len()
            invariant
                0 <= j <= removals@.len(),
                audio.well_formed(),
                audio.samples@.len() == len,
                len > 0,
                rate == audio.sample_rate as int,
                all == removal_models(removals@),
                removals_valid(all),
                radius as int == radius_spec,
                radius_spec >= 0,
                0 <= prev_end < len,
                aligned_models(out@) + spec_adjust_walk(
                    audio.samples@,
                    rate,
                    all.skip(j as int),
                    radius_spec,
                    prev_end as int,
                ) == spec_adjust_walk(audio.samples@, rate, all, radius_spec, 0),
            decreases removals@.len() - j,
        {
            let r: &Removal = &removals[j];
            assert(r@ == all[j as int]);
            assert(all[j as int].valid());
            let t_start64: u64 = audio.time_to_sample(r.start);
            let t_end64: u64 = audio.time_to_sample(r.end);
            let target_start: usize = if t_start64 <= usize::MAX as u64 {
                t_start64 as usize
            } else {
                usize::MAX
            };
            let target_end: usize = if t_end64 <= usize::MAX as u64 {
                t_end64 as usize
            } else {
                usize::MAX
            };
            let s0: usize = AudioProcessor::find_zero_crossing(
                audio.samples.as_slice(),
                target_start,
                radius,
            );
            let e0: usize = AudioProcessor::find_zero_crossing(
                audio.samples.as_slice(),
                target_end,
                radius,
            );
            let s1: usize = if s0 >= prev_end {
                s0
            } else {
                prev_end
            };
            proof {
                assert(all.skip(j as int).first() == all[j as int]);
                assert(all.skip(j as int).drop_first() =~= all.skip(j + 1));
                assert(s0 as int == spec_snap(audio.samples@, rate, all[j as int].start, radius_spec));
                assert(e0 as int == spec_snap(audio.samples@, rate, all[j as int].end, radius_spec));
            }
            if e0 > s1 {
                let entry = SampleAlignedRemoval {
                    start_sample: s1,
                    end_sample: e0,
                    removal: r.duplicate(),
                };
                let ghost before = out@;
                out.push(entry);
                proof {
                    lemma_aligned_push(before, entry);
                    assert(aligned_models(out@) + spec_adjust_walk(
                        audio.samples@,
                        rate,
                        all.skip(j + 1),
                        radius_spec,
                        e0 as int,
                    ) =~= spec_adjust_walk(audio.samples@, rate, all, radius_spec, 0));
                }
                prev_end = e0;
            }
            j = j + 1;
        }
        proof {
            assert(all.skip(all.len() as int) =~= Seq::<RemovalModel>::empty());
            assert(aligned_models(out@) =~= spec_adjust_walk(
                audio.samples@,
                rate,
                all,
                radius_spec,
                0,
            ));
        }
        out
    }

    /// Renders the plan: walks the cuts in order, keeps the audio between
    /// them, joins the kept segments with crossfades, and records one
    /// [`AppliedEdit`] per cut with the original (pre-snap) time stamps.
    /// An empty plan yields an unchanged copy of the input; a plan that
    /// covers everything yields an empty buffer.
    pub fn apply_removals(
        &self,
        audio: &AudioData,
        plan: &Vec<SampleAlignedRemoval>,
    ) -> (out: (AudioData, Vec<AppliedEdit>))
        requires
            audio.well_formed(),
            plan_well_formed(aligned_models(plan@), audio.samples@.len() as int),
        ensures
            out.0.sample_rate == audio.sample_rate,
            out.0.samples@ == spec_render(
                audio.samples@,
                aligned_models(plan@),
                spec_fade_samples(self.config.crossfade_ms as int, audio.sample_rate as int),
            ),
            crate::types::edit_models(out.1@) == spec_edits_of_plan(aligned_models(plan@)),
            out.0.samples@.len() <= audio.samples@.len(),
            plan@.len() == 0 ==> out.0.samples@ == audio.samples@ && out.1@.len() == 0,
    {
        let ghost models = aligned_models(plan@);
        let ghost rate = audio.sample_rate as int;
        let ghost fade_spec = spec_fade_samples(self.config.crossfade_ms as int, rate);
        proof {
            lemma_render_le(audio.samples@, models, fade_spec);
        }
        let mut edits: Vec<AppliedEdit> = Vec::new();
        if plan.len() == 0 {
            return (audio.duplicate(), edits);
        }

        proof {
            crate::audio::lemma_mul_bound_commute(
                self.config.crossfade_ms as int,
                rate,
                u32::MAX as int,
                crate::MAX_SAMPLE_RATE as int,
            );
        }
        let fade64: u64 = (self.config.crossfade_ms as u64 * audio.sample_rate as u64) / 1000;
        let fade: usize = if fade64 <= usize::MAX as u64 {
            fade64 as usize
        } else {
            usize::MAX
        };
        assert(fade as int == fade_spec);

        let len: usize = audio.samples.len();
        let mut segments: Vec<Vec<i32>> = Vec::new();
        let mut last_end: usize = 0;
        let mut j: usize = 0;
        proof {
            assert(models.take(0) =~= Seq::<AlignedModel>::empty());
        }
        while j < plan.len()
            invariant
                0 <= j <= plan@.len(),
                audio.samples@.len() == len,
                models == aligned_models(plan@),
                plan_well_formed(models, len as int),
                seg_views(segments@) == spec_keep_mid(audio.samples@, models.take(j as int), 0),
                last_end as int == spec_final_end(models.take(j as int), 0),
                crate::types::edit_models(edits@) == spec_edits_of_plan(models.take(j as int)),
                j == 0 ==> last_end == 0,
                j > 0 ==> last_end as int == models[j - 1].end_sample,
                last_end <= len,
            decreases plan@.len() - j,
        {
            let e: &SampleAlignedRemoval = &plan[j];
            proof {
                assert(e@ == models[j as int]);
                assert(models.take(j + 1) =~= models.take(j as int).push(models[j as int]));
                lemma_keep_mid_push(audio.samples@, models.take(j as int), models[j as int], 0);
                assert(0 <= models[j as int].start_sample < models[j as int].end_sample
                    <= len as int);
                if j > 0 {
                    assert(models[j - 1].end_sample <= models[j as int].start_sample);
                }
            }
            if e.start_sample > last_end {
                let mut seg: Vec<i32> = Vec::new();
                crate::audio::push_slice_range(
                    &mut seg,
                    audio.samples.as_slice(),
                    last_end,
                    e.start_sample,
                );
                let ghost before = segments@;
                segments.push(seg);
                proof {
                    lemma_seg_push(before, seg);
                }
            }
            let edit = AppliedEdit {
                original_start: e.removal.start,
                original_end: e.removal.end,
                reason: e.removal.reason.as_str().to_owned(),
                text: e.removal.text.clone(),
            };
            let ghost edits_before = edits@;
            edits.push(edit);
            proof {
                lemma_edits_push(edits_before, edit);
                lemma_edits_of_plan_push(models.take(j as int), models[j as int]);
            }
            last_end = e.end_sample;
            j = j + 1;
        }
        proof {
            assert(models.take(plan@.len() as int) =~= models);
        }

        // Trailing kept region.
        if last_end < len {
            let mut seg: Vec<i32> = Vec::new();
            crate::audio::push_slice_range(&mut seg, audio.samples.as_slice(), last_end, len);
            let ghost before = segments@;
            segments.push(seg);
            proof {
                lemma_seg_push(before, seg);
                assert(seg@ == audio.samples@.skip(last_end as int));
                assert(seg_views(segments@) =~= spec_keep_segments(audio.samples@, models, 0));
            }
        } else {
            proof {
                assert(seg_views(segments@) =~= spec_keep_segments(audio.samples@, models, 0));
            }
        }

        // Join the kept segments pairwise with crossfades.
        if segments.len() == 0 {
            let empty: Vec<i32> = Vec::new();
            return (AudioData { samples: empty, sample_rate: audio.sample_rate }, edits);
        }
        let mut result: Vec<i32> = Vec::new();
        crate::audio::push_slice_range(&mut result, segments[0].as_slice(), 0, segments[0].len());
        proof {
            assert(result@ =~= seg_views(segments@)[0]);
            assert(seg_views(segments@).take(1).drop_last() =~= Seq::<Seq<i32>>::empty());
            assert(seg_views(segments@).take(1)[0] == seg_views(segments@)[0]);
        }
        let mut k: usize = 1;
        while k < segments.len()
            invariant
                1 <= k <= segments@.len(),
                fade as int == fade_spec,
                result@ == spec_concat_fade(seg_views(segments@).take(k as int), fade as int),
            decreases segments@.len() - k,
        {
            let joined: Vec<i32> = AudioProcessor::apply_crossfade(
                result.as_slice(),
                segments[k].as_slice(),
                fade,
            );
            proof {
                assert(seg_views(segments@).take(k + 1).drop_last() =~= seg_views(
                    segments@,
                ).take(k as int));
                assert(seg_views(segments@).take(k + 1).last() == seg_views(segments@)[k as int]);
            }
            result = joined;
            k = k + 1;
        }
        proof {
            assert(seg_views(segments@).take(segments@.len() as int) =~= seg_views(segments@));
        }
        (AudioData { samples: result, sample_rate: audio.sample_rate }, edits)
    }

    /// The whole edit: filter out removals shorter than the minimum, merge
    /// the ones within the merge gap, snap the survivors to zero crossings,
    /// render the kept audio with crossfaded joins, and report exactly what
    /// was cut.  The rendered audio is never longer than the input, and a
    /// plan with no usable removal returns the input unchanged with an
    /// empty edit list.
    pub fn edit(
        &self,
        audio: &AudioData,
        analysis: &crate::types::AnalysisResult,
        input_path: &str,
        output_path: &str,
    ) -> (res: (AudioData, EditReport))
        requires
            audio.well_formed(),
            removals_valid(removal_models(analysis.removals@)),
        ensures
            ({
                let rate = audio.sample_rate as int;
                let plan = spec_reconcile(
                    audio.samples@,
                    rate,
                    removal_models(analysis.removals@),
                    self.config,
                );
                &&& res.0.sample_rate == audio.sample_rate
                &&& res.0.samples@ == spec_render(
                    audio.samples@,
                    plan,
                    spec_fade_samples(self.config.crossfade_ms as int, rate),
                )
                &&& res.1@.edits == spec_edits_of_plan(plan)
                &&& res.1@.input_path == input_path@
                &&& res.1@.output_path == output_path@
                &&& res.1@.original_duration == spec_duration_ms(
                    audio.samples@.len() as int,
                    rate,
                )
                &&& res.1@.edited_duration == spec_duration_ms(res.0.samples@.len() as int, rate)
                &&& res.1@.edited_duration <= res.1@.original_duration
                &&& res.0.samples@.len() <= audio.samples@.len()
                &&& spec_filter_min(
                    removal_models(analysis.removals@),
                    self.config.min_removal_ms as int,
                ).len() == 0 ==> res.0.samples@ == audio.samples@ && res.1@.edits.len() == 0
            }),
    {
        let ghost rate = audio.sample_rate as int;
        let ghost all = removal_models(analysis.removals@);
        let ghost filtered = spec_filter_min(all, self.config.min_removal_ms as int);

        let valid: Vec<Removal> = filter_min(&analysis.removals, self.config.min_removal_ms as u64);
        proof {
            lemma_filter_min_valid(all, self.config.min_removal_ms as int);
            lemma_merge_valid(filtered, self.config.merge_gap_ms as int);
        }
        let merged: Vec<Removal> = self.merge_removals(&valid);
        let plan: Vec<SampleAlignedRemoval> = self.adjust_to_zero_crossings(audio, &merged);
        let pair = self.apply_removals(audio, &plan);
        let edited: AudioData = pair.0;
        let edits: Vec<AppliedEdit> = pair.1;

        proof {
            if filtered.len() == 0 {
                assert(spec_sort_by_start(filtered) =~= Seq::<RemovalModel>::empty());
                assert(spec_merge(filtered, self.config.merge_gap_ms as int)
                    =~= Seq::<RemovalModel>::empty());
                assert(aligned_models(plan@) =~= Seq::<AlignedModel>::empty());
            }
        }

        let original_duration: u64 = audio.duration();
        let edited_duration: u64 = edited.duration();
        proof {
            vstd::arithmetic::div_mod::lemma_div_is_ordered(
                edited.samples@.len() as int * 1000 + rate / 2,
                audio.samples@.len() as int * 1000 + rate / 2,
                rate,
            );
        }
        let report = EditReport {
            input_path: input_path.to_owned(),
            output_path: output_path.to_owned(),
            original_duration,
            edited_duration,
            edits,
        };
        proof {
            assert(crate::types::edit_models(report.edits@) == spec_edits_of_plan(
                aligned_models(plan@),
            ));
        }
        (edited, report)
    }

    /// The preview of an edit: the same reconciliation as [`Editor::edit`],
    /// returning for every planned cut its original and snapped boundaries
    /// without touching any samples.  Previewed cuts therefore match
    /// applied cuts exactly.
    pub fn preview(
        &self,
        audio: &AudioData,
        analysis: &crate::types::AnalysisResult,
    ) -> (out: Vec<PreviewEdit>)
        requires
            audio.well_formed(),
            removals_valid(removal_models(analysis.removals@)),
        ensures
            preview_models(out@) == spec_preview_of_plan(
                spec_reconcile(
                    audio.samples@,
                    audio.sample_rate as int,
                    removal_models(analysis.removals@),
                    self.config,
                ),
                audio.sample_rate as int,
            ),
    {
        let ghost rate = audio.sample_rate as int;
        let ghost all = removal_models(analysis.removals@);
        let ghost filtered = spec_filter_min(all, self.config.min_removal_ms as int);

        let valid: Vec<Removal> = filter_min(&analysis.removals, self.config.min_removal_ms as u64);
        proof {
            lemma_filter_min_valid(all, self.config.min_removal_ms as int);
            lemma_merge_valid(filtered, self.config.merge_gap_ms as int);
        }
        let merged: Vec<Removal> = self.merge_removals(&valid);
        let plan: Vec<SampleAlignedRemoval> = self.adjust_to_zero_crossings(audio, &merged);
        let ghost plan_models = aligned_models(plan@);

        let mut out: Vec<PreviewEdit> = Vec::new();
        let mut j: usize = 0;
        proof {
            assert(plan_models.take(0) =~= Seq::<AlignedModel>::empty());
            assert(spec_preview_of_plan(plan_models.take(0), rate) =~= Seq::<
                PreviewModel,
            >::empty());
            assert(preview_models(out@) =~= Seq::<PreviewModel>::empty());
        }
        while j < plan.len()
            invariant
                0 <= j <= plan@.len(),
                audio.well_formed(),
                rate == audio.sample_rate as int,
                plan_models == aligned_models(plan@),
                plan_well_formed(plan_models, audio.samples@.len() as int),
                preview_models(out@) == spec_preview_of_plan(plan_models.take(j as int), rate),
            decreases plan@.len() - j,
        {
            let e: &SampleAlignedRemoval = &plan[j];
            proof {
                assert(e@ == plan_models[j as int]);
                assert(0 <= plan_models[j as int].start_sample < plan_models[j as int].end_sample
                    <= audio.samples@.len());
                assert(plan_models.take(j + 1) =~= plan_models.take(j as int).push(
                    plan_models[j as int],
                ));
            }
            let adjusted_start: u64 = audio.sample_to_time(e.start_sample as u64);
            let adjusted_end: u64 = audio.sample_to_time(e.end_sample as u64);
            proof {
                vstd::arithmetic::div_mod::lemma_div_is_ordered(
                    e.start_sample as int * 1000 + rate / 2,
                    e.end_sample as int * 1000 + rate / 2,
                    rate,
                );
            }
            let row = PreviewEdit {
                original_start: e.removal.start,
                original_end: e.removal.end,
                adjusted_start,
                adjusted_end,
                duration: adjusted_end - adjusted_start,
                reason: e.removal.reason.as_str().to_owned(),
                text: e.removal.text.clone(),
                confidence: e.removal.confidence,
            };
            let ghost before = out@;
            out.push(row);
            proof {
                lemma_preview_push(before, row);
                lemma_preview_plan_push(plan_models.take(j as int), plan_models[j as int], rate);
            }
            j = j + 1;
        }
        proof {
            assert(plan_models.take(plan@.len() as int) =~= plan_models);
        }
        out
    }
}

impl Default for Editor {
    /// An editor with the default policy.
    fn default() -> (e: Editor)
        ensures
            e.config.crossfade_ms == 30,
            e.config.min_removal_ms == 100,
            e.config.merge_gap_ms == 50,
            e.config.zero_crossing_search_ms == 5,
    {
        Editor::new(EditorConfig::default())
    }
}

} // verus!
