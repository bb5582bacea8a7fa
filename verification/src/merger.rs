//! Merging diarization output into a transcript: speaker labels are
//! assigned by time, and adjacent same-speaker sentences are joined.

use vstd::prelude::*;

use vstd::string::StringExecFns;

use crate::diarization::{speaker_models, DiarizationError, SpeakerSegment, SpeakerSegmentModel};
use crate::strfmt::str_eq;
use crate::types::{
    opt_view, segment_models, word_models, Segment, SegmentModel, TranscriptResult, WordModel,
    WordSegment,
};
use crate::MAX_TIME_MS;

verus! {

/// Every span's time stamps are small enough for exact midpoint
/// arithmetic.
pub open spec fn speakers_valid(s: Seq<SpeakerSegmentModel>) -> bool {
    forall|i: int|
        0 <= i < s.len() ==> 0 <= (#[trigger] s[i]).start <= MAX_TIME_MS && 0 <= s[i].end
            <= MAX_TIME_MS
}

/// Every sentence's and word's time stamps are bounded.
pub open spec fn transcript_valid(segs: Seq<SegmentModel>) -> bool {
    forall|i: int|
        0 <= i < segs.len() ==> 0 <= (#[trigger] segs[i]).start <= MAX_TIME_MS && 0 <= segs[i].end
            <= MAX_TIME_MS && (forall|j: int|
            0 <= j < segs[i].words.len() ==> 0 <= (#[trigger] segs[i].words[j]).start
                <= MAX_TIME_MS && 0 <= segs[i].words[j].end <= MAX_TIME_MS)
}

/// The first span containing `t`, or `-1`.
pub open spec fn spec_containing(segs: Seq<SpeakerSegmentModel>, t: int) -> int
    decreases segs.len(),
{
    if segs.len() == 0 {
        -1
    } else if segs.first().start <= t <= segs.first().end {
        0
    } else {
        let r = spec_containing(segs.drop_first(), t);
        if r == -1 {
            -1
        } else {
            r + 1
        }
    }
}

/// Distance from `t` to the midpoint of a span.
pub open spec fn mid_dist(g: SpeakerSegmentModel, t: int) -> int {
    let mid = (g.start + g.end) / 2;
    if mid >= t {
        mid - t
    } else {
        t - mid
    }
}

/// The span whose midpoint lies closest to `t`; of equally close spans,
/// the last.  `-1` for an empty list.
pub open spec fn spec_closest(segs: Seq<SpeakerSegmentModel>, t: int) -> int
    decreases segs.len(),
{
    if segs.len() == 0 {
        -1
    } else if segs.len() == 1 {
        0
    } else {
        let r = spec_closest(segs.drop_last(), t);
        if mid_dist(segs.last(), t) <= mid_dist(segs[r], t) {
            segs.len() - 1
        } else {
            r
        }
    }
}

proof fn lemma_closest_range(segs: Seq<SpeakerSegmentModel>, t: int)
    requires
        segs.len() > 0,
    ensures
        0 <= spec_closest(segs, t) < segs.len(),
    decreases segs.len(),
{
    if segs.len() > 1 {
        lemma_closest_range(segs.drop_last(), t);
    }
}

proof fn lemma_containing_hit(segs: Seq<SpeakerSegmentModel>, t: int, i: int)
    requires
        0 <= i < segs.len(),
        forall|k: int|
            0 <= k < i ==> !((#[trigger] segs[k]).start <= t <= segs[k].end),
        segs[i].start <= t <= segs[i].end,
    ensures
        spec_containing(segs, t) == i,
    decreases i,
{
    if i > 0 {
        assert(!(segs.first().start <= t <= segs.first().end));
        assert(forall|k: int|
            0 <= k < i - 1 ==> !((#[trigger] segs.drop_first()[k]).start <= t
                <= segs.drop_first()[k].end));
        assert(segs.drop_first()[i - 1] == segs[i]);
        lemma_containing_hit(segs.drop_first(), t, i - 1);
    }
}

proof fn lemma_containing_miss(segs: Seq<SpeakerSegmentModel>, t: int)
    requires
        forall|k: int|
            0 <= k < segs.len() ==> !((#[trigger] segs[k]).start <= t <= segs[k].end),
    ensures
        spec_containing(segs, t) == -1,
    decreases segs.len(),
{
    if segs.len() > 0 {
        assert(forall|k: int|
            0 <= k < segs.drop_first().len() ==> !((#[trigger] segs.drop_first()[k]).start <= t
                <= segs.drop_first()[k].end));
        lemma_containing_miss(segs.drop_first(), t);
    }
}

/// The speaker at time `t`: the label of the first span containing `t`,
/// else the label of the span whose midpoint lies closest (of equally
/// close spans, the last); `None` only when there are no spans.
pub open spec fn spec_find_speaker(segs: Seq<SpeakerSegmentModel>, t: int) -> Option<Seq<char>> {
    if segs.len() == 0 {
        None
    } else if spec_containing(segs, t) != -1 {
        Some(segs[spec_containing(segs, t)].speaker_id)
    } else {
        Some(segs[spec_closest(segs, t)].speaker_id)
    }
}

/// The speaker whose span covers (or lies nearest to) time `time_ms`.
pub fn find_speaker_at_time(time_ms: u64, diarization: &Vec<SpeakerSegment>) -> (r: Option<String>)
    requires
        speakers_valid(speaker_models(diarization@)),
    ensures
        opt_view(r) == spec_find_speaker(speaker_models(diarization@), time_ms as int),
{
    let ghost segs = speaker_models(diarization@);
    if diarization.len() == 0 {
        return None;
    }
    // First pass: a span that contains the time.
    let mut i: usize = 0;
    while i < diarization.len()
        invariant
            0 <= i <= diarization@.len(),
            segs == speaker_models(diarization@),
            forall|k: int|
                0 <= k < i ==> !((#[trigger] segs[k]).start <= time_ms as int <= segs[k].end),
        decreases diarization@.len() - i,
    {
        let g: &SpeakerSegment = &diarization[i];
        if g.start <= time_ms && time_ms <= g.end {
            proof {
                lemma_containing_hit(segs, time_ms as int, i as int);
            }
            return Some(g.speaker_id.clone());
        }
        i = i + 1;
    }
    proof {
        lemma_containing_miss(segs, time_ms as int);
    }
    // Second pass: the span whose midpoint lies closest; ties go to the
    // later span.
    let mut best: usize = 0;
    let mut best_dist: u64 = {
        let g0: &SpeakerSegment = &diarization[0];
        let mid: u64 = (g0.start + g0.end) / 2;
        if mid >= time_ms {
            mid - time_ms
        } else {
            time_ms - mid
        }
    };
    let mut k: usize = 1;
    proof {
        assert(segs.take(1).drop_last() =~= Seq::<SpeakerSegmentModel>::empty());
        assert(segs.take(1)[0] == segs[0]);
        assert(spec_closest(segs.take(1), time_ms as int) == 0);
        assert(best_dist as int == mid_dist(segs[0], time_ms as int));
    }
    while k < diarization.len()
        invariant
            1 <= k <= diarization@.len(),
            segs == speaker_models(diarization@),
            speakers_valid(segs),
            0 <= best < k,
            spec_closest(segs.take(k as int), time_ms as int) == best as int,
            best_dist as int == mid_dist(segs[best as int], time_ms as int),
        decreases diarization@.len() - k,
    {
        let g: &SpeakerSegment = &diarization[k];
        proof {
            assert(0 <= segs[k as int].start <= MAX_TIME_MS);
            assert(0 <= segs[k as int].end <= MAX_TIME_MS);
        }
        let mid: u64 = (g.start + g.end) / 2;
        let d: u64 = if mid >= time_ms {
            mid - time_ms
        } else {
            time_ms - mid
        };
        proof {
            assert(d as int == mid_dist(segs[k as int], time_ms as int));
            assert(segs.take(k + 1).drop_last() =~= segs.take(k as int));
            assert(segs.take(k + 1).last() == segs[k as int]);
            lemma_closest_range(segs.take(k as int), time_ms as int);
            assert(segs.take(k as int)[best as int] == segs[best as int]);
        }
        if d <= best_dist {
            best = k;
            best_dist = d;
        }
        k = k + 1;
    }
    proof {
        assert(segs.take(segs.len() as int) =~= segs);
    }
    Some(diarization[best].speaker_id.clone())
}

/// A sentence with its speaker (and its words' speakers) assigned by time.
pub open spec fn spec_assign_segment(g: SegmentModel, diar: Seq<SpeakerSegmentModel>) -> SegmentModel {
    SegmentModel {
        speaker: spec_find_speaker(diar, (g.start + g.end) / 2),
        words: g.words.map_values(
            |w: WordModel|
                WordModel { speaker: spec_find_speaker(diar, (w.start + w.end) / 2), ..w },
        ),
        ..g
    }
}

/// All sentences with their speakers assigned.
pub open spec fn spec_assign_speakers(segs: Seq<SegmentModel>, diar: Seq<SpeakerSegmentModel>) -> Seq<SegmentModel> {
    segs.map_values(|g: SegmentModel| spec_assign_segment(g, diar))
}

/// Assigns a speaker to every sentence and word of the transcript, by the
/// midpoint of its time span.  Fails only when the diarization found no
/// spans at all.
pub fn merge_speakers_with_transcript(
    transcript: TranscriptResult,
    diarization: &Vec<SpeakerSegment>,
) -> (r: Result<TranscriptResult, DiarizationError>)
    requires
        speakers_valid(speaker_models(diarization@)),
        transcript_valid(transcript@.segments),
    ensures
        r is Err <==> diarization@.len() == 0,
        r matches Err(e) ==> e is NoSpeakersDetected,
        r matches Ok(out) ==> out@.segments == spec_assign_speakers(
            transcript@.segments,
            speaker_models(diarization@),
        ) && out@.language == transcript@.language && out@.duration == transcript@.duration,
{
    let ghost diar = speaker_models(diarization@);
    let ghost orig = segment_models(transcript.segments@);
    if diarization.len() == 0 {
        return Err(DiarizationError::NoSpeakersDetected);
    }
    let mut rest: Vec<Segment> = transcript.segments;
    let mut done: Vec<Segment> = Vec::new();
    let rlen: usize = rest.len();
    proof {
        assert(orig.len() == rlen as int);
        assert(orig.skip(0) =~= orig);
        assert(segment_models(done@) =~= spec_assign_speakers(orig.take(0), diar));
    }
    let mut i: usize = 0;
    while rest.len() > 0
        invariant
            0 <= i <= orig.len(),
            orig.len() <= usize::MAX,
            i + rest@.len() == orig.len(),
            diar == speaker_models(diarization@),
            speakers_valid(diar),
            transcript_valid(orig),
            segment_models(rest@) == orig.skip(i as int),
            segment_models(done@) == spec_assign_speakers(orig.take(i as int), diar),
        decreases rest@.len(),
    {
        let ghost r0 = rest@;
        let seg: Segment = rest.remove(0);
        proof {
            assert(seg == r0[0]);
            assert(seg@ == segment_models(r0)[0]);
            assert(seg@ == orig[i as int]);
            assert(rest@ =~= r0.drop_first());
            assert(segment_models(rest@) =~= segment_models(r0).drop_first());
            assert(orig.skip(i as int).drop_first() =~= orig.skip(i + 1));
            assert(0 <= orig[i as int].start <= MAX_TIME_MS);
            assert(0 <= orig[i as int].end <= MAX_TIME_MS);
        }
        let seg_mid: u64 = (seg.start + seg.end) / 2;
        let speaker: Option<String> = find_speaker_at_time(seg_mid, diarization);

        // Assign speakers to the words of this sentence.
        let ghost words_orig = word_models(seg.words@);
        let mut wrest: Vec<WordSegment> = seg.words;
        let mut wdone: Vec<WordSegment> = Vec::new();
        let wlen: usize = wrest.len();
        proof {
            assert(words_orig.len() == wlen as int);
            assert(words_orig.skip(0) =~= words_orig);
            assert(word_models(wdone@) =~= words_orig.take(0).map_values(
                |w: WordModel|
                    WordModel { speaker: spec_find_speaker(diar, (w.start + w.end) / 2), ..w },
            ));
        }
        let mut j: usize = 0;
        while wrest.len() > 0
            invariant
                0 <= j <= words_orig.len(),
                words_orig.len() <= usize::MAX,
                j + wrest@.len() == words_orig.len(),
                diar == speaker_models(diarization@),
                speakers_valid(diar),
                forall|q: int|
                    0 <= q < words_orig.len() ==> 0 <= (#[trigger] words_orig[q]).start
                        <= MAX_TIME_MS && 0 <= words_orig[q].end <= MAX_TIME_MS,
                word_models(wrest@) == words_orig.skip(j as int),
                word_models(wdone@) == words_orig.take(j as int).map_values(
                    |w: WordModel|
                        WordModel { speaker: spec_find_speaker(diar, (w.start + w.end) / 2), ..w },
                ),
            decreases wrest@.len(),
        {
            let ghost wr0 = wrest@;
            let mut w: WordSegment = wrest.remove(0);
            proof {
                assert(w == wr0[0]);
                assert(w@ == word_models(wr0)[0]);
                assert(w@ == words_orig[j as int]);
                assert(wrest@ =~= wr0.drop_first());
                assert(word_models(wrest@) =~= word_models(wr0).drop_first());
                assert(words_orig.skip(j as int).drop_first() =~= words_orig.skip(j + 1));
            }
            let w_mid: u64 = (w.start + w.end) / 2;
            w.speaker = find_speaker_at_time(w_mid, diarization);
            let ghost wdone_before = wdone@;
            wdone.push(w);
            proof {
                assert(word_models(wdone@) =~= word_models(wdone_before).push(w@));
                assert(words_orig.take(j + 1) =~= words_orig.take(j as int).push(
                    words_orig[j as int],
                ));
                assert(word_models(wdone@) =~= words_orig.take(j + 1).map_values(
                    |w2: WordModel|
                        WordModel {
                            speaker: spec_find_speaker(diar, (w2.start + w2.end) / 2),
                            ..w2
                        },
                ));
            }
            j = j + 1;
        }
        proof {
            assert(words_orig.take(words_orig.len() as int) =~= words_orig);
        }

        let new_seg = Segment {
            text: seg.text,
            start: seg.start,
            end: seg.end,
            speaker,
            words: wdone,
        };
        let ghost done_before = done@;
        done.push(new_seg);
        proof {
            assert(segment_models(done@) =~= segment_models(done_before).push(new_seg@));
            assert(new_seg@ == spec_assign_segment(orig[i as int], diar));
            assert(orig.take(i + 1) =~= orig.take(i as int).push(orig[i as int]));
            assert(segment_models(done@) =~= spec_assign_speakers(orig.take(i + 1), diar));
        }
        i = i + 1;
    }
    proof {
        assert(orig.take(orig.len() as int) =~= orig);
    }
    Ok(
        TranscriptResult {
            segments: done,
            language: transcript.language,
            duration: transcript.duration,
        },
    )
}

/// Whether two optional labels hold the same text.
fn opt_label_eq(a: &Option<String>, b: &Option<String>) -> (r: bool)
    ensures
        r == (opt_view(*a) == opt_view(*b)),
{
    match a {
        None => match b {
            None => true,
            Some(_) => false,
        },
        Some(x) => match b {
            None => false,
            Some(y) => str_eq(x.as_str(), y.as_str()),
        },
    }
}

/// One step of the adjacency merge: a sentence extends the one under
/// construction when both carry the same speaker and it starts within a
/// second of that sentence's end.
pub open spec fn adj_step(acc: Seq<SegmentModel>, g: SegmentModel) -> Seq<SegmentModel> {
    if acc.len() > 0 && acc.last().speaker == g.speaker && g.start < acc.last().end + 1000 {
        acc.drop_last().push(
            SegmentModel {
                text: acc.last().text + " "@ + g.text,
                start: acc.last().start,
                end: g.end,
                speaker: acc.last().speaker,
                words: acc.last().words + g.words,
            },
        )
    } else {
        acc.push(g)
    }
}

/// Adjacent sentences with the same speaker, joined.
pub open spec fn spec_merge_adjacent(segs: Seq<SegmentModel>) -> Seq<SegmentModel>
    decreases segs.len(),
{
    if segs.len() == 0 {
        Seq::empty()
    } else {
        adj_step(spec_merge_adjacent(segs.drop_last()), segs.last())
    }
}

/// Joins adjacent sentences spoken by the same speaker whenever the next
/// one starts within a second of the previous one's end; texts are joined
/// with a space and the word lists are concatenated.
pub fn merge_adjacent_speaker_segments(transcript: TranscriptResult) -> (out: TranscriptResult)
    ensures
        out@.segments == spec_merge_adjacent(transcript@.segments),
        out@.language == transcript@.language,
        out@.duration == transcript@.duration,
{
    let ghost orig = segment_models(transcript.segments@);
    let mut rest: Vec<Segment> = transcript.segments;
    let mut merged: Vec<Segment> = Vec::new();
    let rlen: usize = rest.len();
    proof {
        assert(orig.len() == rlen as int);
        assert(orig.take(0) =~= Seq::<SegmentModel>::empty());
        assert(segment_models(merged@) =~= spec_merge_adjacent(orig.take(0)));
    }
    let mut i: usize = 0;
    while rest.len() > 0
        invariant
            0 <= i <= orig.len(),
            orig.len() <= usize::MAX,
            i + rest@.len() == orig.len(),
            segment_models(rest@) == orig.skip(i as int),
            segment_models(merged@) == spec_merge_adjacent(orig.take(i as int)),
        decreases rest@.len(),
    {
        let ghost r0 = rest@;
        let seg: Segment = rest.remove(0);
        proof {
            assert(seg == r0[0]);
            assert(seg@ == segment_models(r0)[0]);
            assert(seg@ == orig[i as int]);
            assert(rest@ =~= r0.drop_first());
            assert(segment_models(rest@) =~= segment_models(r0).drop_first());
            assert(orig.skip(i as int).drop_first() =~= orig.skip(i + 1));
            assert(orig.take(i + 1).drop_last() =~= orig.take(i as int));
            assert(orig.take(i + 1).last() == orig[i as int]);
        }
        let mlen: usize = merged.len();
        let extends: bool = if mlen > 0 {
            let same: bool = opt_label_eq(&merged[mlen - 1].speaker, &seg.speaker);
            let near: bool = match merged[mlen - 1].end.checked_add(1000) {
                Some(limit) => seg.start < limit,
                None => true,
            };
            same && near
        } else {
            false
        };
        if extends {
            let ghost pre = merged@;
            let ghost acc = segment_models(merged@);
            let mut cur: Segment = merged.pop().unwrap();
            let ghost cur0 = cur@;
            let mut seg2: Segment = seg;
            proof {
                assert(merged@.push(cur) =~= pre);
                assert(segment_models(merged@) =~= segment_models(pre).drop_last());
                assert(acc.last() == cur0);
            }
            cur.text.append(" ");
            cur.text.append(seg2.text.as_str());
            cur.end = seg2.end;
            cur.words.append(&mut seg2.words);
            let ghost before_push = merged@;
            merged.push(cur);
            proof {
                assert(cur@.words =~= cur0.words + orig[i as int].words);
                assert(cur@ == SegmentModel {
                    text: cur0.text + " "@ + orig[i as int].text,
                    start: cur0.start,
                    end: orig[i as int].end,
                    speaker: cur0.speaker,
                    words: cur0.words + orig[i as int].words,
                });
                assert(segment_models(merged@) =~= segment_models(before_push).push(cur@));
                assert(segment_models(before_push) == acc.drop_last());
                assert(segment_models(merged@) == adj_step(acc, orig[i as int]));
            }
        } else {
            let ghost before_push = merged@;
            merged.push(seg);
            proof {
                assert(segment_models(merged@) =~= segment_models(before_push).push(
                    orig[i as int],
                ));
            }
        }
        i = i + 1;
    }
    proof {
        assert(orig.take(orig.len() as int) =~= orig);
    }
    TranscriptResult {
        segments: merged,
        language: transcript.language,
        duration: transcript.duration,
    }
}

} // verus!
