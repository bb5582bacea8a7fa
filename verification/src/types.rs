//! Shared data types of the edit engine.
//!
//! All times are integer milliseconds and confidence scores are integer
//! thousandths, so that every comparison the engine makes is exact.

use vstd::prelude::*;

use crate::MAX_TIME_MS;

verus! {

/// Why a stretch of audio was proposed for removal.
#[derive(Debug, Clone, Copy, PartialEq, Eq, Structural)]
pub enum RemovalReason {
    /// A filler word or hesitation sound.
    Filler,
    /// A word or phrase repeated unnecessarily.
    Repeat,
    /// A sentence that was started over.
    Restart,
    /// A lip or mouth noise.
    MouthNoise,
    /// An overly long pause.
    LongPause,
}

impl RemovalReason {
    /// The stable textual tag of this reason, as used in reports and
    /// interchange files.
    pub open spec fn spec_str(self) -> Seq<char> {
        match self {
            RemovalReason::Filler => "filler"@,
            RemovalReason::Repeat => "repeat"@,
            RemovalReason::Restart => "restart"@,
            RemovalReason::MouthNoise => "mouth_noise"@,
            RemovalReason::LongPause => "long_pause"@,
        }
    }

    /// Textual tag of this reason.
    pub fn as_str(&self) -> (s: &'static str)
        ensures
            s@ == self.spec_str(),
    {
        match self {
            RemovalReason::Filler => "filler",
            RemovalReason::Repeat => "repeat",
            RemovalReason::Restart => "restart",
            RemovalReason::MouthNoise => "mouth_noise",
            RemovalReason::LongPause => "long_pause",
        }
    }
}

/// Mathematical image of a [`Removal`].
pub ghost struct RemovalModel {
    /// Start time in milliseconds.
    pub start: int,
    /// End time in milliseconds.
    pub end: int,
    /// Reason for the removal.
    pub reason: RemovalReason,
    /// Text that the removed stretch carried.
    pub text: Seq<char>,
    /// Confidence in thousandths.
    pub confidence: int,
}

impl RemovalModel {
    /// Length of the interval; zero when the end does not lie after the
    /// start.
    pub open spec fn duration(self) -> int {
        if self.end >= self.start {
            self.end - self.start
        } else {
            0
        }
    }

    /// Time stamps small enough for exact sample arithmetic, and a
    /// confidence no greater than one (a thousand thousandths).
    pub open spec fn valid(self) -> bool {
        &&& 0 <= self.start <= MAX_TIME_MS
        &&& 0 <= self.end <= MAX_TIME_MS
        &&& 0 <= self.confidence <= 1000
    }
}

/// A proposed removal interval, produced by the analysis stage.
pub struct Removal {
    /// Start time in milliseconds.
    pub start: u64,
    /// End time in milliseconds.  The engine tolerates `end <= start`; such
    /// intervals are discarded during reconciliation.
    pub end: u64,
    /// Why the interval should be removed.
    pub reason: RemovalReason,
    /// The text spoken in the interval.
    pub text: String,
    /// Confidence in thousandths (zero to one thousand).
    pub confidence: u32,
}

impl View for Removal {
    type V = RemovalModel;

    open spec fn view(&self) -> RemovalModel {
        RemovalModel {
            start: self.start as int,
            end: self.end as int,
            reason: self.reason,
            text: self.text@,
            confidence: self.confidence as int,
        }
    }
}

impl Removal {
    /// Length of the interval in milliseconds; zero when the end does not
    /// lie after the start.
    pub fn duration(&self) -> (d: u64)
        ensures
            d == self@.duration(),
    {
        if self.end >= self.start {
            self.end - self.start
        } else {
            0
        }
    }

    /// An exact copy of this removal.
    pub fn duplicate(&self) -> (r: Removal)
        ensures
            r@ == self@,
    {
        Removal {
            start: self.start,
            end: self.end,
            reason: self.reason,
            text: self.text.clone(),
            confidence: self.confidence,
        }
    }
}

/// The models of a sequence of removals.
pub open spec fn removal_models(s: Seq<Removal>) -> Seq<RemovalModel> {
    s.map_values(|r: Removal| r@)
}

/// Every removal in the sequence is [`RemovalModel::valid`].
pub open spec fn removals_valid(s: Seq<RemovalModel>) -> bool {
    forall|i: int| 0 <= i < s.len() ==> (#[trigger] s[i]).valid()
}

/// Mathematical image of an [`AppliedEdit`].
pub ghost struct EditModel {
    /// Original start time in milliseconds.
    pub original_start: int,
    /// Original end time in milliseconds.
    pub original_end: int,
    /// Reason tag.
    pub reason: Seq<char>,
    /// Removed text.
    pub text: Seq<char>,
}

impl EditModel {
    /// Length of the edited-out interval; zero when degenerate.
    pub open spec fn duration(self) -> int {
        if self.original_end >= self.original_start {
            self.original_end - self.original_start
        } else {
            0
        }
    }
}

/// One removal that was actually applied, with the original (pre-snap)
/// time stamps for report fidelity.
pub struct AppliedEdit {
    /// Original start time in milliseconds.
    pub original_start: u64,
    /// Original end time in milliseconds.
    pub original_end: u64,
    /// Reason tag.
    pub reason: String,
    /// Removed text.
    pub text: String,
}

impl View for AppliedEdit {
    type V = EditModel;

    open spec fn view(&self) -> EditModel {
        EditModel {
            original_start: self.original_start as int,
            original_end: self.original_end as int,
            reason: self.reason@,
            text: self.text@,
        }
    }
}

/// The models of a sequence of applied edits.
pub open spec fn edit_models(s: Seq<AppliedEdit>) -> Seq<EditModel> {
    s.map_values(|e: AppliedEdit| e@)
}

/// The removal plan handed to the engine, together with summary numbers
/// from the analysis stage.
pub struct AnalysisResult {
    /// Proposed removal intervals, in no particular order.
    pub removals: Vec<Removal>,
    /// Duration of the analyzed audio in milliseconds.
    pub original_duration: u64,
    /// Total duration the analysis proposes to remove, in milliseconds.
    pub removed_duration: u64,
    /// Counters by category, as reported by the analysis stage.
    pub statistics: Vec<(String, u32)>,
}

/// Mathematical image of an [`EditReport`].
pub ghost struct ReportModel {
    /// Path of the input audio file.
    pub input_path: Seq<char>,
    /// Path of the rendered output file.
    pub output_path: Seq<char>,
    /// Duration of the input in milliseconds.
    pub original_duration: int,
    /// Duration of the rendered output in milliseconds.
    pub edited_duration: int,
    /// The edits that were applied, in timeline order.
    pub edits: Seq<EditModel>,
}

/// The record of one render: where the audio came from, where it went, and
/// exactly what was cut.
pub struct EditReport {
    /// Path of the input audio file.
    pub input_path: String,
    /// Path of the rendered output file.
    pub output_path: String,
    /// Duration of the input in milliseconds.
    pub original_duration: u64,
    /// Duration of the rendered output in milliseconds.
    pub edited_duration: u64,
    /// The edits that were applied, in timeline order.
    pub edits: Vec<AppliedEdit>,
}

impl View for EditReport {
    type V = ReportModel;

    open spec fn view(&self) -> ReportModel {
        ReportModel {
            input_path: self.input_path@,
            output_path: self.output_path@,
            original_duration: self.original_duration as int,
            edited_duration: self.edited_duration as int,
            edits: edit_models(self.edits@),
        }
    }
}

/// Mathematical image of a [`WordSegment`].
pub ghost struct WordModel {
    /// The word.
    pub word: Seq<char>,
    /// Start time in milliseconds.
    pub start: int,
    /// End time in milliseconds.
    pub end: int,
    /// Confidence in thousandths.
    pub confidence: int,
    /// Speaker label, once assigned.
    pub speaker: Option<Seq<char>>,
}

/// One transcribed word with its time stamps.
pub struct WordSegment {
    /// The word.
    pub word: String,
    /// Start time in milliseconds.
    pub start: u64,
    /// End time in milliseconds.
    pub end: u64,
    /// Confidence in thousandths.
    pub confidence: u32,
    /// Speaker label, once assigned.
    pub speaker: Option<String>,
}

/// The view of an optional label.
pub open spec fn opt_view(o: Option<String>) -> Option<Seq<char>> {
    match o {
        None => None,
        Some(s) => Some(s@),
    }
}

impl View for WordSegment {
    type V = WordModel;

    open spec fn view(&self) -> WordModel {
        WordModel {
            word: self.word@,
            start: self.start as int,
            end: self.end as int,
            confidence: self.confidence as int,
            speaker: opt_view(self.speaker),
        }
    }
}

/// The models of a word list.
pub open spec fn word_models(s: Seq<WordSegment>) -> Seq<WordModel> {
    s.map_values(|w: WordSegment| w@)
}

/// Mathematical image of a [`Segment`].
pub ghost struct SegmentModel {
    /// The sentence text.
    pub text: Seq<char>,
    /// Start time in milliseconds.
    pub start: int,
    /// End time in milliseconds.
    pub end: int,
    /// Speaker label, once assigned.
    pub speaker: Option<Seq<char>>,
    /// The words of the sentence.
    pub words: Seq<WordModel>,
}

/// One transcribed sentence with its words.
pub struct Segment {
    /// The sentence text.
    pub text: String,
    /// Start time in milliseconds.
    pub start: u64,
    /// End time in milliseconds.
    pub end: u64,
    /// Speaker label, once assigned.
    pub speaker: Option<String>,
    /// The words of the sentence.
    pub words: Vec<WordSegment>,
}

impl View for Segment {
    type V = SegmentModel;

    open spec fn view(&self) -> SegmentModel {
        SegmentModel {
            text: self.text@,
            start: self.start as int,
            end: self.end as int,
            speaker: opt_view(self.speaker),
            words: word_models(self.words@),
        }
    }
}

/// The models of a segment list.
pub open spec fn segment_models(s: Seq<Segment>) -> Seq<SegmentModel> {
    s.map_values(|g: Segment| g@)
}

/// Mathematical image of a [`TranscriptResult`].
pub ghost struct TranscriptModel {
    /// The sentences, in order.
    pub segments: Seq<SegmentModel>,
    /// Language code.
    pub language: Seq<char>,
    /// Audio duration in milliseconds.
    pub duration: int,
}

/// A whole transcription: sentences, language and duration.
pub struct TranscriptResult {
    /// The sentences, in order.
    pub segments: Vec<Segment>,
    /// Language code.
    pub language: String,
    /// Audio duration in milliseconds.
    pub duration: u64,
}

impl View for TranscriptResult {
    type V = TranscriptModel;

    open spec fn view(&self) -> TranscriptModel {
        TranscriptModel {
            segments: segment_models(self.segments@),
            language: self.language@,
            duration: self.duration as int,
        }
    }
}

} // verus!
