//! Speaker-diarization session state: which models are configured and
//! whether the provider is ready to run.

use vstd::prelude::*;

verus! {

/// Mathematical image of a [`SpeakerSegment`].
pub ghost struct SpeakerSegmentModel {
    /// Start time in milliseconds.
    pub start: int,
    /// End time in milliseconds.
    pub end: int,
    /// Speaker label.
    pub speaker_id: Seq<char>,
    /// Confidence in thousandths.
    pub confidence: int,
}

/// One span of speech attributed to a speaker.
pub struct SpeakerSegment {
    /// Start time in milliseconds.
    pub start: u64,
    /// End time in milliseconds.
    pub end: u64,
    /// Speaker label, such as `Speaker1`.
    pub speaker_id: String,
    /// Confidence in thousandths.
    pub confidence: u32,
}

impl View for SpeakerSegment {
    type V = SpeakerSegmentModel;

    open spec fn view(&self) -> SpeakerSegmentModel {
        SpeakerSegmentModel {
            start: self.start as int,
            end: self.end as int,
            speaker_id: self.speaker_id@,
            confidence: self.confidence as int,
        }
    }
}

/// The models of a speaker-segment list.
pub open spec fn speaker_models(s: Seq<SpeakerSegment>) -> Seq<SpeakerSegmentModel> {
    s.map_values(|g: SpeakerSegment| g@)
}

impl SpeakerSegment {
    /// Length of the span in milliseconds; zero when the end does not lie
    /// after the start.
    pub fn duration(&self) -> (d: u64)
        ensures
            d == (if self@.end >= self@.start {
                self@.end - self@.start
            } else {
                0
            }),
    {
        if self.end >= self.start {
            self.end - self.start
        } else {
            0
        }
    }
}

/// Errors that can arise during diarization.
#[derive(Debug)]
pub enum DiarizationError {
    /// The models are not loaded.
    ModelNotLoaded,
    /// A model file could not be loaded.
    ModelLoadFailed(String),
    /// The audio file does not exist.
    FileNotFound(String),
    /// The diarization run failed.
    DiarizationFailed(String),
    /// The audio is not in a usable format.
    InvalidAudioFormat(String),
    /// An underlying I/O failure.
    IoError(String),
    /// An inference-runtime failure.
    OrtError(String),
    /// The audio contains no detectable speakers.
    NoSpeakersDetected,
}

/// Options for one diarization run.
#[derive(Debug, Clone)]
pub struct DiarizationOptions {
    /// Smallest speaker count to consider; `None` auto-detects.
    pub min_speakers: Option<u32>,
    /// Largest speaker count to consider; `None` auto-detects.
    pub max_speakers: Option<u32>,
}

impl Default for DiarizationOptions {
    /// The default options: auto-detect the speaker count.
    fn default() -> (o: DiarizationOptions)
        ensures
            o.min_speakers is None,
            o.max_speakers is None,
    {
        DiarizationOptions { min_speakers: None, max_speakers: None }
    }
}

/// The diarization provider's session state: the model paths it was given
/// and whether it is ready.  The caller checks that the model files exist
/// before handing their paths over; inference itself runs outside this
/// state machine.
pub struct DiarizationProvider {
    /// Path of the segmentation model, once loaded.
    pub segmentation_model_path: Option<String>,
    /// Path of the speaker-embedding model, once loaded.
    pub embedding_model_path: Option<String>,
    /// Whether both models are configured.
    pub is_loaded: bool,
}

impl DiarizationProvider {
    /// A provider with no models configured.
    pub fn new() -> (p: DiarizationProvider)
        ensures
            p.segmentation_model_path is None,
            p.embedding_model_path is None,
            !p.is_loaded,
    {
        DiarizationProvider {
            segmentation_model_path: None,
            embedding_model_path: None,
            is_loaded: false,
        }
    }

    /// Whether both models are configured.
    pub fn is_loaded(&self) -> (r: bool)
        ensures
            r == self.is_loaded,
    {
        self.is_loaded
    }

    /// Records the two model paths and marks the provider ready.  The
    /// caller has already checked that both files exist.
    pub fn load_models(&mut self, segmentation_model_path: String, embedding_model_path: String)
        ensures
            final(self).segmentation_model_path matches Some(p) && p@
                == segmentation_model_path@,
            final(self).embedding_model_path matches Some(p) && p@ == embedding_model_path@,
            final(self).is_loaded,
    {
        self.segmentation_model_path = Some(segmentation_model_path);
        self.embedding_model_path = Some(embedding_model_path);
        self.is_loaded = true;
    }

    /// Forgets the configured models.
    pub fn unload(&mut self)
        ensures
            final(self).segmentation_model_path is None,
            final(self).embedding_model_path is None,
            !final(self).is_loaded,
    {
        self.segmentation_model_path = None;
        self.embedding_model_path = None;
        self.is_loaded = false;
    }
}

impl Default for DiarizationProvider {
    /// A provider with no models configured.
    fn default() -> (p: DiarizationProvider)
        ensures
            !p.is_loaded,
    {
        DiarizationProvider::new()
    }
}

} // verus!
