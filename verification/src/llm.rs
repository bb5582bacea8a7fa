//! Transcript-analysis support: the analysis categories and the prompt
//! texts handed to a language model.

use vstd::prelude::*;

use vstd::string::StringExecFns;

use crate::strfmt::{push_dec, push_str_chars, spec_dec, string_from_chars};

verus! {

/// Errors that can arise while talking to a language-model provider.
#[derive(Debug)]
pub enum LlmError {
    /// No API key is configured.
    ApiKeyMissing,
    /// The request failed.
    RequestFailed(String),
    /// The response could not be understood.
    InvalidResponse(String),
    /// The provider asked to retry after the given number of seconds.
    RateLimited(u64),
    /// The requested model is not available.
    ModelNotAvailable(String),
    /// The provider could not be reached.
    ConnectionError(String),
    /// The response could not be parsed.
    ParseError(String),
    /// The request timed out.
    Timeout,
    /// The configuration is unusable.
    ConfigError(String),
}

/// The categories of editing opportunities an analysis looks for.
#[derive(Debug, Clone, Copy, PartialEq, Eq, Structural)]
pub enum AnalysisType {
    /// Filler words.
    FillerWord,
    /// Repeated words or phrases.
    Repetition,
    /// False starts or corrections.
    FalseStart,
    /// Long pauses.
    LongPause,
    /// Stuttering.
    Stutter,
    /// Off-topic tangents.
    Tangent,
}

impl AnalysisType {
    /// The display name of this category.
    pub open spec fn spec_display_name(self) -> Seq<char> {
        match self {
            AnalysisType::FillerWord => "Filler Word"@,
            AnalysisType::Repetition => "Repetition"@,
            AnalysisType::FalseStart => "False Start"@,
            AnalysisType::LongPause => "Long Pause"@,
            AnalysisType::Stutter => "Stutter"@,
            AnalysisType::Tangent => "Tangent"@,
        }
    }

    /// Display name of this category.
    pub fn display_name(&self) -> (s: &'static str)
        ensures
            s@ == self.spec_display_name(),
    {
        match self {
            AnalysisType::FillerWord => "Filler Word",
            AnalysisType::Repetition => "Repetition",
            AnalysisType::FalseStart => "False Start",
            AnalysisType::LongPause => "Long Pause",
            AnalysisType::Stutter => "Stutter",
            AnalysisType::Tangent => "Tangent",
        }
    }

    /// What each category means, as told to the analysis model.
    pub open spec fn spec_description(self) -> Seq<char> {
        match self {
            AnalysisType::FillerWord => "Words like 'um', 'uh', 'like', 'you know', '\u{55ef}', '\u{5443}' that don't add meaning"@,
            AnalysisType::Repetition => "Words or phrases repeated unnecessarily"@,
            AnalysisType::FalseStart => "Sentences that were started and then restarted differently"@,
            AnalysisType::LongPause => "Unusually long pauses (>2 seconds) in speech"@,
            AnalysisType::Stutter => "Stuttering or stumbling over words"@,
            AnalysisType::Tangent => "Off-topic tangents that don't contribute to the main discussion"@,
        }
    }
}

/// What each analysis category means, as told to the analysis model.
pub fn type_description(t: &AnalysisType) -> (s: &'static str)
    ensures
        s@ == t.spec_description(),
{
    match t {
        AnalysisType::FillerWord => "Words like 'um', 'uh', 'like', 'you know', '\u{55ef}', '\u{5443}' that don't add meaning",
        AnalysisType::Repetition => "Words or phrases repeated unnecessarily",
        AnalysisType::FalseStart => "Sentences that were started and then restarted differently",
        AnalysisType::LongPause => "Unusually long pauses (>2 seconds) in speech",
        AnalysisType::Stutter => "Stuttering or stumbling over words",
        AnalysisType::Tangent => "Off-topic tangents that don't contribute to the main discussion",
    }
}

/// A request for transcript analysis.
#[derive(Debug)]
pub struct AnalysisRequest {
    /// Transcript text with time stamps.
    pub transcript: String,
    /// Language code.
    pub language: String,
    /// Speaker labels, if known.
    pub speakers: Option<Vec<String>>,
    /// Which categories to look for.
    pub analysis_types: Vec<AnalysisType>,
    /// Sensitivity in thousandths: zero is lenient, a thousand is strict.
    pub sensitivity: u32,
}

impl Default for AnalysisRequest {
    /// The default request: English, the four common categories, middling
    /// sensitivity.
    fn default() -> (r: AnalysisRequest)
        ensures
            r.transcript@ == Seq::<char>::empty(),
            r.language@ == "en"@,
            r.speakers is None,
            r.analysis_types@ == seq![
                AnalysisType::FillerWord,
                AnalysisType::Repetition,
                AnalysisType::FalseStart,
                AnalysisType::LongPause,
            ],
            r.sensitivity == 500,
    {
        let mut analysis_types: Vec<AnalysisType> = Vec::new();
        analysis_types.push(AnalysisType::FillerWord);
        analysis_types.push(AnalysisType::Repetition);
        analysis_types.push(AnalysisType::FalseStart);
        analysis_types.push(AnalysisType::LongPause);
        proof {
            assert(analysis_types@ =~= seq![
                AnalysisType::FillerWord,
                AnalysisType::Repetition,
                AnalysisType::FalseStart,
                AnalysisType::LongPause,
            ]);
        }
        AnalysisRequest {
            transcript: String::new(),
            language: "en".to_owned(),
            speakers: None,
            analysis_types,
            sensitivity: 500,
        }
    }
}

/// The category list of the analysis prompt: one dashed line per
/// category, newline-separated.
pub open spec fn spec_types_block(ts: Seq<AnalysisType>) -> Seq<char>
    decreases ts.len(),
{
    if ts.len() == 0 {
        Seq::empty()
    } else if ts.len() == 1 {
        "- "@ + ts[0].spec_display_name() + ": "@ + ts[0].spec_description()
    } else {
        spec_types_block(ts.drop_last()) + "\n"@ + "- "@ + ts.last().spec_display_name() + ": "@
            + ts.last().spec_description()
    }
}

/// How the sensitivity is described to the analysis model.
pub open spec fn spec_sensitivity_desc(s: int) -> Seq<char> {
    if s < 300 {
        "lenient (only flag obvious issues)"@
    } else if s < 700 {
        "moderate (flag clear issues)"@
    } else {
        "strict (flag all potential issues)"@
    }
}

/// The analysis prompt around a request's categories, sensitivity,
/// language and transcript.
pub open spec fn spec_analysis_prompt(
    ts: Seq<AnalysisType>,
    sensitivity: int,
    language: Seq<char>,
    transcript: Seq<char>,
) -> Seq<char> {
    "You are an expert podcast editor analyzing a transcript for editing opportunities.\n\n## Task\nAnalyze the following transcript and identify segments that should be edited out to improve the audio quality.\n\n## Analysis Types to Look For\n"@
        + spec_types_block(ts) + "\n\n## Sensitivity\n"@ + spec_sensitivity_desc(sensitivity)
        + "\n\n## Language\n"@ + language + "\n\n## Transcript\n```\n"@ + transcript
        + "\n```\n\n## Output Format\nReturn a JSON array of issues found. Each item should have:\n- \"analysis_type\": one of \"filler_word\", \"repetition\", \"false_start\", \"long_pause\", \"stutter\", \"tangent\"\n- \"start_time\": start time in seconds\n- \"end_time\": end time in seconds\n- \"original_text\": the text that was flagged\n- \"suggested_replacement\": suggested replacement text (null if should be removed)\n- \"confidence\": confidence score between zero and one\n- \"reason\": brief explanation of why this was flagged\n\nReturn ONLY the JSON array, no other text."@
}

/// Builds the transcript-analysis prompt for a request.
pub fn build_analysis_prompt(request: &AnalysisRequest) -> (r: String)
    ensures
        r@ == spec_analysis_prompt(
            request.analysis_types@,
            request.sensitivity as int,
            request.language@,
            request.transcript@,
        ),
{
    let ghost ts = request.analysis_types@;
    let mut out: Vec<char> = Vec::new();
    push_str_chars(
        &mut out,
        "You are an expert podcast editor analyzing a transcript for editing opportunities.\n\n## Task\nAnalyze the following transcript and identify segments that should be edited out to improve the audio quality.\n\n## Analysis Types to Look For\n",
    );
    let ghost base = out@;
    let mut i: usize = 0;
    proof {
        assert(ts.take(0) =~= Seq::<AnalysisType>::empty());
        assert(out@ =~= base + spec_types_block(ts.take(0)));
    }
    while i < request.analysis_types.len()
        invariant
            0 <= i <= ts.len(),
            ts == request.analysis_types@,
            out@ == base + spec_types_block(ts.take(i as int)),
        decreases ts.len() - i,
    {
        proof {
            assert(ts.take(i + 1).drop_last() =~= ts.take(i as int));
            assert(ts.take(i + 1).last() == ts[i as int]);
            assert(ts.take(1)[0] == ts[0]);
        }
        if i > 0 {
            push_str_chars(&mut out, "\n");
        }
        push_str_chars(&mut out, "- ");
        let t: &AnalysisType = &request.analysis_types[i];
        push_str_chars(&mut out, t.display_name());
        push_str_chars(&mut out, ": ");
        push_str_chars(&mut out, type_description(t));
        proof {
            if i == 0 {
                assert(out@ =~= base + spec_types_block(ts.take(1)));
            } else {
                assert(out@ =~= base + spec_types_block(ts.take(i + 1)));
            }
        }
        i = i + 1;
    }
    proof {
        assert(ts.take(ts.len() as int) =~= ts);
    }
    push_str_chars(&mut out, "\n\n## Sensitivity\n");
    if request.sensitivity < 300 {
        push_str_chars(&mut out, "lenient (only flag obvious issues)");
    } else if request.sensitivity < 700 {
        push_str_chars(&mut out, "moderate (flag clear issues)");
    } else {
        push_str_chars(&mut out, "strict (flag all potential issues)");
    }
    push_str_chars(&mut out, "\n\n## Language\n");
    push_str_chars(&mut out, request.language.as_str());
    push_str_chars(&mut out, "\n\n## Transcript\n```\n");
    push_str_chars(&mut out, request.transcript.as_str());
    push_str_chars(
        &mut out,
        "\n```\n\n## Output Format\nReturn a JSON array of issues found. Each item should have:\n- \"analysis_type\": one of \"filler_word\", \"repetition\", \"false_start\", \"long_pause\", \"stutter\", \"tangent\"\n- \"start_time\": start time in seconds\n- \"end_time\": end time in seconds\n- \"original_text\": the text that was flagged\n- \"suggested_replacement\": suggested replacement text (null if should be removed)\n- \"confidence\": confidence score between zero and one\n- \"reason\": brief explanation of why this was flagged\n\nReturn ONLY the JSON array, no other text.",
    );
    string_from_chars(&out)
}

/// The summary prompt around a transcript and an output language.
pub open spec fn spec_summary_prompt(transcript: Seq<char>, language: Seq<char>) -> Seq<char> {
    "You are a podcast summarizer. Create a concise summary of the following transcript.\n\n## Language\nWrite the summary in: "@
        + language + "\n\n## Transcript\n```\n"@ + transcript
        + "\n```\n\n## Output\nProvide:\n1. A one-paragraph summary (2-3 sentences)\n2. 3-5 key points discussed\n3. Any action items or takeaways mentioned\n\nFormat as JSON:\n```json\n{\n  \"summary\": \"...\",\n  \"key_points\": [\"...\", \"...\"],\n  \"takeaways\": [\"...\", \"...\"]\n}\n```"@
}

/// Builds the episode-summary prompt for a transcript.
pub fn build_summary_prompt(transcript: &str, language: &str) -> (r: String)
    ensures
        r@ == spec_summary_prompt(transcript@, language@),
{
    let mut s: String = String::new();
    s.append(
        "You are a podcast summarizer. Create a concise summary of the following transcript.\n\n## Language\nWrite the summary in: ",
    );
    s.append(language);
    s.append("\n\n## Transcript\n```\n");
    s.append(transcript);
    s.append(
        "\n```\n\n## Output\nProvide:\n1. A one-paragraph summary (2-3 sentences)\n2. 3-5 key points discussed\n3. Any action items or takeaways mentioned\n\nFormat as JSON:\n```json\n{\n  \"summary\": \"...\",\n  \"key_points\": [\"...\", \"...\"],\n  \"takeaways\": [\"...\", \"...\"]\n}\n```",
    );
    s
}

/// The speaker-identification prompt around a transcript and a speaker
/// count.
pub open spec fn spec_speaker_prompt(transcript: Seq<char>, num_speakers: nat) -> Seq<char> {
    "You are analyzing a podcast transcript with "@ + spec_dec(num_speakers)
        + " speakers.\n\n## Task\nBased on the content and speaking patterns, try to identify:\n1. The role of each speaker (host, guest, interviewer, etc.)\n2. Any names mentioned that might identify the speakers\n3. Distinguishing characteristics of each speaker's style\n\n## Transcript\n```\n"@
        + transcript
        + "\n```\n\n## Output\nReturn a JSON object with speaker information:\n```json\n{\n  \"speakers\": [\n    {\n      \"id\": \"Speaker 1\",\n      \"likely_role\": \"host\",\n      \"possible_name\": \"John\",\n      \"characteristics\": \"Asks questions, guides conversation\"\n    }\n  ]\n}\n```"@
}

/// Builds the speaker-identification prompt for a transcript.
pub fn build_speaker_prompt(transcript: &str, num_speakers: usize) -> (r: String)
    ensures
        r@ == spec_speaker_prompt(transcript@, num_speakers as nat),
{
    let mut out: Vec<char> = Vec::new();
    push_str_chars(&mut out, "You are analyzing a podcast transcript with ");
    push_dec(&mut out, num_speakers as u64);
    push_str_chars(
        &mut out,
        " speakers.\n\n## Task\nBased on the content and speaking patterns, try to identify:\n1. The role of each speaker (host, guest, interviewer, etc.)\n2. Any names mentioned that might identify the speakers\n3. Distinguishing characteristics of each speaker's style\n\n## Transcript\n```\n",
    );
    push_str_chars(&mut out, transcript);
    push_str_chars(
        &mut out,
        "\n```\n\n## Output\nReturn a JSON object with speaker information:\n```json\n{\n  \"speakers\": [\n    {\n      \"id\": \"Speaker 1\",\n      \"likely_role\": \"host\",\n      \"possible_name\": \"John\",\n      \"characteristics\": \"Asks questions, guides conversation\"\n    }\n  ]\n}\n```",
    );
    string_from_chars(&out)
}

} // verus!
