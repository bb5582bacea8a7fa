//! Transcription support types and the cleanup rule for raw speech-model
//! output.

use vstd::prelude::*;

use crate::strfmt::{chars_of, string_from_chars};

verus! {

/// Errors that can arise while transcribing.
#[derive(Debug)]
pub enum AsrError {
    /// No model is loaded.
    ModelNotLoaded,
    /// The model file could not be loaded.
    ModelLoadFailed(String),
    /// The requested language is not supported.
    UnsupportedLanguage(String),
    /// The audio file does not exist.
    FileNotFound(String),
    /// The transcription run failed.
    TranscriptionFailed(String),
    /// The audio is not in a usable format.
    InvalidAudioFormat(String),
    /// An underlying I/O failure.
    IoError(String),
    /// A speech-model failure.
    WhisperError(String),
}

/// Options for one transcription run.
#[derive(Debug, Clone)]
pub struct TranscriptionOptions {
    /// Language code, such as `zh` or `en`.
    pub language: String,
    /// Whether to produce word-level time stamps.
    pub word_timestamps: bool,
    /// Worker threads; zero picks a count automatically.
    pub threads: u32,
}

impl Default for TranscriptionOptions {
    /// The default options: Chinese, word time stamps on, automatic
    /// thread count.
    fn default() -> (o: TranscriptionOptions)
        ensures
            o.language@ == "zh"@,
            o.word_timestamps == true,
            o.threads == 0,
    {
        TranscriptionOptions { language: "zh".to_owned(), word_timestamps: true, threads: 0 }
    }
}

/// Whether `[i, j)` spans one special token `<|...|>`: the two-character
/// opener, a non-empty run without `|`, and the two-character closer.
pub open spec fn is_token_at(s: Seq<char>, i: int, j: int) -> bool {
    &&& 0 <= i
    &&& i + 5 <= j <= s.len()
    &&& s[i] == '<'
    &&& s[i + 1] == '|'
    &&& s[j - 2] == '|'
    &&& s[j - 1] == '>'
    &&& forall|k: int| i + 2 <= k < j - 2 ==> s[k] != '|'
}

/// The text with every `<|...|>` token removed, scanning left to right.
pub open spec fn spec_strip_tokens(s: Seq<char>) -> Seq<char>
    decreases s.len(),
{
    if s.len() == 0 {
        s
    } else if exists|j: int| is_token_at(s, 0, j) {
        spec_strip_tokens(s.skip(choose|j: int| is_token_at(s, 0, j)))
    } else {
        seq![s[0]] + spec_strip_tokens(s.drop_first())
    }
}

/// An ASCII whitespace character.
pub open spec fn is_space(c: char) -> bool {
    c == ' ' || c == '\t' || c == '\n' || c == '\r'
}

/// The text without leading whitespace.
pub open spec fn spec_trim_start(s: Seq<char>) -> Seq<char>
    decreases s.len(),
{
    if s.len() > 0 && is_space(s.first()) {
        spec_trim_start(s.drop_first())
    } else {
        s
    }
}

/// The text without trailing whitespace.
pub open spec fn spec_trim_end(s: Seq<char>) -> Seq<char>
    decreases s.len(),
{
    if s.len() > 0 && is_space(s.last()) {
        spec_trim_end(s.drop_last())
    } else {
        s
    }
}

/// The cleanup rule for raw speech-model output: strip the special
/// tokens, then trim surrounding whitespace.
pub open spec fn spec_clean_whisper(s: Seq<char>) -> Seq<char> {
    spec_trim_end(spec_trim_start(spec_strip_tokens(s)))
}

/// A token at one position ends exactly where the first later `|` closes
/// it, so the token span is unique.
proof fn lemma_token_unique(s: Seq<char>, i: int, j1: int, j2: int)
    requires
        is_token_at(s, i, j1),
        is_token_at(s, i, j2),
    ensures
        j1 == j2,
{
    if j1 < j2 {
        assert(s[j1 - 2] == '|');
        assert(i + 2 <= j1 - 2 < j2 - 2);
    }
    if j2 < j1 {
        assert(s[j2 - 2] == '|');
        assert(i + 2 <= j2 - 2 < j1 - 2);
    }
}

proof fn lemma_trim_start_split(s: Seq<char>, a: int)
    requires
        0 <= a <= s.len(),
        forall|k: int| 0 <= k < a ==> is_space(s[k]),
        a < s.len() ==> !is_space(s[a]),
    ensures
        spec_trim_start(s) == s.skip(a),
    decreases s.len(),
{
    if a == 0 {
        assert(s.skip(0) =~= s);
    } else {
        assert(is_space(s.first()));
        assert(forall|k: int| 0 <= k < a - 1 ==> is_space(s.drop_first()[k]));
        lemma_trim_start_split(s.drop_first(), a - 1);
        assert(s.drop_first().skip(a - 1) =~= s.skip(a));
    }
}

proof fn lemma_trim_end_split(s: Seq<char>, b: int)
    requires
        0 <= b <= s.len(),
        forall|k: int| b <= k < s.len() ==> is_space(s[k]),
        b > 0 ==> !is_space(s[b - 1]),
    ensures
        spec_trim_end(s) == s.take(b),
    decreases s.len(),
{
    if b == s.len() {
        if s.len() > 0 {
            assert(!is_space(s.last()));
        }
        assert(s.take(b) =~= s);
    } else {
        assert(is_space(s.last()));
        assert(forall|k: int| b <= k < s.drop_last().len() ==> is_space(s.drop_last()[k]));
        lemma_trim_end_split(s.drop_last(), b);
        assert(s.drop_last().take(b) =~= s.take(b));
    }
}

/// Whether `c` is ASCII whitespace.
fn is_space_exec(c: char) -> (r: bool)
    ensures
        r == is_space(c),
{
    c == ' ' || c == '\t' || c == '\n' || c == '\r'
}

/// Strips every `<|...|>` token from `cs`, scanning left to right.
fn strip_tokens(cs: &Vec<char>) -> (out: Vec<char>)
    ensures
        out@ == spec_strip_tokens(cs@),
{
    let ghost full = cs@;
    let mut out: Vec<char> = Vec::new();
    let mut i: usize = 0;
    proof {
        assert(full.skip(0) =~= full);
    }
    while i < cs.len()
        invariant
            0 <= i <= cs@.len(),
            full == cs@,
            out@ + spec_strip_tokens(full.skip(i as int)) == spec_strip_tokens(full),
        decreases cs@.len() - i,
    {
        let ghost suf = full.skip(i as int);
        // Does a token start here?
        let mut token_end: usize = 0;
        let mut has_token: bool = false;
        if cs[i] == '<' && i + 1 < cs.len() && cs[i + 1] == '|' {
            // Find the first '|' at or after i + 2.
            let mut m: usize = i + 2;
            while m < cs.len() && cs[m] != '|'
                invariant
                    i + 2 <= m <= cs@.len(),
                    full == cs@,
                    forall|k: int| i + 2 <= k < m ==> full[k] != '|',
                decreases cs@.len() - m,
            {
                m = m + 1;
            }
            if m < cs.len() && m > i + 2 && m + 1 < cs.len() && cs[m + 1] == '>' {
                token_end = m + 2;
                has_token = true;
                proof {
                    assert(is_token_at(full, i as int, token_end as int));
                }
            } else {
                proof {
                    assert forall|j: int| !is_token_at(full, i as int, j) by {
                        if is_token_at(full, i as int, j) {
                            // the token's closing bar would be the first bar
                            assert(full[j - 2] == '|');
                            if j - 2 < m {
                                assert(i + 2 <= j - 2 < m);
                            } else if j - 2 > m {
                                assert(m < cs@.len());
                                assert(i + 2 <= m < j - 2);
                                assert(full[m as int] != '|');
                            } else {
                                assert(m > i + 2 && m + 1 < cs@.len() && full[m + 1] == '>');
                            }
                        }
                    }
                }
            }
        } else {
            proof {
                assert forall|j: int| !is_token_at(full, i as int, j) by {
                    if is_token_at(full, i as int, j) {
                        assert(full[i as int] == '<' && full[i + 1] == '|');
                    }
                }
            }
        }
        proof {
            // Transport token facts to the suffix the spec recurses on.
            assert(suf == full.skip(i as int));
            assert(suf.len() == full.len() - i);
            assert(forall|k: int| 0 <= k < suf.len() ==> suf[k] == full[k + i]);
            if has_token {
                assert(is_token_at(suf, 0, token_end as int - i as int));
                let cj = choose|j: int| is_token_at(suf, 0, j);
                lemma_token_unique(suf, 0, cj, token_end as int - i as int);
                assert(suf.skip(token_end as int - i as int) =~= full.skip(token_end as int));
            } else {
                assert forall|j: int| !is_token_at(suf, 0, j) by {
                    if is_token_at(suf, 0, j) {
                        assert(full[i as int] == suf[0]);
                        assert(full[i + 1] == suf[1]);
                        assert(full[j + i - 2] == suf[j - 2]);
                        assert(full[j + i - 1] == suf[j - 1]);
                        assert forall|k2: int| i + 2 <= k2 < j + i - 2 implies full[k2]
                            != '|' by {
                            assert(suf[k2 - i] == full[k2]);
                        }
                        assert(is_token_at(full, i as int, j + i));
                    }
                }
                if suf.len() > 0 {
                    assert(suf.drop_first() =~= full.skip(i + 1));
                    assert(suf[0] == full[i as int]);
                }
            }
        }
        if has_token {
            i = token_end;
        } else {
            let c: char = cs[i];
            out.push(c);
            proof {
                assert(out@ + spec_strip_tokens(full.skip(i + 1)) =~= (out@.drop_last() + (seq![
                    full[i as int],
                ] + spec_strip_tokens(full.skip(i + 1)))));
            }
            i = i + 1;
        }
    }
    proof {
        assert(full.skip(full.len() as int) =~= Seq::<char>::empty());
        assert(out@ + Seq::<char>::empty() =~= out@);
    }
    out
}

/// Cleans raw speech-model output: removes every `<|...|>` token and
/// trims surrounding whitespace.
pub fn clean_whisper_text(text: &str) -> (r: String)
    ensures
        r@ == spec_clean_whisper(text@),
{
    let cs: Vec<char> = chars_of(text);
    let stripped: Vec<char> = strip_tokens(&cs);
    let ghost sv = stripped@;

    // Trim leading whitespace.
    let mut a: usize = 0;
    while a < stripped.len() && is_space_exec(stripped[a])
        invariant
            0 <= a <= stripped@.len(),
            sv == stripped@,
            forall|k: int| 0 <= k < a ==> is_space(sv[k]),
        decreases stripped@.len() - a,
    {
        a = a + 1;
    }
    proof {
        lemma_trim_start_split(sv, a as int);
    }
    let ghost mid = sv.skip(a as int);

    // Trim trailing whitespace.
    let mut b: usize = stripped.len();
    while b > a && is_space_exec(stripped[b - 1])
        invariant
            a <= b <= stripped@.len(),
            sv == stripped@,
            forall|k: int| b <= k < sv.len() ==> is_space(sv[k]),
        decreases b,
    {
        b = b - 1;
    }
    proof {
        assert(forall|k: int| 0 <= k < mid.len() ==> mid[k] == sv[k + a]);
        assert(forall|k: int| b as int - a as int <= k < mid.len() ==> is_space(mid[k]));
        if b > a {
            assert(!is_space(mid[b as int - a as int - 1]));
        }
        lemma_trim_end_split(mid, b as int - a as int);
    }

    let mut out: Vec<char> = Vec::new();
    let mut i: usize = a;
    proof {
        assert(out@ =~= mid.take(0));
    }
    while i < b
        invariant
            a <= i <= b <= stripped@.len(),
            sv == stripped@,
            mid == sv.skip(a as int),
            out@ == mid.take(i as int - a as int),
        decreases b - i,
    {
        let c: char = stripped[i];
        out.push(c);
        proof {
            assert(mid.take(i + 1 - a as int) =~= mid.take(i as int - a as int).push(c));
        }
        i = i + 1;
    }
    proof {
        assert(out@ =~= spec_clean_whisper(text@));
    }
    string_from_chars(&out)
}

} // verus!
