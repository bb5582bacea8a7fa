//! The languages the transcription stage accepts, with their display
//! names and the language codes the speech model expects.

use vstd::prelude::*;

use crate::strfmt::str_eq;

verus! {

/// One supported language: its code, its display name, and the language
/// code the speech model uses for it.
#[derive(Debug, Clone, Copy)]
pub struct Language {
    /// Language code, such as `zh` or `en`.
    pub code: &'static str,
    /// Display name.
    pub name: &'static str,
    /// The speech model's language code, which may differ from `code`.
    pub whisper_code: &'static str,
}

/// The table of supported languages: code, display name and speech-model
/// code of each.
pub open spec fn spec_language_table() -> Seq<(Seq<char>, Seq<char>, Seq<char>)> {
    seq![
        ("zh"@, "\u{7c21}\u{9ad4}\u{4e2d}\u{6587}"@, "zh"@),
        ("zh-TW"@, "\u{53f0}\u{7063}\u{4e2d}\u{6587}"@, "zh"@),
        ("zh-HK"@, "\u{9999}\u{6e2f}\u{4e2d}\u{6587}"@, "zh"@),
        ("yue"@, "\u{7cb5}\u{8a9e}"@, "yue"@),
        ("en"@, "English"@, "en"@),
        ("ja"@, "\u{65e5}\u{672c}\u{8a9e}"@, "ja"@),
        ("ko"@, "\u{d55c}\u{ad6d}\u{c5b4}"@, "ko"@),
        ("es"@, "Espa\u{f1}ol"@, "es"@),
        ("fr"@, "Fran\u{e7}ais"@, "fr"@),
        ("de"@, "Deutsch"@, "de"@),
        ("it"@, "Italiano"@, "it"@),
        ("pt"@, "Portugu\u{ea}s"@, "pt"@),
        ("ru"@, "\u{420}\u{443}\u{441}\u{441}\u{43a}\u{438}\u{439}"@, "ru"@),
        ("ar"@, "\u{627}\u{644}\u{639}\u{631}\u{628}\u{64a}\u{629}"@, "ar"@),
        ("hi"@, "\u{939}\u{93f}\u{928}\u{94d}\u{926}\u{940}"@, "hi"@),
    ]
}

/// The first row of `t` whose code is `code`, or `-1`.
pub open spec fn table_index_of(t: Seq<(Seq<char>, Seq<char>, Seq<char>)>, code: Seq<char>) -> int
    decreases t.len(),
{
    if t.len() == 0 {
        -1
    } else if t.first().0 == code {
        0
    } else {
        let r = table_index_of(t.drop_first(), code);
        if r == -1 {
            -1
        } else {
            r + 1
        }
    }
}

/// The first table row whose code is `code`, or `-1`.
pub open spec fn spec_language_index(code: Seq<char>) -> int {
    table_index_of(spec_language_table(), code)
}

/// Whether `code` is one of the supported language codes.
pub open spec fn spec_is_supported(code: Seq<char>) -> bool {
    spec_language_index(code) != -1
}

proof fn lemma_table_index_hit(t: Seq<(Seq<char>, Seq<char>, Seq<char>)>, code: Seq<char>, i: int)
    requires
        0 <= i < t.len(),
        forall|k: int| 0 <= k < i ==> (#[trigger] t[k]).0 != code,
        t[i].0 == code,
    ensures
        table_index_of(t, code) == i,
    decreases i,
{
    if i == 0 {
    } else {
        assert(t.first().0 != code);
        assert(forall|k: int|
            0 <= k < i - 1 ==> (#[trigger] t.drop_first()[k]).0 != code);
        assert(t.drop_first()[i - 1].0 == code);
        lemma_table_index_hit(t.drop_first(), code, i - 1);
    }
}

proof fn lemma_table_index_miss(t: Seq<(Seq<char>, Seq<char>, Seq<char>)>, code: Seq<char>)
    requires
        forall|k: int| 0 <= k < t.len() ==> (#[trigger] t[k]).0 != code,
    ensures
        table_index_of(t, code) == -1,
    decreases t.len(),
{
    if t.len() > 0 {
        assert(forall|k: int|
            0 <= k < t.drop_first().len() ==> (#[trigger] t.drop_first()[k]).0 != code);
        lemma_table_index_miss(t.drop_first(), code);
    }
}

/// The speech-model code of `code`: the table entry's, or `en` for an
/// unsupported code.
pub open spec fn spec_whisper_code(code: Seq<char>) -> Seq<char> {
    if spec_is_supported(code) {
        spec_language_table()[spec_language_index(code)].2
    } else {
        "en"@
    }
}

/// The supported languages, in table order.
pub fn supported_languages() -> (out: Vec<Language>)
    ensures
        out@.len() == spec_language_table().len(),
        forall|i: int|
            0 <= i < out@.len() ==> ((#[trigger] out@[i]).code@, out@[i].name@,
            out@[i].whisper_code@) == spec_language_table()[i],
{
    let mut out: Vec<Language> = Vec::new();
    out.push(Language { code: "zh", name: "\u{7c21}\u{9ad4}\u{4e2d}\u{6587}", whisper_code: "zh" });
    out.push(
        Language { code: "zh-TW", name: "\u{53f0}\u{7063}\u{4e2d}\u{6587}", whisper_code: "zh" },
    );
    out.push(
        Language { code: "zh-HK", name: "\u{9999}\u{6e2f}\u{4e2d}\u{6587}", whisper_code: "zh" },
    );
    out.push(Language { code: "yue", name: "\u{7cb5}\u{8a9e}", whisper_code: "yue" });
    out.push(Language { code: "en", name: "English", whisper_code: "en" });
    out.push(Language { code: "ja", name: "\u{65e5}\u{672c}\u{8a9e}", whisper_code: "ja" });
    out.push(Language { code: "ko", name: "\u{d55c}\u{ad6d}\u{c5b4}", whisper_code: "ko" });
    out.push(Language { code: "es", name: "Espa\u{f1}ol", whisper_code: "es" });
    out.push(Language { code: "fr", name: "Fran\u{e7}ais", whisper_code: "fr" });
    out.push(Language { code: "de", name: "Deutsch", whisper_code: "de" });
    out.push(Language { code: "it", name: "Italiano", whisper_code: "it" });
    out.push(Language { code: "pt", name: "Portugu\u{ea}s", whisper_code: "pt" });
    out.push(
        Language { code: "ru", name: "\u{420}\u{443}\u{441}\u{441}\u{43a}\u{438}\u{439}", whisper_code: "ru" },
    );
    out.push(
        Language {
            code: "ar",
            name: "\u{627}\u{644}\u{639}\u{631}\u{628}\u{64a}\u{629}",
            whisper_code: "ar",
        },
    );
    out.push(
        Language {
            code: "hi",
            name: "\u{939}\u{93f}\u{928}\u{94d}\u{926}\u{940}",
            whisper_code: "hi",
        },
    );
    out
}

impl Language {
    /// The speech-model language code for a user-selected code; an
    /// unsupported code falls back to English.
    pub fn to_whisper_code(code: &str) -> (r: &'static str)
        ensures
            r@ == spec_whisper_code(code@),
    {
        let table: Vec<Language> = supported_languages();
        let mut i: usize = 0;
        while i < table.len()
            invariant
                0 <= i <= table@.len(),
                table@.len() == spec_language_table().len(),
                forall|k: int|
                    0 <= k < table@.len() ==> ((#[trigger] table@[k]).code@, table@[k].name@,
                    table@[k].whisper_code@) == spec_language_table()[k],
                forall|k: int| 0 <= k < i ==> (#[trigger] spec_language_table()[k]).0 != code@,
            decreases table@.len() - i,
        {
            let hit: bool = str_eq(table[i].code, code);
            if hit {
                proof {
                    assert(spec_language_table()[i as int].0 == code@);
                    lemma_table_index_hit(spec_language_table(), code@, i as int);
                }
                return table[i].whisper_code;
            }
            i = i + 1;
        }
        proof {
            lemma_table_index_miss(spec_language_table(), code@);
        }
        "en"
    }

    /// Whether `code` is a supported language code.
    pub fn is_supported(code: &str) -> (r: bool)
        ensures
            r == spec_is_supported(code@),
    {
        let table: Vec<Language> = supported_languages();
        let mut i: usize = 0;
        while i < table.len()
            invariant
                0 <= i <= table@.len(),
                table@.len() == spec_language_table().len(),
                forall|k: int|
                    0 <= k < table@.len() ==> ((#[trigger] table@[k]).code@, table@[k].name@,
                    table@[k].whisper_code@) == spec_language_table()[k],
                forall|k: int| 0 <= k < i ==> (#[trigger] spec_language_table()[k]).0 != code@,
            decreases table@.len() - i,
        {
            let hit: bool = str_eq(table[i].code, code);
            if hit {
                proof {
                    assert(spec_language_table()[i as int].0 == code@);
                    lemma_table_index_hit(spec_language_table(), code@, i as int);
                }
                return true;
            }
            i = i + 1;
        }
        proof {
            lemma_table_index_miss(spec_language_table(), code@);
        }
        false
    }

    /// The table entry for `code`, if it is supported.
    pub fn get(code: &str) -> (r: Option<Language>)
        ensures
            r is Some <==> spec_is_supported(code@),
            r matches Some(l) ==> (l.code@, l.name@, l.whisper_code@) == spec_language_table()[
                spec_language_index(code@)] && l.code@ == code@,
    {
        let table: Vec<Language> = supported_languages();
        let mut i: usize = 0;
        while i < table.len()
            invariant
                0 <= i <= table@.len(),
                table@.len() == spec_language_table().len(),
                forall|k: int|
                    0 <= k < table@.len() ==> ((#[trigger] table@[k]).code@, table@[k].name@,
                    table@[k].whisper_code@) == spec_language_table()[k],
                forall|k: int| 0 <= k < i ==> (#[trigger] spec_language_table()[k]).0 != code@,
            decreases table@.len() - i,
        {
            let hit: bool = str_eq(table[i].code, code);
            if hit {
                proof {
                    assert(spec_language_table()[i as int].0 == code@);
                    lemma_table_index_hit(spec_language_table(), code@, i as int);
                }
                return Some(table[i]);
            }
            i = i + 1;
        }
        proof {
            lemma_table_index_miss(spec_language_table(), code@);
        }
        None
    }
}

} // verus!
