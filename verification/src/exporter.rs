//! Report export: JSON, EDL and marker renderings of an [`EditReport`].
//!
//! Every format is assembled character by character under an exact
//! `Seq<char>` specification; no serialization library shapes the output.

use vstd::prelude::*;

use vstd::math::max;

use crate::strfmt::{
    chars_of, push_dec, push_pad2, push_pad3, push_sec3, push_sec6, push_str_chars, spec_dec,
    spec_pad2, spec_pad3, spec_sec3, spec_sec6, string_from_chars,
};
use crate::types::{edit_models, AppliedEdit, EditModel, EditReport, ReportModel};
use crate::MAX_TIME_MS;

verus! {

/// Largest number of edits a report may carry into the exporters.  The
/// bound keeps every accumulated duration inside `u64`.
pub const MAX_REPORT_EDITS: usize = 1_000_000;

/// A report the exporters can render exactly: bounded times, an edited
/// duration that does not exceed the original, and a bounded edit count.
/// The bounds are what 64-bit arithmetic forces; the render engine
/// produces nothing beyond them.
pub open spec fn report_wf(r: ReportModel) -> bool {
    &&& 0 <= r.original_duration <= MAX_TIME_MS
    &&& 0 <= r.edited_duration <= r.original_duration
    &&& r.edits.len() <= MAX_REPORT_EDITS
    &&& forall|i: int|
        0 <= i < r.edits.len() ==> 0 <= (#[trigger] r.edits[i]).original_start <= MAX_TIME_MS && 0
            <= r.edits[i].original_end <= MAX_TIME_MS
}

/// Errors that can arise while writing an exported report to disk.
#[derive(Debug)]
pub enum ExportError {
    /// An underlying I/O failure.
    Io(String),
    /// A serialization failure.
    Json(String),
}

/// The marker file dialects.
#[derive(Debug, Clone, Copy, PartialEq, Eq, Structural)]
pub enum MarkerFormat {
    /// Comma-separated rows with a header line.
    Csv,
    /// Tab-separated label rows, as waveform editors import them.
    Audacity,
}

/// Mathematical image of a [`ReasonStats`].
pub ghost struct StatModel {
    /// Reason tag.
    pub reason: Seq<char>,
    /// How many edits carried this reason.
    pub count: int,
    /// Their cumulative duration in milliseconds.
    pub duration: int,
}

/// Per-reason aggregate over a report's edit list.
pub struct ReasonStats {
    /// Reason tag.
    pub reason: String,
    /// How many edits carried this reason.
    pub count: u64,
    /// Their cumulative duration in milliseconds.
    pub duration: u64,
}

impl View for ReasonStats {
    type V = StatModel;

    open spec fn view(&self) -> StatModel {
        StatModel {
            reason: self.reason@,
            count: self.count as int,
            duration: self.duration as int,
        }
    }
}

/// The models of a statistics table.
pub open spec fn stat_models(s: Seq<ReasonStats>) -> Seq<StatModel> {
    s.map_values(|r: ReasonStats| r@)
}

/// The index of `reason` in the table, or `-1` when absent.
pub open spec fn find_stat(acc: Seq<StatModel>, reason: Seq<char>) -> int
    decreases acc.len(),
{
    if acc.len() == 0 {
        -1
    } else if acc.first().reason == reason {
        0
    } else {
        let r = find_stat(acc.drop_first(), reason);
        if r == -1 {
            -1
        } else {
            r + 1
        }
    }
}

/// One edit folded into the table: a known reason's row gains one count
/// and the edit's duration; an unknown reason opens a new row.
pub open spec fn stats_add(acc: Seq<StatModel>, e: EditModel) -> Seq<StatModel> {
    let i = find_stat(acc, e.reason);
    if i == -1 {
        acc.push(StatModel { reason: e.reason, count: 1, duration: e.duration() })
    } else {
        acc.update(
            i,
            StatModel {
                reason: acc[i].reason,
                count: acc[i].count + 1,
                duration: acc[i].duration + e.duration(),
            },
        )
    }
}

/// The per-reason statistics of an edit list, rows in order of first
/// appearance.
pub open spec fn spec_stats(edits: Seq<EditModel>) -> Seq<StatModel>
    decreases edits.len(),
{
    if edits.len() == 0 {
        Seq::empty()
    } else {
        stats_add(spec_stats(edits.drop_last()), edits.last())
    }
}

/// Total duration over a statistics table.
pub open spec fn stats_total(s: Seq<StatModel>) -> int
    decreases s.len(),
{
    if s.len() == 0 {
        0
    } else {
        stats_total(s.drop_last()) + s.last().duration
    }
}

/// Total duration over an edit list.
pub open spec fn edits_total(s: Seq<EditModel>) -> int
    decreases s.len(),
{
    if s.len() == 0 {
        0
    } else {
        edits_total(s.drop_last()) + s.last().duration()
    }
}

/// An update at one row changes the table total by the difference at that
/// row.
proof fn lemma_stats_total_update(s: Seq<StatModel>, i: int, v: StatModel)
    requires
        0 <= i < s.len(),
    ensures
        stats_total(s.update(i, v)) == stats_total(s) - s[i].duration + v.duration,
    decreases s.len(),
{
    let u = s.update(i, v);
    if i == s.len() - 1 {
        assert(u.drop_last() =~= s.drop_last());
        assert(u.last() == v);
    } else {
        assert(u.drop_last() =~= s.drop_last().update(i, v));
        assert(u.last() == s.last());
        lemma_stats_total_update(s.drop_last(), i, v);
    }
}

/// A push extends the table total by the new row's duration.
proof fn lemma_stats_total_push(s: Seq<StatModel>, v: StatModel)
    ensures
        stats_total(s.push(v)) == stats_total(s) + v.duration,
{
    assert(s.push(v).drop_last() =~= s);
    assert(s.push(v).last() == v);
}

proof fn lemma_find_stat_in_range(acc: Seq<StatModel>, reason: Seq<char>)
    ensures
        find_stat(acc, reason) == -1 || (0 <= find_stat(acc, reason) < acc.len()
            && acc[find_stat(acc, reason)].reason == reason),
    decreases acc.len(),
{
    if acc.len() > 0 && acc.first().reason != reason {
        lemma_find_stat_in_range(acc.drop_first(), reason);
        if find_stat(acc.drop_first(), reason) != -1 {
            assert(acc.drop_first()[find_stat(acc.drop_first(), reason)] == acc[find_stat(
                acc.drop_first(),
                reason,
            ) + 1]);
        }
    }
}

/// The statistics preserve the total: the durations in the by-reason table
/// sum to exactly the summed duration of the edit list.
pub proof fn lemma_stats_preserve_total(edits: Seq<EditModel>)
    ensures
        stats_total(spec_stats(edits)) == edits_total(edits),
    decreases edits.len(),
{
    if edits.len() > 0 {
        lemma_stats_preserve_total(edits.drop_last());
        let acc = spec_stats(edits.drop_last());
        let e = edits.last();
        lemma_find_stat_in_range(acc, e.reason);
        let i = find_stat(acc, e.reason);
        if i == -1 {
            lemma_stats_total_push(acc, StatModel { reason: e.reason, count: 1, duration: e.duration() });
        } else {
            lemma_stats_total_update(
                acc,
                i,
                StatModel {
                    reason: acc[i].reason,
                    count: acc[i].count + 1,
                    duration: acc[i].duration + e.duration(),
                },
            );
        }
    }
}

proof fn lemma_stat_models_push(s: Seq<ReasonStats>, v: ReasonStats)
    ensures
        stat_models(s.push(v)) == stat_models(s).push(v@),
{
    assert(stat_models(s.push(v)) =~= stat_models(s).push(v@));
}

proof fn lemma_stat_models_update(s: Seq<ReasonStats>, i: int, v: ReasonStats)
    requires
        0 <= i < s.len(),
    ensures
        stat_models(s.update(i, v)) == stat_models(s).update(i, v@),
{
    assert(stat_models(s.update(i, v)) =~= stat_models(s).update(i, v@));
}

/// Bounds carried through the statistics fold: with `n` edits folded in,
/// no row exceeds `n` in count or `n` times the largest duration.
pub open spec fn stats_bounded(s: Seq<StatModel>, n: int) -> bool {
    forall|k: int|
        0 <= k < s.len() ==> 0 <= (#[trigger] s[k]).count <= n && 0 <= s[k].duration <= n
            * (MAX_TIME_MS as int)
}

/// The character of a hexadecimal digit, lower case.
pub open spec fn hex_digit(d: int) -> char {
    if d < 10 {
        crate::strfmt::digit_char(d)
    } else {
        ((87 + d) as u8) as char
    }
}

/// How one character appears inside a JSON string literal.
pub open spec fn esc_char(c: char) -> Seq<char> {
    if c == '"' {
        seq!['\\', '"']
    } else if c == '\\' {
        seq!['\\', '\\']
    } else if c == '\n' {
        seq!['\\', 'n']
    } else if c == '\r' {
        seq!['\\', 'r']
    } else if c == '\t' {
        seq!['\\', 't']
    } else if (c as int) < 32 {
        seq!['\\', 'u', '0', '0', hex_digit(c as int / 16), hex_digit(c as int % 16)]
    } else {
        seq![c]
    }
}

/// A text escaped for a JSON string literal.
pub open spec fn spec_json_escape(s: Seq<char>) -> Seq<char>
    decreases s.len(),
{
    if s.len() == 0 {
        Seq::empty()
    } else {
        spec_json_escape(s.drop_last()) + esc_char(s.last())
    }
}

/// A JSON string literal: the escaped text in double quotes.
pub open spec fn json_string(s: Seq<char>) -> Seq<char> {
    seq!['"'] + spec_json_escape(s) + seq!['"']
}

fn push_esc_char(out: &mut Vec<char>, c: char)
    ensures
        final(out)@ == old(out)@ + esc_char(c),
{
    if c == '"' {
        out.push('\\');
        out.push('"');
        proof {
            assert(old(out)@ + esc_char(c) =~= old(out)@.push('\\').push('"'));
        }
    } else if c == '\\' {
        out.push('\\');
        out.push('\\');
        proof {
            assert(old(out)@ + esc_char(c) =~= old(out)@.push('\\').push('\\'));
        }
    } else if c == '\n' {
        out.push('\\');
        out.push('n');
        proof {
            assert(old(out)@ + esc_char(c) =~= old(out)@.push('\\').push('n'));
        }
    } else if c == '\r' {
        out.push('\\');
        out.push('r');
        proof {
            assert(old(out)@ + esc_char(c) =~= old(out)@.push('\\').push('r'));
        }
    } else if c == '\t' {
        out.push('\\');
        out.push('t');
        proof {
            assert(old(out)@ + esc_char(c) =~= old(out)@.push('\\').push('t'));
        }
    } else if (c as u32) < 32 {
        let code: u32 = c as u32;
        let hi: u32 = code / 16;
        let lo: u32 = code % 16;
        let hc: char = if hi < 10 {
            (48 + hi as u8) as char
        } else {
            (87 + hi as u8) as char
        };
        let lc: char = if lo < 10 {
            (48 + lo as u8) as char
        } else {
            (87 + lo as u8) as char
        };
        out.push('\\');
        out.push('u');
        out.push('0');
        out.push('0');
        out.push(hc);
        out.push(lc);
        proof {
            assert(hc == hex_digit(c as int / 16));
            assert(lc == hex_digit(c as int % 16));
            assert(old(out)@ + esc_char(c) =~= old(out)@.push('\\').push('u').push('0').push(
                '0',
            ).push(hc).push(lc));
        }
    } else {
        out.push(c);
        proof {
            assert(old(out)@ + esc_char(c) =~= old(out)@.push(c));
        }
    }
}

/// Appends `s` as a JSON string literal, quotes included.
fn push_json_string(out: &mut Vec<char>, s: &str)
    ensures
        final(out)@ == old(out)@ + json_string(s@),
{
    let cs: Vec<char> = chars_of(s);
    out.push('"');
    let mut i: usize = 0;
    proof {
        assert(s@.take(0) =~= Seq::<char>::empty());
        assert(out@ =~= old(out)@ + seq!['"'] + spec_json_escape(s@.take(0)));
    }
    while i < cs.len()
        invariant
            0 <= i <= cs@.len(),
            cs@ == s@,
            out@ == old(out)@ + seq!['"'] + spec_json_escape(s@.take(i as int)),
        decreases cs@.len() - i,
    {
        let c: char = cs[i];
        push_esc_char(out, c);
        proof {
            assert(s@.take(i + 1).drop_last() =~= s@.take(i as int));
            assert(s@.take(i + 1).last() == s@[i as int]);
        }
        i = i + 1;
    }
    out.push('"');
    proof {
        assert(s@.take(s@.len() as int) =~= s@);
        assert(old(out)@ + seq!['"'] + spec_json_escape(s@) + seq!['"'] =~= old(out)@ + json_string(
            s@,
        ));
    }
}

/// The reduction as a percentage with two decimals; `0.00` for an empty
/// original.
pub open spec fn spec_pct(removed: nat, original: nat) -> Seq<char> {
    if original == 0 {
        seq!['0', '.', '0', '0']
    } else {
        let pc = removed * 10000 / original;
        spec_dec(pc / 100) + seq!['.'] + spec_pad2(pc % 100)
    }
}

/// Appends the reduction percentage with two decimals.
fn push_pct(out: &mut Vec<char>, removed: u64, original: u64)
    requires
        removed <= original,
        original <= MAX_TIME_MS,
    ensures
        final(out)@ == old(out)@ + spec_pct(removed as nat, original as nat),
{
    if original == 0 {
        out.push('0');
        out.push('.');
        out.push('0');
        out.push('0');
        proof {
            assert(old(out)@ + spec_pct(removed as nat, original as nat) =~= old(out)@.push(
                '0',
            ).push('.').push('0').push('0'));
        }
    } else {
        let pc: u64 = removed * 10000 / original;
        push_dec(out, pc / 100);
        out.push('.');
        push_pad2(out, pc % 100);
        proof {
            assert(old(out)@ + spec_pct(removed as nat, original as nat) =~= ((old(out)@
                + spec_dec((pc / 100) as nat)).push('.')) + spec_pad2((pc % 100) as nat));
        }
    }
}

/// One edit as a JSON object.
pub open spec fn spec_json_edit(e: EditModel) -> Seq<char> {
    "{\"original_start\":"@ + spec_sec3(e.original_start as nat) + ",\"original_end\":"@
        + spec_sec3(e.original_end as nat) + ",\"reason\":"@ + json_string(e.reason)
        + ",\"text\":"@ + json_string(e.text) + "}"@
}

/// The edit list as the inside of a JSON array.
pub open spec fn spec_json_edits(edits: Seq<EditModel>) -> Seq<char>
    decreases edits.len(),
{
    if edits.len() == 0 {
        Seq::empty()
    } else if edits.len() == 1 {
        spec_json_edit(edits[0])
    } else {
        spec_json_edits(edits.drop_last()) + ","@ + spec_json_edit(edits.last())
    }
}

fn push_json_edit(out: &mut Vec<char>, e: &AppliedEdit)
    ensures
        final(out)@ == old(out)@ + spec_json_edit(e@),
{
    push_str_chars(out, "{\"original_start\":");
    push_sec3(out, e.original_start);
    push_str_chars(out, ",\"original_end\":");
    push_sec3(out, e.original_end);
    push_str_chars(out, ",\"reason\":");
    push_json_string(out, e.reason.as_str());
    push_str_chars(out, ",\"text\":");
    push_json_string(out, e.text.as_str());
    push_str_chars(out, "}");
}

fn push_json_edits(out: &mut Vec<char>, edits: &Vec<AppliedEdit>)
    ensures
        final(out)@ == old(out)@ + spec_json_edits(edit_models(edits@)),
{
    let ghost models = edit_models(edits@);
    let mut i: usize = 0;
    proof {
        assert(models.take(0) =~= Seq::<EditModel>::empty());
        assert(out@ =~= old(out)@ + spec_json_edits(models.take(0)));
    }
    while i < edits.len()
        invariant
            0 <= i <= edits@.len(),
            models == edit_models(edits@),
            out@ == old(out)@ + spec_json_edits(models.take(i as int)),
        decreases edits@.len() - i,
    {
        proof {
            assert(models.take(i + 1).drop_last() =~= models.take(i as int));
            assert(models.take(i + 1).last() == models[i as int]);
            assert(edits@[i as int]@ == models[i as int]);
        }
        if i > 0 {
            push_str_chars(out, ",");
        }
        push_json_edit(out, &edits[i]);
        proof {
            if i == 0 {
                assert(out@ =~= old(out)@ + spec_json_edits(models.take(1)));
            } else {
                assert(out@ =~= old(out)@ + spec_json_edits(models.take(i + 1)));
            }
        }
        i = i + 1;
    }
    proof {
        assert(models.take(edits@.len() as int) =~= models);
    }
}

/// One statistics row as a JSON member.
pub open spec fn spec_json_stat(st: StatModel) -> Seq<char> {
    json_string(st.reason) + ":{\"count\":"@ + spec_dec(st.count as nat) + ",\"duration\":"@
        + spec_sec3(st.duration as nat) + "}"@
}

/// The statistics table as the inside of a JSON object.
pub open spec fn spec_json_stats(sts: Seq<StatModel>) -> Seq<char>
    decreases sts.len(),
{
    if sts.len() == 0 {
        Seq::empty()
    } else if sts.len() == 1 {
        spec_json_stat(sts[0])
    } else {
        spec_json_stats(sts.drop_last()) + ","@ + spec_json_stat(sts.last())
    }
}

fn push_json_stat(out: &mut Vec<char>, st: &ReasonStats)
    ensures
        final(out)@ == old(out)@ + spec_json_stat(st@),
{
    push_json_string(out, st.reason.as_str());
    push_str_chars(out, ":{\"count\":");
    push_dec(out, st.count);
    push_str_chars(out, ",\"duration\":");
    push_sec3(out, st.duration);
    push_str_chars(out, "}");
}

fn push_json_stats(out: &mut Vec<char>, sts: &Vec<ReasonStats>)
    ensures
        final(out)@ == old(out)@ + spec_json_stats(stat_models(sts@)),
{
    let ghost models = stat_models(sts@);
    let mut i: usize = 0;
    proof {
        assert(models.take(0) =~= Seq::<StatModel>::empty());
        assert(out@ =~= old(out)@ + spec_json_stats(models.take(0)));
    }
    while i < sts.len()
        invariant
            0 <= i <= sts@.len(),
            models == stat_models(sts@),
            out@ == old(out)@ + spec_json_stats(models.take(i as int)),
        decreases sts@.len() - i,
    {
        proof {
            assert(models.take(i + 1).drop_last() =~= models.take(i as int));
            assert(models.take(i + 1).last() == models[i as int]);
            assert(sts@[i as int]@ == models[i as int]);
        }
        if i > 0 {
            push_str_chars(out, ",");
        }
        push_json_stat(out, &sts[i]);
        proof {
            if i == 0 {
                assert(out@ =~= old(out)@ + spec_json_stats(models.take(1)));
            } else {
                assert(out@ =~= old(out)@ + spec_json_stats(models.take(i + 1)));
            }
        }
        i = i + 1;
    }
    proof {
        assert(models.take(sts@.len() as int) =~= models);
    }
}

/// The opening brace of the report object, with the pretty layout's
/// newline and indent when asked for.
pub open spec fn fopen(pretty: bool) -> Seq<char> {
    if pretty {
        "{\n  "@
    } else {
        "{"@
    }
}

/// The separator between top-level report fields.
pub open spec fn fsep(pretty: bool) -> Seq<char> {
    if pretty {
        ",\n  "@
    } else {
        ","@
    }
}

/// The closing brace of the report object.
pub open spec fn fclose(pretty: bool) -> Seq<char> {
    if pretty {
        "\n}"@
    } else {
        "}"@
    }
}

fn push_fopen(out: &mut Vec<char>, pretty: bool)
    ensures
        final(out)@ == old(out)@ + fopen(pretty),
{
    if pretty {
        push_str_chars(out, "{\n  ");
    } else {
        push_str_chars(out, "{");
    }
}

fn push_fsep(out: &mut Vec<char>, pretty: bool)
    ensures
        final(out)@ == old(out)@ + fsep(pretty),
{
    if pretty {
        push_str_chars(out, ",\n  ");
    } else {
        push_str_chars(out, ",");
    }
}

fn push_fclose(out: &mut Vec<char>, pretty: bool)
    ensures
        final(out)@ == old(out)@ + fclose(pretty),
{
    if pretty {
        push_str_chars(out, "\n}");
    } else {
        push_str_chars(out, "}");
    }
}

/// The whole JSON report: version tag, generation time stamp, paths,
/// durations, reduction, the edit list, and per-reason statistics whose
/// total equals the summed edit durations.
pub open spec fn spec_json_report(r: ReportModel, ts: Seq<char>, pretty: bool) -> Seq<char> {
    fopen(pretty) + "\"version\":\"1.0\""@ + fsep(pretty) + "\"generated_at\":"@ + json_string(ts)
        + fsep(pretty) + "\"input\":"@ + json_string(r.input_path) + fsep(pretty) + "\"output\":"@
        + json_string(r.output_path) + fsep(pretty) + "\"original_duration\":"@ + spec_sec3(
        r.original_duration as nat,
    ) + fsep(pretty) + "\"edited_duration\":"@ + spec_sec3(r.edited_duration as nat) + fsep(pretty)
        + "\"removed_duration\":"@ + spec_sec3((r.original_duration - r.edited_duration) as nat)
        + fsep(pretty) + "\"reduction_percent\":"@ + spec_pct(
        (r.original_duration - r.edited_duration) as nat,
        r.original_duration as nat,
    ) + fsep(pretty) + "\"edit_count\":"@ + spec_dec(r.edits.len()) + fsep(pretty) + "\"edits\":["@
        + spec_json_edits(r.edits) + "]"@ + fsep(pretty) + "\"statistics\":{\"by_reason\":{"@
        + spec_json_stats(spec_stats(r.edits)) + "},\"total_removed_duration\":"@ + spec_sec3(
        edits_total(r.edits) as nat,
    ) + "}"@ + fclose(pretty)
}

/// The report exporter: turns an [`EditReport`] into interchange text.
pub struct Exporter;

impl Exporter {
    /// The per-reason statistics of the report's edit list: one row per
    /// distinct reason in order of first appearance, carrying how many
    /// edits bore it and their cumulative duration.
    pub fn statistics(report: &EditReport) -> (out: Vec<ReasonStats>)
        requires
            report_wf(report@),
        ensures
            stat_models(out@) == spec_stats(report@.edits),
    {
        let ghost edits = report@.edits;
        let mut out: Vec<ReasonStats> = Vec::new();
        let mut i: usize = 0;
        proof {
            assert(edits.take(0) =~= Seq::<EditModel>::empty());
            assert(stat_models(out@) =~= Seq::<StatModel>::empty());
        }
        while i < report.edits.len()
            invariant
                0 <= i <= report.edits@.len(),
                edits == edit_models(report.edits@),
                report_wf(report@),
                stat_models(out@) == spec_stats(edits.take(i as int)),
                stats_bounded(stat_models(out@), i as int),
            decreases report.edits@.len() - i,
        {
            let e: &AppliedEdit = &report.edits[i];
            proof {
                assert(e@ == edits[i as int]);
                assert(edits.take(i + 1).drop_last() =~= edits.take(i as int));
                assert(edits.take(i + 1).last() == edits[i as int]);
                assert(0 <= edits[i as int].original_start <= MAX_TIME_MS);
                assert(0 <= edits[i as int].original_end <= MAX_TIME_MS);
            }
            let dur: u64 = if e.original_end >= e.original_start {
                e.original_end - e.original_start
            } else {
                0
            };
            // Look for an existing row with this reason.
            let mut k: usize = 0;
            let mut found: bool = false;
            let ghost acc = stat_models(out@);
            proof {
                assert(acc.skip(0) =~= acc);
            }
            while k < out.len() && !found
                invariant
                    0 <= k <= out@.len(),
                    acc == stat_models(out@),
                    !found ==> find_stat(acc, e@.reason) == (if find_stat(
                        acc.skip(k as int),
                        e@.reason,
                    ) == -1 {
                        -1int
                    } else {
                        find_stat(acc.skip(k as int), e@.reason) + k
                    }),
                    found ==> 0 <= k < out@.len() && find_stat(acc, e@.reason) == k
                        && acc[k as int].reason == e@.reason,
                decreases out@.len() - k + (if found {
                    0int
                } else {
                    1int
                }),
            {
                proof {
                    assert(acc.skip(k as int).first() == acc[k as int]);
                    assert(acc.skip(k as int).drop_first() =~= acc.skip(k + 1));
                    lemma_find_stat_in_range(acc.skip(k + 1), e@.reason);
                }
                let same: bool = crate::strfmt::str_eq(out[k].reason.as_str(), e.reason.as_str());
                if same {
                    found = true;
                } else {
                    k = k + 1;
                }
            }
            proof {
                if !found {
                    assert(acc.skip(out@.len() as int) =~= Seq::<StatModel>::empty());
                    assert(find_stat(acc, e@.reason) == -1);
                }
            }
            if found {
                proof {
                    lemma_find_stat_in_range(acc, e@.reason);
                    assert(acc[k as int].count <= i as int);
                    assert(acc[k as int].duration <= i as int * (MAX_TIME_MS as int));
                }
                let ghost before = out@;
                let mut row: ReasonStats = out.remove(k);
                row.count = row.count + 1;
                row.duration = row.duration + dur;
                out.insert(k, row);
                proof {
                    assert(out@ =~= before.update(k as int, row));
                    lemma_stat_models_update(before, k as int, row);
                    assert(stat_models(out@) == stats_add(acc, e@));
                }
            } else {
                let row = ReasonStats { reason: e.reason.clone(), count: 1, duration: dur };
                let ghost before = out@;
                out.push(row);
                proof {
                    lemma_stat_models_push(before, row);
                }
            }
            i = i + 1;
        }
        proof {
            assert(edits.take(edits.len() as int) =~= edits);
        }
        out
    }

    /// The summed duration of the report's edits, in milliseconds.
    fn total_removed(report: &EditReport) -> (total: u64)
        requires
            report_wf(report@),
        ensures
            total == edits_total(report@.edits),
    {
        let ghost models = report@.edits;
        let mut total: u64 = 0;
        let mut i: usize = 0;
        proof {
            assert(models.take(0) =~= Seq::<EditModel>::empty());
        }
        while i < report.edits.len()
            invariant
                0 <= i <= report.edits@.len(),
                models == edit_models(report.edits@),
                report_wf(report@),
                total == edits_total(models.take(i as int)),
                total <= i as int * (MAX_TIME_MS as int),
            decreases report.edits@.len() - i,
        {
            let e: &AppliedEdit = &report.edits[i];
            proof {
                assert(e@ == models[i as int]);
                assert(models.take(i + 1).drop_last() =~= models.take(i as int));
                assert(models.take(i + 1).last() == models[i as int]);
                assert(0 <= models[i as int].original_start <= MAX_TIME_MS);
                assert(0 <= models[i as int].original_end <= MAX_TIME_MS);
            }
            let dur: u64 = if e.original_end >= e.original_start {
                e.original_end - e.original_start
            } else {
                0
            };
            total = total + dur;
            i = i + 1;
        }
        proof {
            assert(models.take(report.edits@.len() as int) =~= models);
        }
        total
    }

    /// The JSON report rendered with the given generation time stamp,
    /// exactly as [`spec_json_report`] states.
    pub fn render_json(report: &EditReport, generated_at: &str, pretty: bool) -> (r: String)
        requires
            report_wf(report@),
        ensures
            r@ == spec_json_report(report@, generated_at@, pretty),
    {
        let mut out: Vec<char> = Vec::new();
        push_fopen(&mut out, pretty);
        push_str_chars(&mut out, "\"version\":\"1.0\"");
        push_fsep(&mut out, pretty);
        push_str_chars(&mut out, "\"generated_at\":");
        push_json_string(&mut out, generated_at);
        push_fsep(&mut out, pretty);
        push_str_chars(&mut out, "\"input\":");
        push_json_string(&mut out, report.input_path.as_str());
        push_fsep(&mut out, pretty);
        push_str_chars(&mut out, "\"output\":");
        push_json_string(&mut out, report.output_path.as_str());
        push_fsep(&mut out, pretty);
        push_str_chars(&mut out, "\"original_duration\":");
        push_sec3(&mut out, report.original_duration);
        push_fsep(&mut out, pretty);
        push_str_chars(&mut out, "\"edited_duration\":");
        push_sec3(&mut out, report.edited_duration);
        push_fsep(&mut out, pretty);
        push_str_chars(&mut out, "\"removed_duration\":");
        let removed: u64 = report.original_duration - report.edited_duration;
        push_sec3(&mut out, removed);
        push_fsep(&mut out, pretty);
        push_str_chars(&mut out, "\"reduction_percent\":");
        push_pct(&mut out, removed, report.original_duration);
        push_fsep(&mut out, pretty);
        push_str_chars(&mut out, "\"edit_count\":");
        push_dec(&mut out, report.edits.len() as u64);
        push_fsep(&mut out, pretty);
        push_str_chars(&mut out, "\"edits\":[");
        push_json_edits(&mut out, &report.edits);
        push_str_chars(&mut out, "]");
        push_fsep(&mut out, pretty);
        push_str_chars(&mut out, "\"statistics\":{\"by_reason\":{");
        let stats: Vec<ReasonStats> = Self::statistics(report);
        push_json_stats(&mut out, &stats);
        push_str_chars(&mut out, "},\"total_removed_duration\":");
        let total: u64 = Self::total_removed(report);
        push_sec3(&mut out, total);
        push_str_chars(&mut out, "}");
        push_fclose(&mut out, pretty);
        string_from_chars(&out)
    }

    /// The EDL rendering of a report: a title line, the non-drop-frame
    /// marker, and one numbered event per kept region whose source
    /// timecodes come from the original timeline and whose record
    /// timecodes accumulate the kept durations, exactly as [`spec_edl`]
    /// states.
    pub fn to_edl(report: &EditReport, fps: u32, title: Option<&str>) -> (r: String)
        requires
            report_wf(report@),
            1 <= fps,
        ensures
            r@ == spec_edl(
                report@,
                fps as nat,
                match title {
                    Some(t) => Some(t@),
                    None => None,
                },
            ),
    {
        let mut out: Vec<char> = Vec::new();
        push_str_chars(&mut out, "TITLE: ");
        match title {
            Some(t) => {
                push_str_chars(&mut out, t);
            },
            None => {
                let tc: Vec<char> = default_title_chars(report.input_path.as_str());
                push_char_vec(&mut out, &tc);
            },
        }
        push_str_chars(&mut out, "\nFCM: NON-DROP FRAME\n\n");

        let name: Vec<char> = clip_name_chars(report.input_path.as_str());
        let regions: Vec<(u64, u64)> = Self::compute_keep_regions(report);
        let ghost rm = region_models(regions@);
        let ghost base = out@;

        let mut rec: u64 = 0;
        let mut k: usize = 0;
        proof {
            assert(rm.skip(0) =~= rm);
            assert(regions@.len() <= MAX_REPORT_EDITS + 1);
        }
        while k < regions.len()
            invariant
                0 <= k <= regions@.len(),
                rm == region_models(regions@),
                regions@.len() <= MAX_REPORT_EDITS + 1,
                1 <= fps,
                name@ == spec_clip_name(report@.input_path),
                forall|i: int|
                    0 <= i < regions@.len() ==> (#[trigger] regions@[i]).0 <= regions@[i].1
                        && regions@[i].1 <= MAX_TIME_MS,
                rec as int <= k as int * (MAX_TIME_MS as int),
                out@ + spec_edl_events(rm.skip(k as int), rec as int, fps as nat, name@, (k
                    + 1) as nat) == base + spec_edl_events(rm, 0, fps as nat, name@, 1),
            decreases regions@.len() - k,
        {
            let a: u64 = regions[k].0;
            let b: u64 = regions[k].1;
            let d: u64 = b - a;
            proof {
                assert(rm.skip(k as int).first() == rm[k as int]);
                assert(rm.skip(k as int).drop_first() =~= rm.skip(k + 1));
                assert(rm[k as int] == (regions@[k as int].0 as int, regions@[k as int].1 as int));
                assert(k as int * (MAX_TIME_MS as int) + (MAX_TIME_MS as int) == (k + 1) as int
                    * (MAX_TIME_MS as int)) by (nonlinear_arith);
            }
            push_edl_event(&mut out, (k + 1) as u64, a, b, rec, rec + d, fps, &name);
            rec = rec + d;
            k = k + 1;
        }
        proof {
            assert(rm.skip(regions@.len() as int) =~= Seq::<(int, int)>::empty());
            assert(out@ + Seq::<char>::empty() =~= out@);
            assert(out@ =~= base + spec_edl_events(rm, 0, fps as nat, name@, 1));
        }
        string_from_chars(&out)
    }

    /// The marker rendering of a report: CSV rows under a header, or
    /// tab-separated label rows, one per removed interval, exactly as
    /// [`spec_markers`] states.
    pub fn to_markers(report: &EditReport, format: MarkerFormat) -> (r: String)
        ensures
            r@ == spec_markers(report@, format),
    {
        let ghost models = report@.edits;
        let mut out: Vec<char> = Vec::new();
        match format {
            MarkerFormat::Csv => {
                push_str_chars(&mut out, "start,end,label,reason");
                let mut i: usize = 0;
                proof {
                    assert(models.take(0) =~= Seq::<EditModel>::empty());
                    assert(out@ =~= "start,end,label,reason"@ + spec_csv_rows(models.take(0)));
                }
                while i < report.edits.len()
                    invariant
                        0 <= i <= report.edits@.len(),
                        models == edit_models(report.edits@),
                        out@ == "start,end,label,reason"@ + spec_csv_rows(models.take(i as int)),
                    decreases report.edits@.len() - i,
                {
                    proof {
                        assert(models.take(i + 1).drop_last() =~= models.take(i as int));
                        assert(models.take(i + 1).last() == models[i as int]);
                        assert(report.edits@[i as int]@ == models[i as int]);
                    }
                    push_csv_row(&mut out, &report.edits[i]);
                    i = i + 1;
                }
                proof {
                    assert(models.take(report.edits@.len() as int) =~= models);
                }
            },
            MarkerFormat::Audacity => {
                let mut i: usize = 0;
                proof {
                    assert(models.take(0) =~= Seq::<EditModel>::empty());
                    assert(out@ =~= spec_aud_rows(models.take(0)));
                }
                while i < report.edits.len()
                    invariant
                        0 <= i <= report.edits@.len(),
                        models == edit_models(report.edits@),
                        out@ == spec_aud_rows(models.take(i as int)),
                    decreases report.edits@.len() - i,
                {
                    proof {
                        assert(models.take(i + 1).drop_last() =~= models.take(i as int));
                        assert(models.take(i + 1).last() == models[i as int]);
                        assert(report.edits@[i as int]@ == models[i as int]);
                    }
                    if i > 0 {
                        push_str_chars(&mut out, "\n");
                    }
                    push_aud_row(&mut out, &report.edits[i]);
                    proof {
                        if i == 0 {
                            assert(out@ =~= spec_aud_rows(models.take(1)));
                        } else {
                            assert(out@ =~= spec_aud_rows(models.take(i + 1)));
                        }
                    }
                    i = i + 1;
                }
                proof {
                    assert(models.take(report.edits@.len() as int) =~= models);
                }
            },
        }
        string_from_chars(&out)
    }

    /// A time stamp in milliseconds as a non-drop-frame timecode
    /// `HH:MM:SS:FF`; the frame count is truncated at the frame boundary,
    /// never rounded.
    pub fn seconds_to_timecode(ms: u64, fps: u32) -> (r: String)
        requires
            1 <= fps,
            ms <= MAX_TC_MS,
        ensures
            r@ == spec_timecode(ms as nat, fps as nat),
    {
        let mut out: Vec<char> = Vec::new();
        push_timecode(&mut out, ms, fps);
        proof {
            assert(Seq::<char>::empty() + spec_timecode(ms as nat, fps as nat) =~= spec_timecode(
                ms as nat,
                fps as nat,
            ));
        }
        string_from_chars(&out)
    }

    /// The JSON report stamped with the current local time.  The time
    /// stamp is whatever the clock says; everything else is exactly
    /// [`spec_json_report`].
    pub fn to_json(report: &EditReport, pretty: bool) -> (r: String)
        requires
            report_wf(report@),
        ensures
            exists|ts: Seq<char>| r@ == spec_json_report(report@, ts, pretty),
    {
        let ts: String = now_rfc3339();
        let r: String = Self::render_json(report, ts.as_str(), pretty);
        proof {
            assert(r@ == spec_json_report(report@, ts@, pretty));
        }
        r
    }
}

/// Stable insertion of an edit into a sequence sorted by original start.
pub open spec fn edl_insert(s: Seq<EditModel>, x: EditModel) -> Seq<EditModel>
    decreases s.len(),
{
    if s.len() > 0 && s.last().original_start > x.original_start {
        edl_insert(s.drop_last(), x).push(s.last())
    } else {
        s.push(x)
    }
}

/// Stable sort of an edit list by original start.
pub open spec fn edl_sort(s: Seq<EditModel>) -> Seq<EditModel>
    decreases s.len(),
{
    if s.len() == 0 {
        s
    } else {
        edl_insert(edl_sort(s.drop_last()), s.last())
    }
}

proof fn lemma_edit_models_insert(s: Seq<AppliedEdit>, i: int, r: AppliedEdit)
    requires
        0 <= i <= s.len(),
    ensures
        edit_models(s.insert(i, r)) == edit_models(s).insert(i, r@),
{
    assert(edit_models(s.insert(i, r)) =~= edit_models(s).insert(i, r@));
}

proof fn lemma_edl_insert_split(s: Seq<EditModel>, x: EditModel, idx: int)
    requires
        0 <= idx <= s.len(),
        forall|k: int| idx <= k < s.len() ==> (#[trigger] s[k]).original_start > x.original_start,
        idx == 0 || s[idx - 1].original_start <= x.original_start,
    ensures
        edl_insert(s, x) == s.insert(idx, x),
    decreases s.len() - idx,
{
    if idx == s.len() {
        assert(edl_insert(s, x) == s.push(x));
        assert(s.insert(idx, x) =~= s.push(x));
    } else {
        assert(s.last().original_start > x.original_start);
        lemma_edl_insert_split(s.drop_last(), x, idx);
        assert(edl_insert(s, x) == s.drop_last().insert(idx, x).push(s.last()));
        assert(s.drop_last().insert(idx, x).push(s.last()) =~= s.insert(idx, x));
    }
}

/// An exact copy of an applied edit.
fn duplicate_edit(e: &AppliedEdit) -> (r: AppliedEdit)
    ensures
        r@ == e@,
{
    AppliedEdit {
        original_start: e.original_start,
        original_end: e.original_end,
        reason: e.reason.clone(),
        text: e.text.clone(),
    }
}

/// Stable insertion of `x` into `v`, sorted by original start.
fn insert_edit_sorted(v: &mut Vec<AppliedEdit>, x: AppliedEdit)
    ensures
        edit_models(final(v)@) == edl_insert(edit_models(old(v)@), x@),
        final(v)@.len() == old(v)@.len() + 1,
        ((forall|k: int|
            0 <= k < old(v)@.len() ==> (#[trigger] old(v)@[k]).original_start <= MAX_TIME_MS
                && old(v)@[k].original_end <= MAX_TIME_MS) && x.original_start <= MAX_TIME_MS
            && x.original_end <= MAX_TIME_MS) ==> (forall|k: int|
            0 <= k < final(v)@.len() ==> (#[trigger] final(v)@[k]).original_start <= MAX_TIME_MS
                && final(v)@[k].original_end <= MAX_TIME_MS),
{
    let mut idx: usize = v.len();
    while idx > 0 && v[idx - 1].original_start > x.original_start
        invariant
            0 <= idx <= v@.len(),
            forall|k: int|
                idx <= k < v@.len() ==> (#[trigger] edit_models(v@)[k]).original_start
                    > x@.original_start,
            v@ == old(v)@,
        decreases idx,
    {
        idx = idx - 1;
    }
    proof {
        lemma_edl_insert_split(edit_models(v@), x@, idx as int);
        lemma_edit_models_insert(v@, idx as int, x);
    }
    v.insert(idx, x);
}

/// The kept-region walk over a start-sorted edit list: the gap before
/// each edit is kept, and the walk's cursor never moves backwards, so
/// nested and overlapping edits merge into the cover of their union.
pub open spec fn regions_walk(edits: Seq<EditModel>, last_end: int) -> Seq<(int, int)>
    decreases edits.len(),
{
    if edits.len() == 0 {
        Seq::empty()
    } else {
        let e = edits.first();
        (if e.original_start > last_end {
            seq![(last_end, e.original_start)]
        } else {
            Seq::empty()
        }) + regions_walk(edits.drop_first(), max(last_end, e.original_end))
    }
}

/// Where the walk's cursor ends: the latest edit end seen, never moving
/// backwards.
pub open spec fn regions_cursor(edits: Seq<EditModel>, last_end: int) -> int
    decreases edits.len(),
{
    if edits.len() == 0 {
        last_end
    } else {
        regions_cursor(edits.drop_first(), max(last_end, edits.first().original_end))
    }
}

/// The kept regions of a report: the complement of the union of its edits
/// on the original timeline, computed by sorting the edits by start and
/// taking the gaps.  A report without edits keeps the whole timeline as
/// one region.
pub open spec fn spec_keep_regions(r: ReportModel) -> Seq<(int, int)> {
    if r.edits.len() == 0 {
        seq![(0int, r.original_duration)]
    } else {
        let sorted = edl_sort(r.edits);
        regions_walk(sorted, 0) + (if regions_cursor(sorted, 0) < r.original_duration {
            seq![(regions_cursor(sorted, 0), r.original_duration)]
        } else {
            Seq::empty()
        })
    }
}

proof fn lemma_regions_walk_push(edits: Seq<EditModel>, e: EditModel, last_end: int)
    ensures
        regions_walk(edits.push(e), last_end) == regions_walk(edits, last_end) + (if e.original_start
            > regions_cursor(edits, last_end) {
            seq![(regions_cursor(edits, last_end), e.original_start)]
        } else {
            Seq::empty()
        }),
        regions_cursor(edits.push(e), last_end) == max(
            regions_cursor(edits, last_end),
            e.original_end,
        ),
    decreases edits.len(),
{
    if edits.len() == 0 {
        assert(edits.push(e).drop_first() =~= Seq::<EditModel>::empty());
        assert(edits.push(e).first() == e);
        assert(regions_walk(Seq::<EditModel>::empty(), max(last_end, e.original_end)) =~= Seq::<
            (int, int),
        >::empty());
        assert(regions_cursor(Seq::<EditModel>::empty(), max(last_end, e.original_end)) == max(
            last_end,
            e.original_end,
        ));
        assert(regions_walk(edits, last_end) + (if e.original_start > last_end {
            seq![(last_end, e.original_start)]
        } else {
            Seq::<(int, int)>::empty()
        }) =~= (if e.original_start > last_end {
            seq![(last_end, e.original_start)]
        } else {
            Seq::<(int, int)>::empty()
        }));
        assert(regions_walk(edits.push(e), last_end) =~= (if e.original_start > last_end {
            seq![(last_end, e.original_start)]
        } else {
            Seq::<(int, int)>::empty()
        }));
    } else {
        assert(edits.push(e).drop_first() =~= edits.drop_first().push(e));
        assert(edits.push(e).first() == edits.first());
        lemma_regions_walk_push(edits.drop_first(), e, max(last_end, edits.first().original_end));
        assert(regions_walk(edits.push(e), last_end) =~= regions_walk(edits, last_end) + (if e.original_start
            > regions_cursor(edits, last_end) {
            seq![(regions_cursor(edits, last_end), e.original_start)]
        } else {
            Seq::<(int, int)>::empty()
        }));
    }
}

/// The models of a region list.
pub open spec fn region_models(s: Seq<(u64, u64)>) -> Seq<(int, int)> {
    s.map_values(|p: (u64, u64)| (p.0 as int, p.1 as int))
}

proof fn lemma_region_models_push(s: Seq<(u64, u64)>, p: (u64, u64))
    ensures
        region_models(s.push(p)) == region_models(s).push((p.0 as int, p.1 as int)),
{
    assert(region_models(s.push(p)) =~= region_models(s).push((p.0 as int, p.1 as int)));
}

impl Exporter {
    /// The kept regions of the report's timeline: the complement of the
    /// union of its edits.  The edits are sorted by start, nested and
    /// overlapping ones merge, and the gaps between them plus any trailing
    /// region up to the original duration are returned in order.  A report
    /// without edits keeps the whole timeline.
    pub fn compute_keep_regions(report: &EditReport) -> (out: Vec<(u64, u64)>)
        requires
            report_wf(report@),
        ensures
            region_models(out@) == spec_keep_regions(report@),
            out@.len() <= report@.edits.len() + 1,
            forall|i: int|
                0 <= i < out@.len() ==> (#[trigger] out@[i]).0 <= out@[i].1 && out@[i].1
                    <= MAX_TIME_MS,
    {
        let ghost models = report@.edits;
        let mut out: Vec<(u64, u64)> = Vec::new();
        if report.edits.len() == 0 {
            let pair = (0u64, report.original_duration);
            out.push(pair);
            proof {
                assert(region_models(out@) =~= seq![(0int, report@.original_duration)]);
            }
            return out;
        }

        // Sort a copy of the edits by original start (stable).
        let mut sorted: Vec<AppliedEdit> = Vec::new();
        let mut i: usize = 0;
        proof {
            assert(edit_models(Seq::<AppliedEdit>::empty()) =~= Seq::<EditModel>::empty());
            assert(models.take(0) =~= Seq::<EditModel>::empty());
        }
        while i < report.edits.len()
            invariant
                0 <= i <= report.edits@.len(),
                models == edit_models(report.edits@),
                report_wf(report@),
                edit_models(sorted@) == edl_sort(models.take(i as int)),
                sorted@.len() == i,
                forall|k: int|
                    0 <= k < sorted@.len() ==> (#[trigger] sorted@[k]).original_start
                        <= MAX_TIME_MS && sorted@[k].original_end <= MAX_TIME_MS,
            decreases report.edits@.len() - i,
        {
            let x: AppliedEdit = duplicate_edit(&report.edits[i]);
            proof {
                assert(models.take(i + 1).drop_last() =~= models.take(i as int));
                assert(models.take(i + 1).last() == models[i as int]);
                assert(0 <= models[i as int].original_start <= MAX_TIME_MS);
                assert(0 <= models[i as int].original_end <= MAX_TIME_MS);
            }
            insert_edit_sorted(&mut sorted, x);
            i = i + 1;
        }
        proof {
            assert(models.take(models.len() as int) =~= models);
        }
        let ghost sm = edit_models(sorted@);

        // Walk the sorted edits, keeping the gaps.
        let mut last_end: u64 = 0;
        let mut j: usize = 0;
        proof {
            assert(sm.take(0) =~= Seq::<EditModel>::empty());
            assert(region_models(out@) =~= regions_walk(sm.take(0), 0));
        }
        while j < sorted.len()
            invariant
                0 <= j <= sorted@.len(),
                sm == edit_models(sorted@),
                forall|k: int|
                    0 <= k < sorted@.len() ==> (#[trigger] sorted@[k]).original_start
                        <= MAX_TIME_MS && sorted@[k].original_end <= MAX_TIME_MS,
                region_models(out@) == regions_walk(sm.take(j as int), 0),
                last_end as int == regions_cursor(sm.take(j as int), 0),
                out@.len() <= j,
                forall|i2: int|
                    0 <= i2 < out@.len() ==> (#[trigger] out@[i2]).0 <= out@[i2].1 && out@[i2].1
                        <= MAX_TIME_MS,
            decreases sorted@.len() - j,
        {
            let e: &AppliedEdit = &sorted[j];
            proof {
                assert(e@ == sm[j as int]);
                assert(sm.take(j + 1) =~= sm.take(j as int).push(sm[j as int]));
                lemma_regions_walk_push(sm.take(j as int), sm[j as int], 0);
            }
            if e.original_start > last_end {
                let pair = (last_end, e.original_start);
                let ghost before = out@;
                out.push(pair);
                proof {
                    lemma_region_models_push(before, pair);
                }
            }
            if e.original_end > last_end {
                last_end = e.original_end;
            }
            j = j + 1;
        }
        proof {
            assert(sm.take(sorted@.len() as int) =~= sm);
        }

        // Trailing kept region.
        if last_end < report.original_duration {
            let pair = (last_end, report.original_duration);
            let ghost before = out@;
            out.push(pair);
            proof {
                lemma_region_models_push(before, pair);
                assert(region_models(out@) =~= spec_keep_regions(report@));
            }
        } else {
            proof {
                assert(region_models(out@) + Seq::<(int, int)>::empty() =~= region_models(out@));
            }
        }
        out
    }
}

/// Largest time stamp, in milliseconds, that the timecode renderer
/// accepts: large enough for any accumulated record offset.
pub const MAX_TC_MS: u64 = 4_500_000_000_000_000_000;

/// A time stamp as a non-drop-frame timecode `HH:MM:SS:FF`: the total
/// frame count is truncated, never rounded.
pub open spec fn spec_timecode(ms: nat, fps: nat) -> Seq<char> {
    let tf = ms * fps / 1000;
    let frames = tf % fps;
    let tsec = tf / fps;
    spec_pad2(tsec / 60 / 60) + seq![':'] + spec_pad2(tsec / 60 % 60) + seq![':'] + spec_pad2(
        tsec % 60,
    ) + seq![':'] + spec_pad2(frames)
}

/// Appends the timecode of `ms` at `fps` frames per second.
fn push_timecode(out: &mut Vec<char>, ms: u64, fps: u32)
    requires
        1 <= fps,
        ms <= MAX_TC_MS,
    ensures
        final(out)@ == old(out)@ + spec_timecode(ms as nat, fps as nat),
{
    proof {
        crate::audio::lemma_mul_bound_commute(ms as int, fps as int, MAX_TC_MS as int, u32::MAX as int);
    }
    let tf: u128 = ms as u128 * fps as u128 / 1000;
    let frames: u64 = (tf % fps as u128) as u64;
    proof {
        vstd::arithmetic::div_mod::lemma_div_denominator(ms as int * fps as int, 1000, fps as int);
        vstd::arithmetic::div_mod::lemma_div_multiples_vanish_quotient(fps as int, ms as int, 1000);
        assert(ms as int * fps as int == fps as int * ms as int) by (nonlinear_arith);
        assert(1000 * (fps as int) == (fps as int) * 1000) by (nonlinear_arith);
        assert((tf as int) / (fps as int) == ms as int / 1000);
        vstd::arithmetic::div_mod::lemma_div_nonincreasing(ms as int, 1000);
    }
    let tsec: u64 = (tf / fps as u128) as u64;
    let h: u64 = tsec / 60 / 60;
    let m: u64 = tsec / 60 % 60;
    let sec: u64 = tsec % 60;
    push_pad2(out, h);
    out.push(':');
    push_pad2(out, m);
    out.push(':');
    push_pad2(out, sec);
    out.push(':');
    push_pad2(out, frames);
    proof {
        assert(old(out)@ + spec_timecode(ms as nat, fps as nat) =~= ((((((old(out)@ + spec_pad2(
            (tsec / 60 / 60) as nat,
        )).push(':') + spec_pad2((tsec / 60 % 60) as nat)).push(':')) + spec_pad2(
            (tsec % 60) as nat,
        )).push(':')) + spec_pad2(frames as nat)));
    }
}

/// An event number, three digits zero-padded, growing beyond `999`.
pub open spec fn spec_pad3g(n: nat) -> Seq<char> {
    if n < 1000 {
        spec_pad3(n)
    } else {
        spec_dec(n)
    }
}

fn push_pad3g(out: &mut Vec<char>, n: u64)
    ensures
        final(out)@ == old(out)@ + spec_pad3g(n as nat),
{
    if n < 1000 {
        push_pad3(out, n);
    } else {
        push_dec(out, n);
    }
}

/// Appends every character of `v` to `out`.
fn push_char_vec(out: &mut Vec<char>, v: &Vec<char>)
    ensures
        final(out)@ == old(out)@ + v@,
{
    let mut i: usize = 0;
    proof {
        assert(out@ =~= old(out)@ + v@.take(0));
    }
    while i < v.len()
        invariant
            0 <= i <= v@.len(),
            out@ == old(out)@ + v@.take(i as int),
        decreases v@.len() - i,
    {
        let c: char = v[i];
        out.push(c);
        proof {
            assert(old(out)@ + v@.take(i + 1) =~= (old(out)@ + v@.take(i as int)).push(c));
        }
        i = i + 1;
    }
    proof {
        assert(v@.take(v@.len() as int) =~= v@);
    }
}

/// One EDL event block: the numbered source and record timecode line,
/// followed by the clip-name comment.
pub open spec fn spec_edl_event(
    idx: nat,
    a: nat,
    b: nat,
    rec_in: nat,
    rec_out: nat,
    fps: nat,
    name: Seq<char>,
) -> Seq<char> {
    spec_pad3g(idx) + "  AX       AA/V  C        "@ + spec_timecode(a, fps) + " "@ + spec_timecode(
        b,
        fps,
    ) + " "@ + spec_timecode(rec_in, fps) + " "@ + spec_timecode(rec_out, fps) + "\n"@
        + "* FROM CLIP NAME: "@ + name + "\n\n"@
}

/// The event blocks of a region list, with a running record offset that
/// accumulates the kept durations.
pub open spec fn spec_edl_events(
    regions: Seq<(int, int)>,
    rec: int,
    fps: nat,
    name: Seq<char>,
    idx: nat,
) -> Seq<char>
    decreases regions.len(),
{
    if regions.len() == 0 {
        Seq::empty()
    } else {
        let p = regions.first();
        let d = p.1 - p.0;
        spec_edl_event(idx, p.0 as nat, p.1 as nat, rec as nat, (rec + d) as nat, fps, name)
            + spec_edl_events(regions.drop_first(), rec + d, fps, name, (idx + 1) as nat)
    }
}

/// The suffix of a path after its last slash.
pub open spec fn after_last_slash(p: Seq<char>) -> Seq<char>
    decreases p.len(),
{
    if p.len() == 0 {
        p
    } else if p.last() == '/' {
        Seq::empty()
    } else {
        after_last_slash(p.drop_last()).push(p.last())
    }
}

/// The index of the last dot of a name, or `-1`.
pub open spec fn last_dot_index(n: Seq<char>) -> int
    decreases n.len(),
{
    if n.len() == 0 {
        -1
    } else if n.last() == '.' {
        n.len() - 1
    } else {
        last_dot_index(n.drop_last())
    }
}

/// A file name without its extension; a leading dot does not count as one.
pub open spec fn spec_stem(n: Seq<char>) -> Seq<char> {
    let i = last_dot_index(n);
    if i >= 1 {
        n.take(i)
    } else {
        n
    }
}

/// The clip name an EDL refers to: the input's file name, or `input`.
pub open spec fn spec_clip_name(p: Seq<char>) -> Seq<char> {
    if after_last_slash(p).len() == 0 {
        "input"@
    } else {
        after_last_slash(p)
    }
}

/// The default EDL title: the input's file stem, or `Untitled`.
pub open spec fn spec_default_title(p: Seq<char>) -> Seq<char> {
    if spec_stem(after_last_slash(p)).len() == 0 {
        "Untitled"@
    } else {
        spec_stem(after_last_slash(p))
    }
}

pub(crate) proof fn lemma_after_slash_split(p: Seq<char>, cut: int)
    requires
        0 <= cut <= p.len(),
        forall|k: int| cut <= k < p.len() ==> p[k] != '/',
        cut > 0 ==> p[cut - 1] == '/',
    ensures
        after_last_slash(p) == p.skip(cut),
    decreases p.len(),
{
    if p.len() == 0 {
        assert(p.skip(cut) =~= p);
    } else if p.len() == cut {
        assert(p.last() == '/');
        assert(p.skip(cut) =~= Seq::<char>::empty());
    } else {
        assert(p.last() != '/');
        assert(forall|k: int| cut <= k < p.drop_last().len() ==> p.drop_last()[k] != '/');
        lemma_after_slash_split(p.drop_last(), cut);
        assert(p.drop_last().skip(cut).push(p.last()) =~= p.skip(cut));
    }
}

pub(crate) proof fn lemma_last_dot_split(n: Seq<char>, j: int)
    requires
        -1 <= j < n.len(),
        j >= 0 ==> n[j] == '.',
        forall|k: int| j < k < n.len() ==> n[k] != '.',
    ensures
        last_dot_index(n) == j,
    decreases n.len(),
{
    if n.len() == 0 {
    } else if n.last() == '.' {
        assert(j == n.len() - 1);
    } else {
        assert(j < n.len() - 1);
        assert(forall|k: int| j < k < n.drop_last().len() ==> n.drop_last()[k] != '.');
        lemma_last_dot_split(n.drop_last(), j);
    }
}

/// The characters after the last slash of `path`.
pub(crate) fn file_name_chars(path: &str) -> (out: Vec<char>)
    ensures
        out@ == after_last_slash(path@),
{
    let cs: Vec<char> = chars_of(path);
    let mut cut: usize = 0;
    let mut m: usize = cs.len();
    let mut found: bool = false;
    while m > 0 && !found
        invariant
            0 <= m <= cs@.len(),
            cs@ == path@,
            !found ==> cut == 0 && (forall|k: int| m <= k < cs@.len() ==> cs@[k] != '/'),
            found ==> 1 <= cut <= cs@.len() && cs@[cut - 1] == '/' && (forall|k: int|
                cut <= k < cs@.len() ==> cs@[k] != '/'),
        decreases m + (if found {
            0int
        } else {
            1int
        }),
    {
        if cs[m - 1] == '/' {
            cut = m;
            found = true;
        } else {
            m = m - 1;
        }
    }
    proof {
        lemma_after_slash_split(path@, cut as int);
    }
    let mut out: Vec<char> = Vec::new();
    let mut i: usize = cut;
    proof {
        assert(out@ =~= path@.subrange(cut as int, cut as int));
    }
    while i < cs.len()
        invariant
            cut <= i <= cs@.len(),
            cs@ == path@,
            out@ == path@.subrange(cut as int, i as int),
        decreases cs@.len() - i,
    {
        let c: char = cs[i];
        out.push(c);
        proof {
            assert(path@.subrange(cut as int, i + 1) =~= path@.subrange(cut as int, i as int).push(
                c,
            ));
        }
        i = i + 1;
    }
    proof {
        assert(path@.subrange(cut as int, path@.len() as int) =~= path@.skip(cut as int));
    }
    out
}

/// The clip name characters of `path`.
fn clip_name_chars(path: &str) -> (out: Vec<char>)
    ensures
        out@ == spec_clip_name(path@),
{
    let name: Vec<char> = file_name_chars(path);
    if name.len() == 0 {
        chars_of("input")
    } else {
        name
    }
}

/// The default title characters of `path`.
fn default_title_chars(path: &str) -> (out: Vec<char>)
    ensures
        out@ == spec_default_title(path@),
{
    let name: Vec<char> = file_name_chars(path);
    let ghost nv = name@;
    // Find the last dot.
    let mut dot: usize = 0;
    let mut has_dot: bool = false;
    let mut m: usize = name.len();
    while m > 0 && !has_dot
        invariant
            0 <= m <= name@.len(),
            nv == name@,
            !has_dot ==> (forall|k: int| m <= k < name@.len() ==> name@[k] != '.'),
            has_dot ==> 0 <= dot < name@.len() && name@[dot as int] == '.' && (forall|k: int|
                dot < k < name@.len() ==> name@[k] != '.'),
        decreases m + (if has_dot {
            0int
        } else {
            1int
        }),
    {
        if name[m - 1] == '.' {
            dot = m - 1;
            has_dot = true;
        } else {
            m = m - 1;
        }
    }
    proof {
        if has_dot {
            lemma_last_dot_split(nv, dot as int);
        } else {
            lemma_last_dot_split(nv, -1);
        }
    }
    let stem_len: usize = if has_dot && dot >= 1 {
        dot
    } else {
        name.len()
    };
    proof {
        assert(nv.take(stem_len as int) =~= spec_stem(nv) || stem_len as int == nv.len());
        if !(has_dot && dot >= 1) {
            assert(nv.take(nv.len() as int) =~= nv);
        }
    }
    let mut out: Vec<char> = Vec::new();
    let mut i: usize = 0;
    proof {
        assert(out@ =~= nv.take(0));
    }
    while i < stem_len
        invariant
            0 <= i <= stem_len <= name@.len(),
            nv == name@,
            out@ == nv.take(i as int),
        decreases stem_len - i,
    {
        let c: char = name[i];
        out.push(c);
        proof {
            assert(nv.take(i + 1) =~= nv.take(i as int).push(c));
        }
        i = i + 1;
    }
    proof {
        assert(out@ =~= spec_stem(nv));
    }
    if out.len() == 0 {
        chars_of("Untitled")
    } else {
        out
    }
}

/// The whole EDL: a title, the non-drop-frame marker, and one event per
/// kept region with source and record timecodes.
pub open spec fn spec_edl(r: ReportModel, fps: nat, title: Option<Seq<char>>) -> Seq<char> {
    "TITLE: "@ + (match title {
        Some(t) => t,
        None => spec_default_title(r.input_path),
    }) + "\nFCM: NON-DROP FRAME\n\n"@ + spec_edl_events(
        spec_keep_regions(r),
        0,
        fps,
        spec_clip_name(r.input_path),
        1,
    )
}

#[verifier::rlimit(100)]
fn push_edl_event(
    out: &mut Vec<char>,
    idx: u64,
    a: u64,
    b: u64,
    rec_in: u64,
    rec_out: u64,
    fps: u32,
    name: &Vec<char>,
)
    requires
        1 <= fps,
        a <= MAX_TC_MS,
        b <= MAX_TC_MS,
        rec_in <= MAX_TC_MS,
        rec_out <= MAX_TC_MS,
    ensures
        final(out)@ == old(out)@ + spec_edl_event(
            idx as nat,
            a as nat,
            b as nat,
            rec_in as nat,
            rec_out as nat,
            fps as nat,
            name@,
        ),
{
    push_pad3g(out, idx);
    push_str_chars(out, "  AX       AA/V  C        ");
    push_timecode(out, a, fps);
    push_str_chars(out, " ");
    push_timecode(out, b, fps);
    push_str_chars(out, " ");
    push_timecode(out, rec_in, fps);
    push_str_chars(out, " ");
    push_timecode(out, rec_out, fps);
    push_str_chars(out, "\n");
    push_str_chars(out, "* FROM CLIP NAME: ");
    push_char_vec(out, name);
    push_str_chars(out, "\n\n");
}

/// Text sanitized for a CSV cell: commas become semicolons and newlines
/// become spaces.
pub open spec fn csv_clean(s: Seq<char>) -> Seq<char> {
    s.map_values(
        |c: char|
            if c == ',' {
                ';'
            } else if c == '\n' {
                ' '
            } else {
                c
            },
    )
}

/// Text sanitized for a tab-separated label: tabs and newlines become
/// spaces.
pub open spec fn aud_clean(s: Seq<char>) -> Seq<char> {
    s.map_values(
        |c: char|
            if c == '\t' {
                ' '
            } else if c == '\n' {
                ' '
            } else {
                c
            },
    )
}

fn push_csv_clean(out: &mut Vec<char>, s: &str)
    ensures
        final(out)@ == old(out)@ + csv_clean(s@),
{
    let cs: Vec<char> = chars_of(s);
    let mut i: usize = 0;
    proof {
        assert(out@ =~= old(out)@ + csv_clean(s@.take(0)));
    }
    while i < cs.len()
        invariant
            0 <= i <= cs@.len(),
            cs@ == s@,
            out@ == old(out)@ + csv_clean(s@.take(i as int)),
        decreases cs@.len() - i,
    {
        let c: char = cs[i];
        let mapped: char = if c == ',' {
            ';'
        } else if c == '\n' {
            ' '
        } else {
            c
        };
        out.push(mapped);
        proof {
            assert(csv_clean(s@.take(i + 1)) =~= csv_clean(s@.take(i as int)).push(mapped));
            assert(old(out)@ + csv_clean(s@.take(i + 1)) =~= (old(out)@ + csv_clean(
                s@.take(i as int),
            )).push(mapped));
        }
        i = i + 1;
    }
    proof {
        assert(s@.take(s@.len() as int) =~= s@);
    }
}

fn push_aud_clean(out: &mut Vec<char>, s: &str)
    ensures
        final(out)@ == old(out)@ + aud_clean(s@),
{
    let cs: Vec<char> = chars_of(s);
    let mut i: usize = 0;
    proof {
        assert(out@ =~= old(out)@ + aud_clean(s@.take(0)));
    }
    while i < cs.len()
        invariant
            0 <= i <= cs@.len(),
            cs@ == s@,
            out@ == old(out)@ + aud_clean(s@.take(i as int)),
        decreases cs@.len() - i,
    {
        let c: char = cs[i];
        let mapped: char = if c == '\t' {
            ' '
        } else if c == '\n' {
            ' '
        } else {
            c
        };
        out.push(mapped);
        proof {
            assert(aud_clean(s@.take(i + 1)) =~= aud_clean(s@.take(i as int)).push(mapped));
            assert(old(out)@ + aud_clean(s@.take(i + 1)) =~= (old(out)@ + aud_clean(
                s@.take(i as int),
            )).push(mapped));
        }
        i = i + 1;
    }
    proof {
        assert(s@.take(s@.len() as int) =~= s@);
    }
}

/// One CSV marker row, on its own line under the header.
pub open spec fn spec_csv_row(e: EditModel) -> Seq<char> {
    "\n"@ + spec_sec3(e.original_start as nat) + ","@ + spec_sec3(e.original_end as nat) + ",\""@
        + csv_clean(e.text) + "\","@ + e.reason
}

/// All CSV marker rows.
pub open spec fn spec_csv_rows(edits: Seq<EditModel>) -> Seq<char>
    decreases edits.len(),
{
    if edits.len() == 0 {
        Seq::empty()
    } else {
        spec_csv_rows(edits.drop_last()) + spec_csv_row(edits.last())
    }
}

/// One tab-separated label row.
pub open spec fn spec_aud_row(e: EditModel) -> Seq<char> {
    spec_sec6(e.original_start as nat) + "\t"@ + spec_sec6(e.original_end as nat) + "\t["@
        + e.reason + "] "@ + aud_clean(e.text)
}

/// All tab-separated label rows, newline-separated.
pub open spec fn spec_aud_rows(edits: Seq<EditModel>) -> Seq<char>
    decreases edits.len(),
{
    if edits.len() == 0 {
        Seq::empty()
    } else if edits.len() == 1 {
        spec_aud_row(edits[0])
    } else {
        spec_aud_rows(edits.drop_last()) + "\n"@ + spec_aud_row(edits.last())
    }
}

/// The marker rendering of a report: one row per removed interval, in the
/// chosen dialect.
pub open spec fn spec_markers(r: ReportModel, format: MarkerFormat) -> Seq<char> {
    match format {
        MarkerFormat::Csv => "start,end,label,reason"@ + spec_csv_rows(r.edits),
        MarkerFormat::Audacity => spec_aud_rows(r.edits),
    }
}

fn push_csv_row(out: &mut Vec<char>, e: &AppliedEdit)
    ensures
        final(out)@ == old(out)@ + spec_csv_row(e@),
{
    push_str_chars(out, "\n");
    push_sec3(out, e.original_start);
    push_str_chars(out, ",");
    push_sec3(out, e.original_end);
    push_str_chars(out, ",\"");
    push_csv_clean(out, e.text.as_str());
    push_str_chars(out, "\",");
    push_str_chars(out, e.reason.as_str());
}

fn push_aud_row(out: &mut Vec<char>, e: &AppliedEdit)
    ensures
        final(out)@ == old(out)@ + spec_aud_row(e@),
{
    push_sec6(out, e.original_start);
    push_str_chars(out, "\t");
    push_sec6(out, e.original_end);
    push_str_chars(out, "\t[");
    push_str_chars(out, e.reason.as_str());
    push_str_chars(out, "] ");
    push_aud_clean(out, e.text.as_str());
}

/// Relies on chrono's `Local::now` and `DateTime::to_rfc3339`: the current
/// local time rendered as an RFC 3339 time stamp.  The result depends on
/// the clock, so nothing is promised of it.
#[verifier::external_body]
fn now_rfc3339() -> (ts: String) {
    chrono::Local::now().to_rfc3339()
}

} // verus!
