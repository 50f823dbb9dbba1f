//! The formats of an analysis report: text for a terminal, CSV and OCSF.
use vstd::prelude::*;
use crate::json::{Json, JsonValue, JsonField, keys_view, values_view, items_view, object_of, array_of, member, string_value, number_value};
use crate::text::{owned, join2, cat3, cat5, chars_of, string_of, has_char, contains_char, split_char, split_spec,
    split_whitespace, words_spec, byte_len, str_byte_len, nat_text, int_text, usize_text, i64_text};
use crate::ci_map::strings_view;
use crate::model::finding::{Finding, Severity, severity_text};
use crate::model::report::{Report, Timestamp};
use crate::cli::colors::{painted, badge_code, badge_text, header_text, divider_text, severity_badge, header, divider, kv,
    stat, dim, bold_white, bold_red, bold_yellow, blue, gray, green, ok};

verus! {

// ── Wrapping ─────────────────────────────────────────────────────

/// Greedy line filling: the lines finished so far and the line being
/// filled, after placing `words` in order on lines of at most `width`
/// bytes (a word longer than that gets a line of its own).
pub open spec fn pack_state(words: Seq<Seq<char>>, width: nat) -> (Seq<Seq<char>>, Seq<char>)
    decreases words.len(),
{
    if words.len() == 0 {
        (Seq::empty(), Seq::empty())
    } else {
        let (lines, cur) = pack_state(words.drop_last(), width);
        let w = words.last();
        if byte_len(cur) + byte_len(w) + 1 > width && cur.len() > 0 {
            (lines.push(cur), w)
        } else if cur.len() > 0 {
            (lines, cur + seq![' '] + w)
        } else {
            (lines, w)
        }
    }
}

/// The lines of one paragraph: one empty line when it holds no word.
pub open spec fn paragraph_lines(p: Seq<char>, width: nat) -> Seq<Seq<char>> {
    let ws = words_spec(p);
    if ws.len() == 0 {
        seq![Seq::empty()]
    } else {
        let (lines, cur) = pack_state(ws, width);
        if cur.len() > 0 { lines.push(cur) } else { lines }
    }
}

/// The lines of each paragraph in turn.
pub open spec fn paragraphs_lines(ps: Seq<Seq<char>>, width: nat) -> Seq<Seq<char>>
    decreases ps.len(),
{
    if ps.len() == 0 {
        Seq::empty()
    } else {
        paragraphs_lines(ps.drop_last(), width) + paragraph_lines(ps.last(), width)
    }
}

/// `text` wrapped at `width` bytes, paragraph by paragraph (paragraphs are
/// separated by newlines).
pub open spec fn wrapped(text: Seq<char>, width: nat) -> Seq<Seq<char>> {
    paragraphs_lines(split_spec(text, '\n'), width)
}

fn push_line(out: &mut Vec<String>, line: String)
    ensures
        strings_view(final(out)@) == strings_view(old(out)@).push(line@),
{
    let ghost prev = out@;
    out.push(line);
    proof {
        assert(strings_view(out@) =~= strings_view(prev).push(line@));
    }
}

fn wrap_paragraph(p: &str, width: usize, out: &mut Vec<String>)
    ensures
        strings_view(final(out)@) == strings_view(old(out)@) + paragraph_lines(p@, width as nat),
{
    let ghost start = strings_view(out@);
    let words = split_whitespace(p);
    let ghost ws = strings_view(words@);
    if words.len() == 0 {
        push_line(out, String::new());
        proof {
            assert(strings_view(out@) =~= start + paragraph_lines(p@, width as nat));
        }
        return;
    }
    let mut current = String::new();
    let mut k: usize = 0;
    proof {
        assert(ws.take(0) =~= Seq::<Seq<char>>::empty());
    }
    while k < words.len()
        invariant
            k <= words@.len(),
            ws == strings_view(words@),
            ws == words_spec(p@),
            pack_state(ws.take(k as int), width as nat) == (strings_view(out@).subrange(start.len() as int, strings_view(out@).len() as int), current@),
            strings_view(out@).subrange(0, start.len() as int) == start,
            start.len() <= strings_view(out@).len(),
        decreases words@.len() - k,
    {
        let word = &words[k];
        let ghost prev_lines = strings_view(out@).subrange(start.len() as int, strings_view(out@).len() as int);
        let ghost prev_cur = current@;
        proof {
            assert(ws.take(k + 1).drop_last() =~= ws.take(k as int));
            assert(ws.take(k + 1).last() == word@);
        }
        let cl = str_byte_len(current.as_str());
        let wl = str_byte_len(word.as_str());
        let cur_nonempty = !current.as_str().is_empty();
        if (cl as u128) + (wl as u128) + 1 > (width as u128) && cur_nonempty {
            let ghost before = strings_view(out@);
            push_line(out, current);
            current = String::new();
            proof {
                assert(strings_view(out@).subrange(start.len() as int, strings_view(out@).len() as int) =~= prev_lines.push(prev_cur));
                assert(strings_view(out@).subrange(0, start.len() as int) =~= before.subrange(0, start.len() as int));
            }
        }
        if !current.as_str().is_empty() {
            current.push(' ');
        }
        current.append(word.as_str());
        proof {
            if !(cl + wl + 1 > width && prev_cur.len() > 0) {
                if prev_cur.len() > 0 {
                    assert(current@ =~= prev_cur + seq![' '] + word@);
                } else {
                    assert(current@ =~= word@);
                }
            }
        }
        k = k + 1;
    }
    proof {
        assert(ws.take(k as int) =~= ws);
    }
    let ghost before = strings_view(out@);
    if !current.as_str().is_empty() {
        push_line(out, current);
        proof {
            assert(strings_view(out@).subrange(start.len() as int, strings_view(out@).len() as int) =~= before.subrange(start.len() as int, before.len() as int).push(current@));
        }
    }
    proof {
        assert(strings_view(out@) =~= strings_view(out@).subrange(0, start.len() as int) + strings_view(out@).subrange(start.len() as int, strings_view(out@).len() as int));
    }
}

/// `text` wrapped at `width` bytes.
pub fn wrap_text(text: &str, width: usize) -> (r: Vec<String>)
    ensures
        strings_view(r@) == wrapped(text@, width as nat),
{
    let paragraphs = split_char(text, '\n');
    let ghost ps = strings_view(paragraphs@);
    let mut lines: Vec<String> = Vec::new();
    let mut i: usize = 0;
    proof {
        assert(ps.take(0) =~= Seq::<Seq<char>>::empty());
        assert(strings_view(lines@) =~= Seq::<Seq<char>>::empty());
    }
    while i < paragraphs.len()
        invariant
            i <= paragraphs@.len(),
            ps == strings_view(paragraphs@),
            ps == split_spec(text@, '\n'),
            strings_view(lines@) == paragraphs_lines(ps.take(i as int), width as nat),
        decreases paragraphs@.len() - i,
    {
        wrap_paragraph(paragraphs[i].as_str(), width, &mut lines);
        proof {
            assert(ps.take(i + 1).drop_last() =~= ps.take(i as int));
            assert(ps.take(i + 1).last() == paragraphs@[i as int]@);
        }
        i = i + 1;
    }
    proof {
        assert(ps.take(i as int) =~= ps);
    }
    lines
}

// ── CSV ──────────────────────────────────────────────────────────

/// `s` with each `"` doubled.
pub open spec fn quotes_doubled(s: Seq<char>) -> Seq<char>
    decreases s.len(),
{
    if s.len() == 0 {
        s
    } else if s.last() == '"' {
        quotes_doubled(s.drop_last()) + seq!['"', '"']
    } else {
        quotes_doubled(s.drop_last()).push(s.last())
    }
}

/// A CSV field: quoted, with quotes doubled, when it holds a comma, a quote
/// or a newline; as it is otherwise.
pub open spec fn csv_field(s: Seq<char>) -> Seq<char> {
    if has_char(s, ',') || has_char(s, '"') || has_char(s, '\n') {
        seq!['"'] + quotes_doubled(s) + seq!['"']
    } else {
        s
    }
}

pub fn csv_escape(s: &str) -> (r: String)
    ensures
        r@ == csv_field(s@),
{
    if contains_char(s, ',') || contains_char(s, '"') || contains_char(s, '\n') {
        let cs = chars_of(s);
        let mut out: Vec<char> = Vec::new();
        out.push('"');
        let mut i: usize = 0;
        proof {
            assert(s@.take(0) =~= Seq::<char>::empty());
            assert(out@ =~= seq!['"'] + quotes_doubled(s@.take(0)));
        }
        while i < cs.len()
            invariant
                i <= cs@.len(),
                cs@ == s@,
                out@ == seq!['"'] + quotes_doubled(s@.take(i as int)),
            decreases cs@.len() - i,
        {
            proof {
                assert(s@.take(i + 1).drop_last() =~= s@.take(i as int));
                assert(s@.take(i + 1).last() == s@[i as int]);
            }
            if cs[i] == '"' {
                out.push('"');
                out.push('"');
            } else {
                out.push(cs[i]);
            }
            proof {
                assert(out@ =~= seq!['"'] + quotes_doubled(s@.take(i + 1)));
            }
            i = i + 1;
        }
        out.push('"');
        proof {
            assert(s@.take(i as int) =~= s@);
        }
        string_of(&out)
    } else {
        owned(s)
    }
}

/// The CSV line of a finding.
pub open spec fn csv_line(f: Finding) -> Seq<char> {
    severity_text(f.severity) + ","@ + csv_field(f.title@) + ","@ + csv_field(f.impact@) + ","@
        + csv_field(f.description@) + ","@ + csv_field(f.recommendation@) + "\n"@
}

/// The CSV lines of the findings.
pub open spec fn csv_lines(fs: Seq<Finding>) -> Seq<char>
    decreases fs.len(),
{
    if fs.len() == 0 {
        Seq::empty()
    } else {
        csv_lines(fs.drop_last()) + csv_line(fs.last())
    }
}

/// The report as CSV: a header line, then a line per finding.
pub fn format_csv(report: &Report) -> (r: String)
    ensures
        r@ == "severity,title,impact,description,recommendation\n"@ + csv_lines(report.findings@),
{
    let mut csv = owned("severity,title,impact,description,recommendation\n");
    let ghost head = csv@;
    let mut i: usize = 0;
    proof {
        assert(report.findings@.take(0) =~= Seq::<Finding>::empty());
        assert(csv@ =~= head + csv_lines(report.findings@.take(0)));
    }
    while i < report.findings.len()
        invariant
            i <= report.findings@.len(),
            csv@ == head + csv_lines(report.findings@.take(i as int)),
        decreases report.findings@.len() - i,
    {
        let f = &report.findings[i];
        let sev = f.severity.to_text();
        let a = cat5(sev.as_str(), ",", csv_escape(f.title.as_str()).as_str(), ",", csv_escape(f.impact.as_str()).as_str());
        let b = cat5(",", csv_escape(f.description.as_str()).as_str(), ",", csv_escape(f.recommendation.as_str()).as_str(), "\n");
        csv.append(a.as_str());
        csv.append(b.as_str());
        proof {
            assert(report.findings@.take(i + 1).drop_last() =~= report.findings@.take(i as int));
            assert(report.findings@.take(i + 1).last() == *f);
            assert(csv@ =~= head + csv_lines(report.findings@.take(i + 1)));
        }
        i = i + 1;
    }
    proof {
        assert(report.findings@.take(i as int) =~= report.findings@);
    }
    csv
}

// ── OCSF ─────────────────────────────────────────────────────────

/// The OCSF severity id of a severity.
pub open spec fn ocsf_severity(s: Severity) -> u8 {
    match s {
        Severity::Low => 2,
        Severity::Medium => 3,
        Severity::High => 4,
    }
}

pub fn ocsf_severity_id(s: Severity) -> (r: u8)
    ensures
        r == ocsf_severity(s),
{
    match s {
        Severity::Low => 2,
        Severity::Medium => 3,
        Severity::High => 4,
    }
}

// ── Text ─────────────────────────────────────────────────────────

/// `chrono::DateTime::<Utc>::from_timestamp(secs, nanos)` written with
/// `format(fmt)`.
pub uninterp spec fn chrono_formatted(secs: i64, nanos: u32, fmt: Seq<char>) -> Option<Seq<char>>;

/// `chrono::DateTime::<Utc>::from_timestamp` then `format(fmt).to_string()`:
/// `None` when the instant is out of chrono's range. Claimed only to be a
/// function of its arguments; the format is the report's, which chrono
/// accepts.
#[verifier::external_body]
fn format_time(secs: i64, nanos: u32, fmt: &str) -> (r: Option<String>)
    requires
        fmt@ == "%Y-%m-%d %H:%M:%S UTC"@,
    ensures
        match r {
            Some(t) => chrono_formatted(secs, nanos, fmt@) == Some(t@),
            None => chrono_formatted(secs, nanos, fmt@) is None,
        },
{
    match chrono::DateTime::from_timestamp(secs, nanos) {
        Some(t) => Some(t.format(fmt).to_string()),
        None => None,
    }
}

/// When a report was made, as `YYYY-MM-DD HH:MM:SS UTC` (empty when the
/// instant cannot be written).
pub open spec fn generated_text(t: Timestamp) -> Seq<char> {
    match chrono_formatted(t.seconds, t.nanos, "%Y-%m-%d %H:%M:%S UTC"@) {
        Some(s) => s,
        None => Seq::empty(),
    }
}

/// Wrapped lines, each indented and coloured, an empty line for an empty one.
pub open spec fn indented_lines(lines: Seq<Seq<char>>, code: Seq<char>, color: bool) -> Seq<char>
    decreases lines.len(),
{
    if lines.len() == 0 {
        Seq::empty()
    } else {
        let l = lines.last();
        indented_lines(lines.drop_last(), code, color) + if l.len() == 0 { "\n"@ } else { "  "@ + painted(code, l, color) + "\n"@ }
    }
}

/// A finding as printed: a blank line, its badge and title, its impact, its
/// description wrapped in grey, and its recommendation (when it has one)
/// wrapped in green.
pub open spec fn finding_text_spec(f: Finding, color: bool) -> Seq<char> {
    "\n"@ + "  "@ + painted(badge_code(f.severity), badge_text(f.severity), color) + " "@ + painted("1;37"@, f.title@, color) + "\n"@
        + "  "@ + painted("2"@, "Impact:"@, color) + " "@ + f.impact@ + "\n"@
        + indented_lines(wrapped(f.description@, 72), "90"@, color)
        + if f.recommendation@.len() > 0 {
            "  "@ + painted("2"@, "Recommendation:"@, color) + "\n"@ + indented_lines(wrapped(f.recommendation@, 72), "32"@, color)
        } else {
            Seq::empty()
        }
}

/// The findings of a given severity, in order.
pub open spec fn of_severity(fs: Seq<Finding>, s: Severity) -> Seq<Finding>
    decreases fs.len(),
{
    if fs.len() == 0 {
        Seq::empty()
    } else if fs.last().severity == s {
        of_severity(fs.drop_last(), s).push(fs.last())
    } else {
        of_severity(fs.drop_last(), s)
    }
}

/// Each finding as printed, in order.
pub open spec fn findings_text(fs: Seq<Finding>, color: bool) -> Seq<char>
    decreases fs.len(),
{
    if fs.len() == 0 {
        Seq::empty()
    } else {
        findings_text(fs.drop_last(), color) + finding_text_spec(fs.last(), color)
    }
}

/// A section of findings under a divider, when there are any.
pub open spec fn section_text(fs: Seq<Finding>, code: Seq<char>, label: Seq<char>, color: bool) -> Seq<char> {
    if fs.len() == 0 {
        Seq::empty()
    } else {
        "\n"@ + divider_text(painted(code, label, color), color) + "\n"@ + findings_text(fs, color)
    }
}

/// The header, account and time lines of the text report.
pub open spec fn report_head(account: Seq<char>, generated: Seq<char>, color: bool) -> Seq<char> {
    header_text("IAM Recon Security Analysis"@, color) + "\n"@
        + "  "@ + painted("2"@, "Account:"@, color) + "  "@ + painted("1;37"@, account, color) + "\n"@
        + "  "@ + painted("2"@, "Generated:"@, color) + "  "@ + painted("1;37"@, generated, color) + "\n"@
}

/// The line counting the findings of each severity.
pub open spec fn summary_text(total: nat, high: nat, medium: nat, low: nat, color: bool) -> Seq<char> {
    "  "@ + painted("2"@, "Findings:"@, color) + "  "@ + painted("1;36"@, nat_text(total), color) + " total  |  "@
        + painted("1;36"@, nat_text(high), color) + " "@ + painted("1;31"@, "high"@, color) + "  "@
        + painted("1;36"@, nat_text(medium), color) + " "@ + painted("1;33"@, "medium"@, color) + "  "@
        + painted("1;36"@, nat_text(low), color) + " "@ + painted("34"@, "low"@, color) + "\n"@
}

/// The text report: a header, the account, when it was made, the number of
/// findings of each severity, then the findings under a section per
/// severity (high, medium, low), or a line saying there are none.
pub open spec fn text_report_spec(report: Report, color: bool) -> Seq<char> {
    let fs = report.findings@;
    let high = of_severity(fs, Severity::High);
    let medium = of_severity(fs, Severity::Medium);
    let low = of_severity(fs, Severity::Low);
    report_head(report.account_id@, generated_text(report.generated_at), color)
        + summary_text(fs.len(), high.len(), medium.len(), low.len(), color)
        + report_body(fs, color)
}

/// The findings part of the text report.
pub open spec fn report_body(fs: Seq<Finding>, color: bool) -> Seq<char> {
    if fs.len() == 0 {
        "\n  "@ + painted("1;32"@, "No findings."@, color) + "\n"@
    } else {
        section_text(of_severity(fs, Severity::High), "1;31"@, "HIGH"@, color)
            + section_text(of_severity(fs, Severity::Medium), "1;33"@, "MEDIUM"@, color)
            + section_text(of_severity(fs, Severity::Low), "34"@, "LOW"@, color)
    }
}

fn push_str(out: &mut String, t: &str)
    ensures
        final(out)@ == old(out)@ + t@,
{
    out.append(t);
}

fn push_indented(out: &mut String, lines: &Vec<String>, code: &str, color: bool)
    ensures
        final(out)@ == old(out)@ + indented_lines(strings_view(lines@), code@, color),
{
    let ghost start = out@;
    let ghost ls = strings_view(lines@);
    let mut i: usize = 0;
    proof {
        assert(ls.take(0) =~= Seq::<Seq<char>>::empty());
        assert(out@ =~= start + indented_lines(ls.take(0), code@, color));
    }
    while i < lines.len()
        invariant
            i <= lines@.len(),
            ls == strings_view(lines@),
            out@ == start + indented_lines(ls.take(i as int), code@, color),
        decreases lines@.len() - i,
    {
        let line = &lines[i];
        if line.as_str().is_empty() {
            push_str(out, "\n");
        } else {
            push_str(out, "  ");
            push_str(out, crate::cli::colors::paint(code, line.as_str(), color).as_str());
            push_str(out, "\n");
        }
        proof {
            assert(ls.take(i + 1).drop_last() =~= ls.take(i as int));
            assert(ls.take(i + 1).last() == line@);
            assert(out@ =~= start + indented_lines(ls.take(i + 1), code@, color));
        }
        i = i + 1;
    }
    proof {
        assert(ls.take(i as int) =~= ls);
    }
}

/// A finding as printed.
pub fn finding_text(f: &Finding, color: bool) -> (r: String)
    ensures
        r@ == finding_text_spec(*f, color),
{
    let mut out = owned("\n");
    push_str(&mut out, "  ");
    push_str(&mut out, severity_badge(f.severity, color).as_str());
    push_str(&mut out, " ");
    push_str(&mut out, bold_white(f.title.as_str(), color).as_str());
    push_str(&mut out, "\n");
    push_str(&mut out, "  ");
    push_str(&mut out, dim("Impact:", color).as_str());
    push_str(&mut out, " ");
    push_str(&mut out, f.impact.as_str());
    push_str(&mut out, "\n");
    let ghost mid = out@;
    let desc = wrap_text(f.description.as_str(), 72);
    push_indented(&mut out, &desc, "90", color);
    let ghost mid2 = out@;
    if !f.recommendation.as_str().is_empty() {
        push_str(&mut out, "  ");
        push_str(&mut out, dim("Recommendation:", color).as_str());
        push_str(&mut out, "\n");
        let rec = wrap_text(f.recommendation.as_str(), 72);
        push_indented(&mut out, &rec, "32", color);
    }
    proof {
        assert(out@ =~= finding_text_spec(*f, color));
    }
    out
}

fn push_section(out: &mut String, fs: &Vec<&Finding>, code: &str, label: &str, color: bool)
    ensures
        final(out)@ == old(out)@ + section_text(fs@.map_values(|f: &Finding| *f), code@, label@, color),
{
    let ghost start = out@;
    let ghost v = fs@.map_values(|f: &Finding| *f);
    if fs.len() == 0 {
        proof {
            assert(out@ =~= start + section_text(v, code@, label@, color));
        }
        return;
    }
    push_str(out, "\n");
    let painted_label = crate::cli::colors::paint(code, label, color);
    push_str(out, divider(painted_label.as_str(), color).as_str());
    push_str(out, "\n");
    let ghost head = out@;
    let mut i: usize = 0;
    proof {
        assert(v.take(0) =~= Seq::<Finding>::empty());
        assert(out@ =~= head + findings_text(v.take(0), color));
    }
    while i < fs.len()
        invariant
            i <= fs@.len(),
            v == fs@.map_values(|f: &Finding| *f),
            out@ == head + findings_text(v.take(i as int), color),
        decreases fs@.len() - i,
    {
        let f: &Finding = fs[i];
        push_str(out, finding_text(f, color).as_str());
        proof {
            assert(v.take(i + 1).drop_last() =~= v.take(i as int));
            assert(v.take(i + 1).last() == *f);
            assert(out@ =~= head + findings_text(v.take(i + 1), color));
        }
        i = i + 1;
    }
    proof {
        assert(v.take(i as int) =~= v);
        assert(out@ =~= start + section_text(v, code@, label@, color));
    }
}

fn select(fs: &Vec<Finding>, s: Severity) -> (r: Vec<&Finding>)
    ensures
        r@.map_values(|f: &Finding| *f) == of_severity(fs@, s),
{
    let mut out: Vec<&Finding> = Vec::new();
    let mut i: usize = 0;
    proof {
        assert(fs@.take(0) =~= Seq::<Finding>::empty());
        assert(out@.map_values(|f: &Finding| *f) =~= of_severity(fs@.take(0), s));
    }
    while i < fs.len()
        invariant
            i <= fs@.len(),
            out@.map_values(|f: &Finding| *f) == of_severity(fs@.take(i as int), s),
        decreases fs@.len() - i,
    {
        proof {
            assert(fs@.take(i + 1).drop_last() =~= fs@.take(i as int));
            assert(fs@.take(i + 1).last() == fs@[i as int]);
        }
        if fs[i].severity == s {
            let ghost prev = out@;
            out.push(&fs[i]);
            proof {
                assert(out@.map_values(|f: &Finding| *f) =~= prev.map_values(|f: &Finding| *f).push(fs@[i as int]));
            }
        }
        i = i + 1;
    }
    proof {
        assert(fs@.take(i as int) =~= fs@);
    }
    out
}

fn report_head_text(account: &str, generated: &str, color: bool) -> (r: String)
    ensures
        r@ == report_head(account@, generated@, color),
{
    let mut out = header("IAM Recon Security Analysis", color);
    push_str(&mut out, "\n");
    push_str(&mut out, kv("Account:", account, color).as_str());
    push_str(&mut out, "\n");
    push_str(&mut out, kv("Generated:", generated, color).as_str());
    push_str(&mut out, "\n");
    proof {
        assert(out@ =~= report_head(account@, generated@, color));
    }
    out
}

fn summary(total: usize, high: usize, medium: usize, low: usize, color: bool) -> (r: String)
    ensures
        r@ == summary_text(total as nat, high as nat, medium as nat, low as nat, color),
{
    let mut out = owned("  ");
    push_str(&mut out, dim("Findings:", color).as_str());
    push_str(&mut out, "  ");
    push_str(&mut out, stat(total, color).as_str());
    push_str(&mut out, " total  |  ");
    push_str(&mut out, stat(high, color).as_str());
    push_str(&mut out, " ");
    push_str(&mut out, bold_red("high", color).as_str());
    push_str(&mut out, "  ");
    push_str(&mut out, stat(medium, color).as_str());
    push_str(&mut out, " ");
    push_str(&mut out, bold_yellow("medium", color).as_str());
    push_str(&mut out, "  ");
    push_str(&mut out, stat(low, color).as_str());
    push_str(&mut out, " ");
    push_str(&mut out, blue("low", color).as_str());
    push_str(&mut out, "\n");
    proof {
        assert(out@ =~= summary_text(total as nat, high as nat, medium as nat, low as nat, color));
    }
    out
}

fn body_text(fs: &Vec<Finding>, high: &Vec<&Finding>, medium: &Vec<&Finding>, low: &Vec<&Finding>, color: bool) -> (r: String)
    requires
        high@.map_values(|f: &Finding| *f) == of_severity(fs@, Severity::High),
        medium@.map_values(|f: &Finding| *f) == of_severity(fs@, Severity::Medium),
        low@.map_values(|f: &Finding| *f) == of_severity(fs@, Severity::Low),
    ensures
        r@ == report_body(fs@, color),
{
    let mut out = String::new();
    if fs.len() == 0 {
        push_str(&mut out, "\n  ");
        push_str(&mut out, ok("No findings.", color).as_str());
        push_str(&mut out, "\n");
    } else {
        push_section(&mut out, high, "1;31", "HIGH", color);
        push_section(&mut out, medium, "1;33", "MEDIUM", color);
        push_section(&mut out, low, "34", "LOW", color);
    }
    proof {
        assert(out@ =~= report_body(fs@, color));
    }
    out
}

/// The report as printed to a terminal.
pub fn text_report(report: &Report, color: bool) -> (r: String)
    ensures
        r@ == text_report_spec(*report, color),
{
    let high = select(&report.findings, Severity::High);
    let medium = select(&report.findings, Severity::Medium);
    let low = select(&report.findings, Severity::Low);
    let generated = match format_time(report.generated_at.seconds, report.generated_at.nanos, "%Y-%m-%d %H:%M:%S UTC") {
        Some(t) => t,
        None => String::new(),
    };
    let mut out = report_head_text(report.account_id.as_str(), generated.as_str(), color);
    push_str(&mut out, summary(report.findings.len(), high.len(), medium.len(), low.len(), color).as_str());
    push_str(&mut out, body_text(&report.findings, &high, &medium, &low, color).as_str());
    proof {
        assert(high@.len() == of_severity(report.findings@, Severity::High).len());
        assert(medium@.len() == of_severity(report.findings@, Severity::Medium).len());
        assert(low@.len() == of_severity(report.findings@, Severity::Low).len());
        assert(out@ =~= text_report_spec(*report, color));
    }
    out
}

/// A JSON object from its member names and values.
pub open spec fn obj(keys: Seq<Seq<char>>, vals: Seq<Json>) -> Json {
    Json::Object(keys, vals)
}

/// The `finding_info` object of an OCSF finding.
pub open spec fn ocsf_info(f: Finding, index: nat, account: Seq<char>, time: i64) -> Json {
    obj(
        seq!["uid"@, "title"@, "desc"@, "types"@, "created_time"@, "modified_time"@, "product_uid"@, "data_sources"@],
        seq![
            Json::Str("iam-recon-"@ + account + "-"@ + nat_text(index + 1)),
            Json::Str(f.title@),
            Json::Str(f.description@),
            Json::Array(seq![Json::Str("Privilege Escalation"@)]),
            Json::Number(int_text(time as int)),
            Json::Number(int_text(time as int)),
            Json::Str("iam-recon"@),
            Json::Array(seq![Json::Str("AWS IAM"@)]),
        ],
    )
}

/// The `resources` array of an OCSF finding: the account.
pub open spec fn ocsf_resources(account: Seq<char>) -> Json {
    Json::Array(seq![obj(
        seq!["uid"@, "type"@, "cloud"@],
        seq![
            Json::Str(account),
            Json::Str("AWS Account"@),
            obj(seq!["provider"@, "account"@], seq![Json::Str("AWS"@), obj(seq!["uid"@], seq![Json::Str(account)])]),
        ],
    )])
}

/// The `metadata` object of an OCSF finding.
pub open spec fn ocsf_metadata(version: Seq<char>) -> Json {
    obj(
        seq!["version"@, "product"@, "log_name"@],
        seq![
            Json::Str("1.1.0"@),
            obj(seq!["name"@, "vendor_name"@, "version"@], seq![Json::Str("IAM Recon"@), Json::Str("iam-recon"@), Json::Str(version)]),
            Json::Str("iam-recon-analysis"@),
        ],
    )
}

/// The OCSF Security Finding for the finding numbered `index` (from zero).
pub open spec fn ocsf_finding(f: Finding, index: nat, account: Seq<char>, time: i64, version: Seq<char>) -> Json {
    obj(
        seq!["class_uid"@, "class_name"@, "category_uid"@, "category_name"@, "activity_id"@, "activity_name"@,
            "severity_id"@, "severity"@, "status_id"@, "status"@, "time"@, "message"@, "finding_info"@,
            "resources"@, "remediation"@, "impact"@, "metadata"@],
        seq![
            Json::Number("2001"@),
            Json::Str("Security Finding"@),
            Json::Number("2"@),
            Json::Str("Findings"@),
            Json::Number("1"@),
            Json::Str("Create"@),
            Json::Number(nat_text(ocsf_severity(f.severity) as nat)),
            Json::Str(severity_text(f.severity)),
            Json::Number("1"@),
            Json::Str("New"@),
            Json::Number(int_text(time as int)),
            Json::Str(f.title@),
            ocsf_info(f, index, account, time),
            ocsf_resources(account),
            obj(seq!["desc"@], seq![Json::Str(f.recommendation@)]),
            Json::Str(f.impact@),
            ocsf_metadata(version),
        ],
    )
}

/// The OCSF findings of a report, numbered from zero.
pub open spec fn ocsf_findings(fs: Seq<Finding>, account: Seq<char>, time: i64, version: Seq<char>) -> Seq<Json> {
    Seq::new(fs.len(), |i: int| ocsf_finding(fs[i], i as nat, account, time, version))
}

fn push_member(fields: &mut Vec<JsonField>, key: &str, value: JsonValue)
    ensures
        keys_view(final(fields)@) == keys_view(old(fields)@).push(key@),
        values_view(final(fields)@) == values_view(old(fields)@).push(value@),
{
    let ghost prev = fields@;
    fields.push(member(key, value));
    proof {
        assert(keys_view(fields@) =~= keys_view(prev).push(key@));
        assert(values_view(fields@) =~= values_view(prev).push(value@));
    }
}

fn single_string_array(s: &str) -> (r: JsonValue)
    ensures
        r@ == Json::Array(seq![Json::Str(s@)]),
{
    let mut items: Vec<JsonValue> = Vec::new();
    items.push(string_value(s));
    proof {
        assert(items_view(items@) =~= seq![Json::Str(s@)]);
    }
    array_of(items)
}

fn info_json(f: &Finding, index: usize, account: &str, time: i64) -> (r: JsonValue)
    requires
        index < usize::MAX,
    ensures
        r@ == ocsf_info(*f, index as nat, account@, time),
{
    let n = usize_text(index + 1);
    let uid = cat5("iam-recon-", account, "-", n.as_str(), "");
    let t = i64_text(time);
    let mut fields: Vec<JsonField> = Vec::new();
    push_member(&mut fields, "uid", string_value(uid.as_str()));
    push_member(&mut fields, "title", string_value(f.title.as_str()));
    push_member(&mut fields, "desc", string_value(f.description.as_str()));
    push_member(&mut fields, "types", single_string_array("Privilege Escalation"));
    push_member(&mut fields, "created_time", number_value(t.as_str()));
    push_member(&mut fields, "modified_time", number_value(t.as_str()));
    push_member(&mut fields, "product_uid", string_value("iam-recon"));
    push_member(&mut fields, "data_sources", single_string_array("AWS IAM"));
    proof {
        reveal_strlit("");
        assert(uid@ =~= "iam-recon-"@ + account@ + "-"@ + nat_text((index + 1) as nat));
        assert(keys_view(fields@) =~= seq!["uid"@, "title"@, "desc"@, "types"@, "created_time"@, "modified_time"@, "product_uid"@, "data_sources"@]);
        assert(values_view(fields@) =~= seq![
            Json::Str("iam-recon-"@ + account@ + "-"@ + nat_text((index + 1) as nat)),
            Json::Str(f.title@),
            Json::Str(f.description@),
            Json::Array(seq![Json::Str("Privilege Escalation"@)]),
            Json::Number(int_text(time as int)),
            Json::Number(int_text(time as int)),
            Json::Str("iam-recon"@),
            Json::Array(seq![Json::Str("AWS IAM"@)]),
        ]);
    }
    object_of(fields)
}

fn resources_json(account: &str) -> (r: JsonValue)
    ensures
        r@ == ocsf_resources(account@),
{
    let mut acct: Vec<JsonField> = Vec::new();
    push_member(&mut acct, "uid", string_value(account));
    let mut cloud: Vec<JsonField> = Vec::new();
    push_member(&mut cloud, "provider", string_value("AWS"));
    push_member(&mut cloud, "account", object_of(acct));
    let mut res: Vec<JsonField> = Vec::new();
    push_member(&mut res, "uid", string_value(account));
    push_member(&mut res, "type", string_value("AWS Account"));
    push_member(&mut res, "cloud", object_of(cloud));
    let mut items: Vec<JsonValue> = Vec::new();
    items.push(object_of(res));
    proof {
        assert(keys_view(acct@) =~= seq!["uid"@]);
        assert(values_view(acct@) =~= seq![Json::Str(account@)]);
        assert(keys_view(cloud@) =~= seq!["provider"@, "account"@]);
        assert(values_view(cloud@) =~= seq![Json::Str("AWS"@), obj(seq!["uid"@], seq![Json::Str(account@)])]);
        assert(keys_view(res@) =~= seq!["uid"@, "type"@, "cloud"@]);
        assert(values_view(res@) =~= seq![
            Json::Str(account@),
            Json::Str("AWS Account"@),
            obj(seq!["provider"@, "account"@], seq![Json::Str("AWS"@), obj(seq!["uid"@], seq![Json::Str(account@)])]),
        ]);
        assert(items_view(items@) =~= seq![items@[0]@]);
    }
    array_of(items)
}

fn metadata_json(version: &str) -> (r: JsonValue)
    ensures
        r@ == ocsf_metadata(version@),
{
    let mut product: Vec<JsonField> = Vec::new();
    push_member(&mut product, "name", string_value("IAM Recon"));
    push_member(&mut product, "vendor_name", string_value("iam-recon"));
    push_member(&mut product, "version", string_value(version));
    let mut meta: Vec<JsonField> = Vec::new();
    push_member(&mut meta, "version", string_value("1.1.0"));
    push_member(&mut meta, "product", object_of(product));
    push_member(&mut meta, "log_name", string_value("iam-recon-analysis"));
    proof {
        assert(keys_view(product@) =~= seq!["name"@, "vendor_name"@, "version"@]);
        assert(values_view(product@) =~= seq![Json::Str("IAM Recon"@), Json::Str("iam-recon"@), Json::Str(version@)]);
        assert(keys_view(meta@) =~= seq!["version"@, "product"@, "log_name"@]);
        assert(values_view(meta@) =~= seq![
            Json::Str("1.1.0"@),
            obj(seq!["name"@, "vendor_name"@, "version"@], seq![Json::Str("IAM Recon"@), Json::Str("iam-recon"@), Json::Str(version@)]),
            Json::Str("iam-recon-analysis"@),
        ]);
    }
    object_of(meta)
}

fn finding_json(f: &Finding, index: usize, account: &str, time: i64, version: &str) -> (r: JsonValue)
    requires
        index < usize::MAX,
    ensures
        r@ == ocsf_finding(*f, index as nat, account@, time, version@),
{
    let t = i64_text(time);
    let sev_id = usize_text(ocsf_severity_id(f.severity) as usize);
    let mut rem: Vec<JsonField> = Vec::new();
    push_member(&mut rem, "desc", string_value(f.recommendation.as_str()));
    let mut fields: Vec<JsonField> = Vec::new();
    push_member(&mut fields, "class_uid", number_value("2001"));
    push_member(&mut fields, "class_name", string_value("Security Finding"));
    push_member(&mut fields, "category_uid", number_value("2"));
    push_member(&mut fields, "category_name", string_value("Findings"));
    push_member(&mut fields, "activity_id", number_value("1"));
    push_member(&mut fields, "activity_name", string_value("Create"));
    push_member(&mut fields, "severity_id", number_value(sev_id.as_str()));
    push_member(&mut fields, "severity", string_value(f.severity.to_text().as_str()));
    push_member(&mut fields, "status_id", number_value("1"));
    push_member(&mut fields, "status", string_value("New"));
    push_member(&mut fields, "time", number_value(t.as_str()));
    push_member(&mut fields, "message", string_value(f.title.as_str()));
    push_member(&mut fields, "finding_info", info_json(f, index, account, time));
    push_member(&mut fields, "resources", resources_json(account));
    push_member(&mut fields, "remediation", object_of(rem));
    push_member(&mut fields, "impact", string_value(f.impact.as_str()));
    push_member(&mut fields, "metadata", metadata_json(version));
    proof {
        assert(keys_view(rem@) =~= seq!["desc"@]);
        assert(values_view(rem@) =~= seq![Json::Str(f.recommendation@)]);
        assert(keys_view(fields@) =~= seq!["class_uid"@, "class_name"@, "category_uid"@, "category_name"@, "activity_id"@, "activity_name"@,
            "severity_id"@, "severity"@, "status_id"@, "status"@, "time"@, "message"@, "finding_info"@,
            "resources"@, "remediation"@, "impact"@, "metadata"@]);
        assert(values_view(fields@) =~= seq![
            Json::Number("2001"@),
            Json::Str("Security Finding"@),
            Json::Number("2"@),
            Json::Str("Findings"@),
            Json::Number("1"@),
            Json::Str("Create"@),
            Json::Number(nat_text(ocsf_severity(f.severity) as nat)),
            Json::Str(severity_text(f.severity)),
            Json::Number("1"@),
            Json::Str("New"@),
            Json::Number(int_text(time as int)),
            Json::Str(f.title@),
            ocsf_info(*f, index as nat, account@, time),
            ocsf_resources(account@),
            obj(seq!["desc"@], seq![Json::Str(f.recommendation@)]),
            Json::Str(f.impact@),
            ocsf_metadata(version@),
        ]);
    }
    object_of(fields)
}

/// The report as a list of OCSF Security Findings, stamped with the time
/// the report was made; `product_version` names this program's version.
pub fn format_ocsf(report: &Report, product_version: &str) -> (r: JsonValue)
    ensures
        r@ == Json::Array(ocsf_findings(report.findings@, report.account_id@, report.generated_at.seconds, product_version@)),
{
    let ghost fs = report.findings@;
    let mut items: Vec<JsonValue> = Vec::new();
    let mut i: usize = 0;
    while i < report.findings.len()
        invariant
            i <= fs.len(),
            fs == report.findings@,
            items@.len() == i,
            forall|k: int| 0 <= k < i ==> (#[trigger] items@[k])@ == ocsf_finding(fs[k], k as nat, report.account_id@, report.generated_at.seconds, product_version@),
        decreases fs.len() - i,
    {
        let item = finding_json(&report.findings[i], i, report.account_id.as_str(), report.generated_at.seconds, product_version);
        items.push(item);
        i = i + 1;
    }
    proof {
        assert(items_view(items@) =~= ocsf_findings(fs, report.account_id@, report.generated_at.seconds, product_version@));
    }
    array_of(items)
}

} // verus!
