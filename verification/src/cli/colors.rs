//! Terminal colours. Colour codes are written only when colour is on;
//! compact output for machine readers never has colour.
use vstd::prelude::*;
use crate::text::{owned, join2, cat3, cat5, usize_text, nat_text, str_eq, byte_len, str_byte_len};
use crate::model::finding::Severity;

verus! {

/// Whether compact output was asked for and whether colour is in use.
/// Each is fixed the first time it is set or read.
pub struct ColorState {
    pub compact_mode: Option<bool>,
    pub use_color: Option<bool>,
    pub stdout_is_terminal: bool,
}

impl ColorState {
    /// A state where nothing is fixed yet.
    pub fn new(stdout_is_terminal: bool) -> (r: ColorState)
        ensures
            r.compact_mode is None,
            r.use_color is None,
            r.stdout_is_terminal == stdout_is_terminal,
    {
        ColorState { compact_mode: None, use_color: None, stdout_is_terminal }
    }

    /// Sets compact mode, unless it was set before.
    pub fn set_compact(&mut self, v: bool)
        ensures
            final(self).compact_mode == (match old(self).compact_mode {
                Some(x) => Some(x),
                None => Some(v),
            }),
            final(self).use_color == old(self).use_color,
            final(self).stdout_is_terminal == old(self).stdout_is_terminal,
    {
        if self.compact_mode.is_none() {
            self.compact_mode = Some(v);
        }
    }

    /// Whether compact mode is on (off when it was never set).
    pub fn compact(&self) -> (r: bool)
        ensures
            r == (self.compact_mode == Some(true)),
    {
        match self.compact_mode {
            Some(v) => v,
            None => false,
        }
    }

    /// Whether colour is on: fixed at the first call to be off in compact
    /// mode and on only when standard output is a terminal.
    pub fn enabled(&mut self) -> (r: bool)
        ensures
            r == (match old(self).use_color {
                Some(x) => x,
                None => !(old(self).compact_mode == Some(true)) && old(self).stdout_is_terminal,
            }),
            final(self).use_color == Some(r),
            final(self).compact_mode == old(self).compact_mode,
            final(self).stdout_is_terminal == old(self).stdout_is_terminal,
    {
        match self.use_color {
            Some(v) => v,
            None => {
                let v = !self.compact() && self.stdout_is_terminal;
                self.use_color = Some(v);
                v
            },
        }
    }
}

/// `s` wrapped in the escape sequence for `code` when colour is on.
pub open spec fn painted(code: Seq<char>, s: Seq<char>, color: bool) -> Seq<char> {
    if color {
        "\x1b["@ + code + "m"@ + s + "\x1b[0m"@
    } else {
        s
    }
}

/// `s` in the colour `code`, when colour is on.
pub fn paint(code: &str, s: &str, color: bool) -> (r: String)
    ensures
        r@ == painted(code@, s@, color),
{
    if color {
        let head = cat3("\x1b[", code, "m");
        cat3(head.as_str(), s, "\x1b[0m")
    } else {
        owned(s)
    }
}

pub fn red(s: &str, color: bool) -> (r: String) ensures r@ == painted("31"@, s@, color) { paint("31", s, color) }
pub fn green(s: &str, color: bool) -> (r: String) ensures r@ == painted("32"@, s@, color) { paint("32", s, color) }
pub fn yellow(s: &str, color: bool) -> (r: String) ensures r@ == painted("33"@, s@, color) { paint("33", s, color) }
pub fn blue(s: &str, color: bool) -> (r: String) ensures r@ == painted("34"@, s@, color) { paint("34", s, color) }
pub fn magenta(s: &str, color: bool) -> (r: String) ensures r@ == painted("35"@, s@, color) { paint("35", s, color) }
pub fn cyan(s: &str, color: bool) -> (r: String) ensures r@ == painted("36"@, s@, color) { paint("36", s, color) }
pub fn white(s: &str, color: bool) -> (r: String) ensures r@ == painted("37"@, s@, color) { paint("37", s, color) }
pub fn gray(s: &str, color: bool) -> (r: String) ensures r@ == painted("90"@, s@, color) { paint("90", s, color) }
pub fn bold(s: &str, color: bool) -> (r: String) ensures r@ == painted("1"@, s@, color) { paint("1", s, color) }
pub fn bold_red(s: &str, color: bool) -> (r: String) ensures r@ == painted("1;31"@, s@, color) { paint("1;31", s, color) }
pub fn bold_green(s: &str, color: bool) -> (r: String) ensures r@ == painted("1;32"@, s@, color) { paint("1;32", s, color) }
pub fn bold_yellow(s: &str, color: bool) -> (r: String) ensures r@ == painted("1;33"@, s@, color) { paint("1;33", s, color) }
pub fn bold_blue(s: &str, color: bool) -> (r: String) ensures r@ == painted("1;34"@, s@, color) { paint("1;34", s, color) }
pub fn bold_magenta(s: &str, color: bool) -> (r: String) ensures r@ == painted("1;35"@, s@, color) { paint("1;35", s, color) }
pub fn bold_cyan(s: &str, color: bool) -> (r: String) ensures r@ == painted("1;36"@, s@, color) { paint("1;36", s, color) }
pub fn bold_white(s: &str, color: bool) -> (r: String) ensures r@ == painted("1;37"@, s@, color) { paint("1;37", s, color) }
pub fn dim(s: &str, color: bool) -> (r: String) ensures r@ == painted("2"@, s@, color) { paint("2", s, color) }

/// The colour code of a severity badge.
pub open spec fn badge_code(s: Severity) -> Seq<char> {
    match s {
        Severity::High => "1;31"@,
        Severity::Medium => "1;33"@,
        Severity::Low => "34"@,
    }
}

/// The text of a severity badge.
pub open spec fn badge_text(s: Severity) -> Seq<char> {
    match s {
        Severity::High => "[HIGH]"@,
        Severity::Medium => "[MEDIUM]"@,
        Severity::Low => "[LOW]"@,
    }
}

/// A coloured `[HIGH]`, `[MEDIUM]` or `[LOW]`.
pub fn severity_badge(s: Severity, color: bool) -> (r: String)
    ensures
        r@ == painted(badge_code(s), badge_text(s), color),
{
    match s {
        Severity::High => bold_red("[HIGH]", color),
        Severity::Medium => bold_yellow("[MEDIUM]", color),
        Severity::Low => blue("[LOW]", color),
    }
}

/// `n` copies of the rule character `─`.
pub open spec fn rule_line(n: nat) -> Seq<char> {
    Seq::new(n, |i: int| '─')
}

fn rule(n: usize) -> (r: String)
    ensures
        r@ == rule_line(n as nat),
{
    let mut s = String::new();
    let mut i: usize = 0;
    while i < n
        invariant
            i <= n,
            s@ == rule_line(i as nat),
        decreases n - i,
    {
        s.push('─');
        proof {
            assert(s@ =~= rule_line((i + 1) as nat));
        }
        i = i + 1;
    }
    s
}

/// A section header: a rule four characters longer than the title's
/// length in bytes, the title indented, and the rule again.
pub open spec fn header_text(title: Seq<char>, color: bool) -> Seq<char> {
    let n = byte_len(title) + 4;
    let line = rule_line((if n <= usize::MAX { n } else { usize::MAX as int }) as nat);
    "\n"@ + painted("2"@, line, color) + "\n  "@ + painted("1;36"@, title, color) + "\n"@ + painted("2"@, line, color)
}

pub fn header(title: &str, color: bool) -> (r: String)
    ensures
        r@ == header_text(title@, color),
{
    let n = str_byte_len(title);
    let line = rule(if n <= usize::MAX - 4 { n + 4 } else { usize::MAX });
    let d = dim(line.as_str(), color);
    let t = bold_cyan(title, color);
    let a = cat5("\n", d.as_str(), "\n  ", t.as_str(), "\n");
    join2(a.as_str(), d.as_str())
}

/// A sub-section divider: the label in bold and a rule that fills up to
/// fifty characters of the label's length in bytes.
pub open spec fn divider_text(label: Seq<char>, color: bool) -> Seq<char> {
    let len = byte_len(label);
    let pad: nat = if len >= 50 { 0 } else { (50 - len) as nat };
    "  "@ + painted("1"@, label, color) + " "@ + painted("2"@, rule_line(pad), color)
}

pub fn divider(label: &str, color: bool) -> (r: String)
    ensures
        r@ == divider_text(label@, color),
{
    let len = str_byte_len(label);
    let pad: usize = if len >= 50 { 0 } else { 50 - len };
    let b = bold(label, color);
    let line = rule(pad);
    let d = dim(line.as_str(), color);
    let a = cat3("  ", b.as_str(), " ");
    join2(a.as_str(), d.as_str())
}

/// A key and its value.
pub fn kv(key: &str, val: &str, color: bool) -> (r: String)
    ensures
        r@ == "  "@ + painted("2"@, key@, color) + "  "@ + painted("1;37"@, val@, color),
{
    let k = dim(key, color);
    let v = bold_white(val, color);
    let a = cat3("  ", k.as_str(), "  ");
    join2(a.as_str(), v.as_str())
}

/// A counter in a summary line.
pub fn stat(n: usize, color: bool) -> (r: String)
    ensures
        r@ == painted("1;36"@, nat_text(n as nat), color),
{
    let t = usize_text(n);
    bold_cyan(t.as_str(), color)
}

/// The colour code of a principal's name: administrators bold red, users
/// cyan, roles magenta.
pub open spec fn name_code(is_admin: bool, is_user: bool) -> Seq<char> {
    if is_admin { "1;31"@ } else if is_user { "36"@ } else { "35"@ }
}

pub fn node_name(name: &str, is_admin: bool, is_user: bool, color: bool) -> (r: String)
    ensures
        r@ == painted(name_code(is_admin, is_user), name@, color),
{
    if is_admin {
        bold_red(name, color)
    } else if is_user {
        cyan(name, color)
    } else {
        magenta(name, color)
    }
}

/// The colour code of an edge's short reason.
pub open spec fn label_code(short_reason: Seq<char>) -> Seq<char> {
    if short_reason == "IAM"@ { "1;31"@ }
    else if short_reason == "STS"@ { "1;34"@ }
    else if short_reason == "Lambda"@ { "1;33"@ }
    else if short_reason == "EC2"@ { "1;32"@ }
    else if short_reason == "SSM"@ { "33"@ }
    else if short_reason == "CodeBuild"@ { "35"@ }
    else if short_reason == "CloudFormation"@ { "36"@ }
    else if short_reason == "SageMaker"@ { "34"@ }
    else if short_reason == "AutoScaling"@ { "32"@ }
    else if short_reason == "Admin"@ { "1;31"@ }
    else { "37"@ }
}

pub fn edge_label(short_reason: &str, color: bool) -> (r: String)
    ensures
        r@ == painted(label_code(short_reason@), short_reason@, color),
{
    let s = short_reason;
    if str_eq(s, "IAM") {
        bold_red(s, color)
    } else if str_eq(s, "STS") {
        bold_blue(s, color)
    } else if str_eq(s, "Lambda") {
        bold_yellow(s, color)
    } else if str_eq(s, "EC2") {
        bold_green(s, color)
    } else if str_eq(s, "SSM") {
        yellow(s, color)
    } else if str_eq(s, "CodeBuild") {
        magenta(s, color)
    } else if str_eq(s, "CloudFormation") {
        cyan(s, color)
    } else if str_eq(s, "SageMaker") {
        blue(s, color)
    } else if str_eq(s, "AutoScaling") {
        green(s, color)
    } else if str_eq(s, "Admin") {
        bold_red(s, color)
    } else {
        white(s, color)
    }
}

/// A success message.
pub fn ok(s: &str, color: bool) -> (r: String) ensures r@ == painted("1;32"@, s@, color) { bold_green(s, color) }
/// A warning.
pub fn warn(s: &str, color: bool) -> (r: String) ensures r@ == painted("1;33"@, s@, color) { bold_yellow(s, color) }
/// An error.
pub fn danger(s: &str, color: bool) -> (r: String) ensures r@ == painted("1;31"@, s@, color) { bold_red(s, color) }
/// A link, underlined blue.
pub fn url(s: &str, color: bool) -> (r: String) ensures r@ == painted("4;34"@, s@, color) { paint("4;34", s, color) }

} // verus!
