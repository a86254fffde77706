//! Per-call telemetry: one structured line per tool call or item operation.
//!
//! The line is `haven-telemetry ` followed by a compact JSON object with the
//! keys in sorted order (`error_class`, `latency_ms`, `project_passed`,
//! `project_resolved`, `tool`), so it is both grep-able and machine-parseable.
//! When `project_passed` and `project_resolved` differ, the sticky current
//! project was in play.

use vstd::prelude::*;
use vstd::utf8::encode_utf8;
use crate::error::{error_code_spec, HavenError};
use crate::json::{json_str, push_json_str};
use crate::text::{nat_digits, push_str, push_u128};

verus! {

/// One per-call telemetry record.
#[derive(Debug, Clone, PartialEq, Eq)]
pub struct TelemetryLine {
    /// Tool or operation name (`haven_next`, `item.complete`, ...).
    pub tool: String,
    /// The `project` selector as the caller gave it (`None`: not given).
    pub project_passed: Option<String>,
    /// The project key actually resolved (`None` when resolution did not run).
    pub project_resolved: Option<String>,
    /// `ok` on success, else the error's stable code.
    pub error_class: String,
    /// Wall-clock duration of the call in whole milliseconds.
    pub latency_ms: u128,
}

/// The `error_class` of a result: `ok` for success, else the error's code.
pub open spec fn error_class_spec<T>(result: Result<T, HavenError>) -> Seq<char> {
    match result {
        Ok(_) => "ok"@,
        Err(e) => error_code_spec(e),
    }
}

/// Bucket a result into the `error_class` field: `ok` for success, otherwise the
/// error's stable code (`invalid`, `not_found`, `conflict`, ...), so the buckets
/// cannot drift from the error envelope.
pub fn error_class<T>(result: &Result<T, HavenError>) -> (r: &'static str)
    ensures
        r@ == error_class_spec(*result),
{
    match result {
        Ok(_) => "ok",
        Err(e) => e.code(),
    }
}

/// JSON for an optional string: the string literal, or `null`.
pub open spec fn opt_json(o: Option<String>) -> Seq<char> {
    match o {
        Some(s) => json_str(s@),
        None => "null"@,
    }
}

/// The rendered line: the prefix and the JSON object, keys in sorted order.
pub open spec fn render_spec(l: TelemetryLine) -> Seq<char> {
    "haven-telemetry {\"error_class\":"@ + json_str(l.error_class@) + ",\"latency_ms\":"@
        + nat_digits(l.latency_ms as nat) + ",\"project_passed\":"@ + opt_json(l.project_passed)
        + ",\"project_resolved\":"@ + opt_json(l.project_resolved) + ",\"tool\":"@ + json_str(
        l.tool@,
    ) + "}"@
}

fn push_opt(out: &mut String, o: &Option<String>)
    ensures
        final(out)@ == old(out)@ + opt_json(*o),
{
    match o {
        Some(s) => push_json_str(out, s.as_str()),
        None => push_str(out, "null"),
    }
}

impl TelemetryLine {
    /// Build a line; the fields are taken as given, so the caller decides what
    /// each means at its choke-point.
    pub fn new(
        tool: &str,
        project_passed: Option<String>,
        project_resolved: Option<String>,
        error_class: &str,
        latency_ms: u128,
    ) -> (l: TelemetryLine)
        ensures
            l.tool@ == tool@,
            l.project_passed == project_passed,
            l.project_resolved == project_resolved,
            l.error_class@ == error_class@,
            l.latency_ms == latency_ms,
    {
        TelemetryLine {
            tool: crate::text::string_of(tool),
            project_passed,
            project_resolved,
            error_class: crate::text::string_of(error_class),
            latency_ms,
        }
    }

    /// Render the single structured line, without a trailing newline. JSON
    /// numbers here are 64-bit, so the latency must fit in a `u64`.
    pub fn render(&self) -> (s: String)
        requires
            self.latency_ms <= u64::MAX,
        ensures
            s@ == render_spec(*self),
    {
        let mut out = String::new();
        push_str(&mut out, "haven-telemetry {\"error_class\":");
        push_json_str(&mut out, self.error_class.as_str());
        push_str(&mut out, ",\"latency_ms\":");
        push_u128(&mut out, self.latency_ms);
        push_str(&mut out, ",\"project_passed\":");
        push_opt(&mut out, &self.project_passed);
        push_str(&mut out, ",\"project_resolved\":");
        push_opt(&mut out, &self.project_resolved);
        push_str(&mut out, ",\"tool\":");
        push_json_str(&mut out, self.tool.as_str());
        push_str(&mut out, "}");
        assert(out@ =~= render_spec(*self));
        out
    }

    /// Append the line and a newline, UTF-8 encoded, to a byte sink.
    pub fn write_to(&self, w: &mut Vec<u8>) -> (r: Result<(), HavenError>)
        requires
            self.latency_ms <= u64::MAX,
        ensures
            r is Ok,
            final(w)@ == old(w)@ + encode_utf8(render_spec(*self) + seq!['\n']),
    {
        let mut line = self.render();
        crate::text::push_char(&mut line, '\n');
        assert(line@ =~= render_spec(*self) + seq!['\n']);
        let bytes = line.as_str().as_bytes();
        assert(bytes@ == encode_utf8(render_spec(*self) + seq!['\n']));
        let ghost start = w@;
        let mut i: usize = 0;
        while i < bytes.len()
            invariant
                i <= bytes.len(),
                w@ == start + bytes@.take(i as int),
            decreases bytes.len() - i,
        {
            w.push(bytes[i]);
            assert(bytes@.take(i + 1) =~= bytes@.take(i as int).push(bytes@[i as int]));
            i = i + 1;
        }
        assert(bytes@.take(bytes.len() as int) =~= bytes@);
        Ok(())
    }
}

} // verus!

verus! {

// ---- one line per call ------------------------------------------------------

/// `s` holds no line break.
pub open spec fn one_line(s: Seq<char>) -> bool {
    forall|i: int| 0 <= i < s.len() ==> #[trigger] s[i] != '\n'
}

proof fn lemma_one_line_concat(a: Seq<char>, b: Seq<char>)
    requires
        one_line(a),
        one_line(b),
    ensures
        one_line(a + b),
{
    assert forall|i: int| 0 <= i < (a + b).len() implies #[trigger] (a + b)[i] != '\n' by {
        if i < a.len() {
            assert((a + b)[i] == a[i]);
        } else {
            assert((a + b)[i] == b[i - a.len()]);
        }
    }
}

proof fn lemma_escape_char_one_line(c: char)
    ensures
        one_line(crate::json::json_escape_char(c)),
{
    if (c as int) < 0x20 && c != '"' && c != '\\' && c != '\n' && c != '\r' && c != '\t' && c != '\x08'
        && c != '\x0C' {
        let ci = c as int;
        let hi = ci / 16;
        let lo = ci % 16;
        assert(0 <= hi < 16 && 0 <= lo < 16) by (nonlinear_arith)
            requires
                0 <= ci < 0x20,
                hi == ci / 16,
                lo == ci % 16,
        ;
        assert(crate::json::hex_digit(hi) != '\n');
        assert(crate::json::hex_digit(lo) != '\n');
    }
}

proof fn lemma_escaped_one_line(s: Seq<char>)
    ensures
        one_line(crate::json::json_escaped(s)),
    decreases s.len(),
{
    if s.len() > 0 {
        lemma_escaped_one_line(s.drop_last());
        let c = s.last();
        let e = crate::json::json_escape_char(c);
        lemma_escape_char_one_line(c);
        lemma_one_line_concat(crate::json::json_escaped(s.drop_last()), e);
    }
}

proof fn lemma_json_str_one_line(s: Seq<char>)
    ensures
        one_line(json_str(s)),
{
    lemma_escaped_one_line(s);
    lemma_one_line_concat(seq!['"'], crate::json::json_escaped(s));
    lemma_one_line_concat(seq!['"'] + crate::json::json_escaped(s), seq!['"']);
}

proof fn lemma_digits_one_line(n: nat)
    ensures
        one_line(nat_digits(n)),
    decreases n,
{
    if n >= 10 {
        lemma_digits_one_line((n / 10) as nat);
        lemma_one_line_concat(nat_digits((n / 10) as nat), seq![crate::text::digit_char((n % 10) as int)]);
        assert(nat_digits(n) == nat_digits((n / 10) as nat) + seq![crate::text::digit_char((n % 10) as int)]);
    }
}

proof fn lemma_opt_json_one_line(o: Option<String>)
    ensures
        one_line(opt_json(o)),
{
    match o {
        Some(s) => lemma_json_str_one_line(s@),
        None => {
            reveal_strlit("null");
        },
    }
}

/// A telemetry line is one line: its rendering holds no line break, whatever
/// the tool name, projects or error class hold (JSON escapes them).
pub proof fn lemma_render_is_one_line(l: TelemetryLine)
    ensures
        one_line(render_spec(l)),
{
    reveal_strlit("haven-telemetry {\"error_class\":");
    reveal_strlit(",\"latency_ms\":");
    reveal_strlit(",\"project_passed\":");
    reveal_strlit(",\"project_resolved\":");
    reveal_strlit(",\"tool\":");
    reveal_strlit("}");
    let p0 = "haven-telemetry {\"error_class\":"@;
    let p1 = ",\"latency_ms\":"@;
    let p2 = ",\"project_passed\":"@;
    let p3 = ",\"project_resolved\":"@;
    let p4 = ",\"tool\":"@;
    let p5 = "}"@;
    assert(one_line(p0) && one_line(p1) && one_line(p2) && one_line(p3) && one_line(p4) && one_line(p5));
    lemma_json_str_one_line(l.error_class@);
    lemma_json_str_one_line(l.tool@);
    lemma_digits_one_line(l.latency_ms as nat);
    lemma_opt_json_one_line(l.project_passed);
    lemma_opt_json_one_line(l.project_resolved);
    let a1 = p0 + json_str(l.error_class@);
    lemma_one_line_concat(p0, json_str(l.error_class@));
    let a2 = a1 + p1;
    lemma_one_line_concat(a1, p1);
    let a3 = a2 + nat_digits(l.latency_ms as nat);
    lemma_one_line_concat(a2, nat_digits(l.latency_ms as nat));
    let a4 = a3 + p2;
    lemma_one_line_concat(a3, p2);
    let a5 = a4 + opt_json(l.project_passed);
    lemma_one_line_concat(a4, opt_json(l.project_passed));
    let a6 = a5 + p3;
    lemma_one_line_concat(a5, p3);
    let a7 = a6 + opt_json(l.project_resolved);
    lemma_one_line_concat(a6, opt_json(l.project_resolved));
    let a8 = a7 + p4;
    lemma_one_line_concat(a7, p4);
    let a9 = a8 + json_str(l.tool@);
    lemma_one_line_concat(a8, json_str(l.tool@));
    lemma_one_line_concat(a9, p5);
    assert(render_spec(l) == a9 + p5);
}

} // verus!
