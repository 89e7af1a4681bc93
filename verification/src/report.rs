//! What a run tells the user: which events are logged, and the summary of
//! what was written.

use vstd::prelude::*;
use vstd::string::StringExecFns;
use crate::plan::Format;
use crate::text::{decimal, push_decimal};

verus! {

/// How much an event matters.
#[derive(Debug, Clone, Copy, PartialEq, Eq, Structural)]
pub enum LogLevel {
    Info,
    Error,
}

/// Whether an event of the given level is logged. A quiet run drops
/// information; errors are always logged.
pub fn is_logged(level: LogLevel, quiet: bool) -> (logged: bool)
    ensures
        logged == (level == LogLevel::Error || !quiet),
{
    match level {
        LogLevel::Info => !quiet,
        LogLevel::Error => true,
    }
}

/// The summary of a run that wrote `count` files of the given format from
/// `input` to `output`.
pub open spec fn summary_text(
    format: Format,
    count: usize,
    output: Seq<char>,
    input: Seq<char>,
) -> Seq<char> {
    "Wrote "@ + decimal(count as nat) + " "@ + format.label_text() + " file"@ + (if count == 1 {
        ""@
    } else {
        "s"@
    }) + " to "@ + output + " (input: "@ + input + ")"@
}

/// Words the summary of a run: how many files of which format were written,
/// where to, and from which input.
pub fn render_summary(format: Format, count: usize, output: &str, input: &str) -> (summary: String)
    ensures
        summary@ == summary_text(format, count, output@, input@),
{
    let mut summary = String::new();
    summary.append("Wrote ");
    push_decimal(&mut summary, count as u128);
    summary.append(" ");
    summary.append(format.label());
    summary.append(" file");
    if count == 1 {
        summary.append("");
    } else {
        summary.append("s");
    }
    summary.append(" to ");
    summary.append(output);
    summary.append(" (input: ");
    summary.append(input);
    summary.append(")");
    summary
}

} // verus!
