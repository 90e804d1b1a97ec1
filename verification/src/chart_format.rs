//! Telling chart formats apart.

use vstd::prelude::*;
use vstd::utf8::*;
use crate::text::{occurs_at, str_contains, str_trim_start, string_from_utf8, trimmed_start, chars_of};

verus! {

/// The format of a chart file.
#[derive(Clone, Copy, Debug, PartialEq, Eq, Structural)]
pub enum ChartFormat {
    Rpe,
    Pgr,
    Pec,
    Pbc,
}

/// The format of a chart given as text, from the text with its leading
/// whitespace removed: JSON with a `"META"` key is RPE, other JSON is
/// Phigros, anything else is PEC.
pub open spec fn spec_format_of_text(text: Seq<char>, trimmed: Seq<char>) -> ChartFormat {
    if trimmed.len() > 0 && trimmed[0] == '{' {
        if exists|i: int| occurs_at(text, "\"META\""@, i) {
            ChartFormat::Rpe
        } else {
            ChartFormat::Pgr
        }
    } else {
        ChartFormat::Pec
    }
}

/// The format of a chart whose info gives `format`, else guessed from
/// its bytes: text formats by `spec_format_of_text`, non-UTF-8 data is
/// the binary format.
pub open spec fn spec_infer_chart_format(format: Option<ChartFormat>, bytes: Seq<u8>) -> ChartFormat {
    match format {
        Some(f) => f,
        None => if valid_utf8(bytes) {
            spec_format_of_text(decode_utf8(bytes), trimmed_start(decode_utf8(bytes)))
        } else {
            ChartFormat::Pbc
        },
    }
}

/// The format of a chart given as `text`, whose leading whitespace removed
/// is `trimmed`.
pub fn format_of_text(text: &str, trimmed: &str) -> (f: ChartFormat)
    ensures
        f == spec_format_of_text(text@, trimmed@),
{
    let t = chars_of(trimmed);
    if t.len() > 0 && t[0] == '{' {
        if str_contains(text, "\"META\"") {
            ChartFormat::Rpe
        } else {
            ChartFormat::Pgr
        }
    } else {
        ChartFormat::Pec
    }
}

/// The format of a chart: the one its info names, else guessed from the
/// chart's bytes.
pub fn infer_chart_format(format: Option<ChartFormat>, bytes: &[u8]) -> (f: ChartFormat)
    ensures
        f == spec_infer_chart_format(format, bytes@),
{
    match format {
        Some(f) => f,
        None => match string_from_utf8(vstd::slice::slice_to_vec(bytes)) {
            Ok(text) => {
                let trimmed = str_trim_start(text.as_str());
                format_of_text(text.as_str(), trimmed)
            },
            Err(_) => ChartFormat::Pbc,
        },
    }
}

} // verus!
