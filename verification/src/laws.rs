//! Relations between the crate's operations, proved once and for all: the
//! link between validation and strict parsing. (The parse/stringify round
//! trip lives in its own module.)

use vstd::prelude::*;
use crate::parser::classify_line;
use crate::parser::first_violation_from;
use crate::parser::spec_first_violation;
use crate::parser::LineClass;
use crate::validator::line_diags;
use crate::validator::spec_validate;
use crate::validator::validate_from;
use crate::validator::DiagModel;
use crate::validator::ErrorType;
use crate::validator::ScanState;
use crate::validator::initial_state;
use crate::text::spec_lines;

verus! {

/// The diagnostic kinds that strict parsing also rejects. The validator's
/// other kinds concern level structure, which the tokenizer never checks.
pub open spec fn strict_kind(k: ErrorType) -> bool {
    k == ErrorType::SpaceIndentation || k == ErrorType::EmptyKey || k == ErrorType::TabInValue
}

pub open spec fn has_strict_diag(ds: Seq<DiagModel>) -> bool {
    exists|t: int| 0 <= t < ds.len() && strict_kind((#[trigger] ds[t]).kind)
}

proof fn lemma_has_strict_concat(a: Seq<DiagModel>, b: Seq<DiagModel>)
    ensures
        has_strict_diag(a + b) == (has_strict_diag(a) || has_strict_diag(b)),
{
    if has_strict_diag(a + b) {
        let t = choose|t: int| 0 <= t < (a + b).len() && strict_kind((a + b)[t].kind);
        if t < a.len() {
            assert(a[t] == (a + b)[t]);
            assert(has_strict_diag(a));
        } else {
            assert(b[t - a.len()] == (a + b)[t]);
            assert(has_strict_diag(b));
        }
    }
    if has_strict_diag(a) {
        let t = choose|t: int| 0 <= t < a.len() && strict_kind(a[t].kind);
        assert((a + b)[t] == a[t]);
        assert(has_strict_diag(a + b));
    }
    if has_strict_diag(b) {
        let t = choose|t: int| 0 <= t < b.len() && strict_kind(b[t].kind);
        assert((a + b)[a.len() + t] == b[t]);
        assert(has_strict_diag(a + b));
    }
}

/// One line carries a diagnostic of the strict kinds exactly when the strict
/// tokenizer rejects it: the two passes extract key and value the same way.
proof fn lemma_line_strict_kinds(l: Seq<char>, ln: int, st: ScanState)
    ensures
        has_strict_diag(line_diags(l, ln, st).0) == (classify_line(l) is SpaceIndent
            || classify_line(l) is NoKey || classify_line(l) is TabbedValue),
{
    let ds = line_diags(l, ln, st).0;
    match classify_line(l) {
        LineClass::SpaceIndent => {
            assert(strict_kind(ds[0].kind));
            assert(has_strict_diag(ds));
        },
        LineClass::NoKey => {
            assert(strict_kind(ds[ds.len() - 1].kind));
            assert(has_strict_diag(ds));
        },
        LineClass::TabbedValue => {
            assert(strict_kind(ds[ds.len() - 1].kind));
            assert(has_strict_diag(ds));
        },
        _ => {
            assert(!has_strict_diag(ds)) by {
                if has_strict_diag(ds) {
                    let t = choose|t: int| 0 <= t < ds.len() && strict_kind(ds[t].kind);
                    assert(!strict_kind(ds[t].kind));
                }
            }
        },
    }
}

proof fn lemma_validate_strict_kinds(lines: Seq<Seq<char>>, i: int, st: ScanState, acc: Seq<
    DiagModel,
>)
    ensures
        has_strict_diag(validate_from(lines, i, st, acc)) == (has_strict_diag(acc)
            || first_violation_from(lines, i) is Some),
    decreases lines.len() - i,
{
    if 0 <= i && i < lines.len() {
        let step = line_diags(lines[i], i + 1, st);
        lemma_line_strict_kinds(lines[i], i + 1, st);
        lemma_has_strict_concat(acc, step.0);
        lemma_validate_strict_kinds(lines, i + 1, step.1, acc + step.0);
    }
}

/// Strict parsing succeeds exactly when validation reports no diagnostic of
/// the strict kinds (space indentation, empty key, tab inside a value).
pub proof fn lemma_strict_parse_iff_no_strict_diag(text: Seq<char>)
    ensures
        spec_first_violation(text) is None <==> !has_strict_diag(spec_validate(text)),
{
    lemma_validate_strict_kinds(spec_lines(text), 0, initial_state(), Seq::empty());
}

/// Text that validates cleanly parses in strict mode: when `validate` returns
/// no diagnostics, `parse_strict` finds no violation and succeeds. (The
/// converse does not hold: strict parsing checks no level structure, so a
/// text with only level diagnostics, such as an orphaned line, still parses.)
pub proof fn lemma_clean_text_parses_strict(text: Seq<char>)
    ensures
        spec_validate(text).len() == 0 ==> spec_first_violation(text) is None,
{
    lemma_strict_parse_iff_no_strict_diag(text);
}

} // verus!
