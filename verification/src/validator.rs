//! TAML validator: a single pass over the raw text that collects every
//! structural diagnostic, each with its 1-based line number, without building
//! a tree. It tracks only the previous content line's level and whether that
//! line carried a value.

use vstd::prelude::*;
use vstd::string::StringExecFns;
use crate::num::u_dec_str;
use crate::num::u64_digits;
use crate::text::all_ws;
use crate::text::chars_to_string;
use crate::text::find_char;
use crate::text::find_in;
use crate::text::run_end;
use crate::text::scan_first_non_ws;
use crate::text::scan_run_end;
use crate::text::scan_trim_end;
use crate::text::spec_lines;
use crate::text::split_lines;
use crate::text::starts_hash_after_ws;
use crate::text::str_to_chars;
use crate::text::subrange_chars;
use crate::text::trim_end_at;

verus! {

/// Types of validation errors.
#[derive(Debug, Clone, Copy, PartialEq, Eq, Structural)]
pub enum ErrorType {
    SpaceIndentation,
    TabInKey,
    TabInValue,
    InconsistentIndent,
    OrphanedLine,
    /// Reserved in the taxonomy; this pass never produces it.
    ParentWithValue,
    EmptyKey,
    MixedIndent,
}

/// Validation error.
#[derive(Debug, PartialEq)]
pub struct ValidationError {
    pub line: usize,
    pub error_type: ErrorType,
    pub message: String,
}

/// Model of a reported diagnostic.
pub struct DiagModel {
    pub line: int,
    pub kind: ErrorType,
    pub message: Seq<char>,
}

impl View for ValidationError {
    type V = DiagModel;

    open spec fn view(&self) -> DiagModel {
        DiagModel { line: self.line as int, kind: self.error_type, message: self.message@ }
    }
}

/// Views of a diagnostic vector.
pub open spec fn diags_view(s: Seq<ValidationError>) -> Seq<DiagModel> {
    Seq::new(
        s.len(),
        |i: int|
            if 0 <= i < s.len() {
                s[i]@
            } else {
                DiagModel { line: 0, kind: ErrorType::ParentWithValue, message: Seq::empty() }
            },
    )
}

/// The scan state carried from one content line to the next.
pub struct ScanState {
    pub prev_level: Option<int>,
    pub prev_has_value: bool,
}

pub open spec fn initial_state() -> ScanState {
    ScanState { prev_level: None, prev_has_value: false }
}

pub open spec fn vmsg_space() -> Seq<char> {
    "Indentation must use tabs, not spaces"@
}

pub open spec fn vmsg_mixed() -> Seq<char> {
    "Mixed spaces and tabs in indentation"@
}

pub open spec fn vmsg_inconsistent(prev: int, level: int) -> Seq<char> {
    "Invalid indentation level (skips levels from "@ + u_dec_str(prev) + " to "@ + u_dec_str(
        level,
    ) + ")"@
}

pub open spec fn vmsg_orphan() -> Seq<char> {
    "Indented line has no parent (previous line was a key-value pair)"@
}

pub open spec fn vmsg_empty_key() -> Seq<char> {
    "Line has no key"@
}

pub open spec fn vmsg_tab_key(key: Seq<char>) -> Seq<char> {
    "Key \""@ + key + "\" contains invalid tab character"@
}

pub open spec fn vmsg_tab_value() -> Seq<char> {
    "Value contains invalid tab character"@
}

pub open spec fn diag(ln: int, kind: ErrorType, message: Seq<char>) -> DiagModel {
    DiagModel { line: ln, kind, message }
}

/// The diagnostics one line emits, and the state passed on, mirroring the
/// scan exactly: blank and comment lines are skipped; a leading space stops
/// the line's checks; a space right after the leading tabs is mixed
/// indentation; level jumps and orphans are judged against the textually
/// preceding content line; then key and value are extracted as the tokenizer
/// does, and an empty key skips the two tab checks.
pub open spec fn line_diags(l: Seq<char>, ln: int, st: ScanState) -> (Seq<DiagModel>, ScanState) {
    let n = l.len() as int;
    if all_ws(l, 0, n) || starts_hash_after_ws(l, 0, n) {
        (Seq::empty(), st)
    } else if l[0] == ' ' {
        (seq![diag(ln, ErrorType::SpaceIndentation, vmsg_space())], st)
    } else {
        let level = run_end(l, 0, n, '\t');
        let d0: Seq<DiagModel> = if level < n && l[level] == ' ' {
            seq![diag(ln, ErrorType::MixedIndent, vmsg_mixed())]
        } else {
            Seq::empty()
        };
        if all_ws(l, level, n) {
            (d0, st)
        } else {
            let d1 = d0 + (if st.prev_level is Some && level > st.prev_level->0 + 1 {
                seq![
                    diag(
                        ln,
                        ErrorType::InconsistentIndent,
                        vmsg_inconsistent(st.prev_level->0, level),
                    ),
                ]
            } else {
                Seq::empty()
            });
            let d2 = d1 + (if st.prev_level is Some && level > st.prev_level->0
                && st.prev_has_value {
                seq![diag(ln, ErrorType::OrphanedLine, vmsg_orphan())]
            } else {
                Seq::empty()
            });
            let t = find_in(l, level, n, '\t');
            let key = if t < n {
                l.subrange(level, t)
            } else {
                l.subrange(level, trim_end_at(l, level, n))
            };
            let value: Option<Seq<char>> = if t < n {
                let vstart = run_end(l, t, n, '\t');
                Some(l.subrange(vstart, trim_end_at(l, vstart, n)))
            } else {
                None
            };
            let st2 = ScanState { prev_level: Some(level), prev_has_value: value is Some };
            if key.len() == 0 {
                (d2 + seq![diag(ln, ErrorType::EmptyKey, vmsg_empty_key())], st2)
            } else {
                let d3 = d2 + (if find_in(key, 0, key.len() as int, '\t') < key.len() {
                    seq![diag(ln, ErrorType::TabInKey, vmsg_tab_key(key))]
                } else {
                    Seq::empty()
                });
                let d4 = d3 + (if value is Some && find_in(
                    value->0,
                    0,
                    value->0.len() as int,
                    '\t',
                ) < value->0.len() {
                    seq![diag(ln, ErrorType::TabInValue, vmsg_tab_value())]
                } else {
                    Seq::empty()
                });
                (d4, st2)
            }
        }
    }
}

/// The diagnostics of all lines from index `i` on, given the carried state.
pub open spec fn validate_from(
    lines: Seq<Seq<char>>,
    i: int,
    st: ScanState,
    acc: Seq<DiagModel>,
) -> Seq<DiagModel>
    decreases lines.len() - i,
{
    if i < 0 || i >= lines.len() {
        acc
    } else {
        let step = line_diags(lines[i], i + 1, st);
        validate_from(lines, i + 1, step.1, acc + step.0)
    }
}

/// Every diagnostic `validate` reports for `text`, in line order.
pub open spec fn spec_validate(text: Seq<char>) -> Seq<DiagModel> {
    validate_from(spec_lines(text), 0, initial_state(), Seq::empty())
}

pub open spec fn state_of(prev_level: Option<usize>, prev_has_value: bool) -> ScanState {
    ScanState {
        prev_level: match prev_level {
            Some(p) => Some(p as int),
            None => None,
        },
        prev_has_value,
    }
}

fn inconsistent_message(prev: usize, level: usize) -> (s: String)
    ensures
        s@ == vmsg_inconsistent(prev as int, level as int),
{
    let mut s: String = "Invalid indentation level (skips levels from ".to_owned();
    let pd = u64_digits(prev as u64);
    let ps = chars_to_string(&pd, 0, pd.len());
    proof {
        assert(pd@.subrange(0, pd@.len() as int) =~= pd@);
    }
    s.append(ps.as_str());
    s.append(" to ");
    let ld = u64_digits(level as u64);
    let ls = chars_to_string(&ld, 0, ld.len());
    proof {
        assert(ld@.subrange(0, ld@.len() as int) =~= ld@);
    }
    s.append(ls.as_str());
    s.append(")");
    s
}

fn tab_key_message(key: &Vec<char>) -> (s: String)
    ensures
        s@ == vmsg_tab_key(key@),
{
    let mut s: String = "Key \"".to_owned();
    let ks = chars_to_string(key, 0, key.len());
    proof {
        assert(key@.subrange(0, key@.len() as int) =~= key@);
    }
    s.append(ks.as_str());
    s.append("\" contains invalid tab character");
    s
}

/// Scan one line: push its diagnostics and return the state for the next.
fn check_line(
    line: &Vec<char>,
    line_num: usize,
    prev_level: Option<usize>,
    prev_has_value: bool,
    errors: &mut Vec<ValidationError>,
) -> (st: (Option<usize>, bool))
    ensures
        diags_view(final(errors)@) == diags_view(old(errors)@) + line_diags(
            line@,
            line_num as int,
            state_of(prev_level, prev_has_value),
        ).0,
        state_of(st.0, st.1) == line_diags(
            line@,
            line_num as int,
            state_of(prev_level, prev_has_value),
        ).1,
{
    let ghost st0 = state_of(prev_level, prev_has_value);
    let ghost base = diags_view(errors@);
    let ghost step = line_diags(line@, line_num as int, st0);
    let n = line.len();
    let fnw = scan_first_non_ws(line, 0, n);
    if fnw == n || line[fnw] == '#' {
        proof {
            assert(diags_view(errors@) =~~= base + step.0);
        }
        return (prev_level, prev_has_value);
    }
    if line[0] == ' ' {
        errors.push(
            ValidationError {
                line: line_num,
                error_type: ErrorType::SpaceIndentation,
                message: "Indentation must use tabs, not spaces".to_owned(),
            },
        );
        proof {
            assert(diags_view(errors@) =~~= base + step.0);
        }
        return (prev_level, prev_has_value);
    }
    let level = scan_run_end(line, 0, n, '\t');
    if level < n && line[level] == ' ' {
        errors.push(
            ValidationError {
                line: line_num,
                error_type: ErrorType::MixedIndent,
                message: "Mixed spaces and tabs in indentation".to_owned(),
            },
        );
    }
    let cnw = scan_first_non_ws(line, level, n);
    if cnw == n {
        proof {
            assert(diags_view(errors@) =~~= base + step.0);
        }
        return (prev_level, prev_has_value);
    }
    match prev_level {
        Some(p) => {
            if level > p && level - p > 1 {
                let msg = inconsistent_message(p, level);
                errors.push(
                    ValidationError {
                        line: line_num,
                        error_type: ErrorType::InconsistentIndent,
                        message: msg,
                    },
                );
            }
            if level > p && prev_has_value {
                errors.push(
                    ValidationError {
                        line: line_num,
                        error_type: ErrorType::OrphanedLine,
                        message:
                            "Indented line has no parent (previous line was a key-value pair)".to_owned(),
                    },
                );
            }
        },
        None => {},
    }
    let t = find_char(line, level, n, '\t');
    let key: Vec<char>;
    let raw_value: Option<Vec<char>>;
    if t < n {
        key = subrange_chars(line, level, t);
        let vstart = scan_run_end(line, t, n, '\t');
        let te = scan_trim_end(line, vstart, n);
        raw_value = Some(subrange_chars(line, vstart, te));
    } else {
        let te = scan_trim_end(line, level, n);
        key = subrange_chars(line, level, te);
        raw_value = None;
    }
    let has_value = raw_value.is_some();
    if key.len() == 0 {
        errors.push(
            ValidationError {
                line: line_num,
                error_type: ErrorType::EmptyKey,
                message: "Line has no key".to_owned(),
            },
        );
        proof {
            assert(diags_view(errors@) =~~= base + step.0);
        }
        return (Some(level), has_value);
    }
    let kt = find_char(&key, 0, key.len(), '\t');
    if kt < key.len() {
        let msg = tab_key_message(&key);
        errors.push(
            ValidationError { line: line_num, error_type: ErrorType::TabInKey, message: msg },
        );
    }
    match &raw_value {
        Some(val) => {
            let vt = find_char(val, 0, val.len(), '\t');
            if vt < val.len() {
                errors.push(
                    ValidationError {
                        line: line_num,
                        error_type: ErrorType::TabInValue,
                        message: "Value contains invalid tab character".to_owned(),
                    },
                );
            }
        },
        None => {},
    }
    proof {
        assert(diags_view(errors@) =~~= base + step.0);
    }
    (Some(level), has_value)
}

/// Validate a TAML string.
///
/// Returns a list of validation errors. An empty list means the TAML is valid.
pub fn validate(text: &str) -> (r: Vec<ValidationError>)
    ensures
        diags_view(r@) == spec_validate(text@),
{
    let chars = str_to_chars(text);
    let lines = split_lines(&chars);
    let ghost lm = lines.deep_view();
    let n = lines.len();
    let mut errors: Vec<ValidationError> = Vec::new();
    let mut prev_level: Option<usize> = None;
    let mut prev_has_value = false;
    let mut i: usize = 0;
    proof {
        assert(diags_view(errors@) =~= Seq::<DiagModel>::empty());
    }
    while i < n
        invariant
            i <= n,
            n == lm.len(),
            lm == lines.deep_view(),
            spec_validate(text@) == validate_from(
                lm,
                i as int,
                state_of(prev_level, prev_has_value),
                diags_view(errors@),
            ),
        decreases n - i,
    {
        proof {
            assert(lm[i as int] =~= lines@[i as int]@);
        }
        let st = check_line(&lines[i], i + 1, prev_level, prev_has_value, &mut errors);
        prev_level = st.0;
        prev_has_value = st.1;
        i = i + 1;
    }
    errors
}

} // verus!
