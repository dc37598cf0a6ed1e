//! In this phase, the expanded text lines are parsed into instructions, and
//! expressions are evaluated to numbers.

use vstd::prelude::*;

use crate::load_file::metadata::{find_char, first_index_of};
use crate::load_file::program::{instructions_model, set_or_extend};
use crate::load_file::{AddressMode, Field, Instruction, Modifier, Opcode, Program, SpecField, SpecInstruction, SpecValue, Value};
use crate::parser::chars::skip_whitespace;
use crate::parser::chars::skip_ws;
use crate::parser::error::{Error, SpecError};
use crate::parser::expression::{self, whole_expr, Evaluated, ExprValue};
use crate::parser::grammar::{self, is_mode_only_symbol, is_mode_or_operator_symbol, tokens_of, Rule, Token};
use crate::parser::phase::expansion::substitute::token_text;
use crate::text::{self, ascii_uppercase};

verus! {

/// The value of an expression that must be a non-negative number (such as
/// the origin of a warrior): the number, or why there is none.
pub open spec fn expression_result(s: Seq<char>) -> Result<u32, SpecError> {
    match whole_expr(s) {
        Some(ExprValue::Number(n)) => if n >= 0 {
            Ok(n as u32)
        } else {
            Err(SpecError::InvalidOrigin)
        },
        Some(ExprValue::Label(l)) => Err(SpecError::LabelNotFound { label: l, line: None }),
        Some(ExprValue::Invalid) => Err(SpecError::InvalidSyntax),
        None => Err(SpecError::InvalidSyntax),
    }
}

/// Evaluating `a - b` gives `a` minus `b` when that is not negative, and
/// refuses the negative difference as an origin.
pub proof fn law_evaluates_difference(a: nat, b: nat)
    requires
        a <= i32::MAX,
        b <= i32::MAX,
    ensures
        expression_result(text::nat_digits(a) + seq![' ', '-', ' '] + text::nat_digits(b)) == if a >= b {
            Ok::<u32, SpecError>((a - b) as u32)
        } else {
            Err::<u32, SpecError>(SpecError::InvalidOrigin)
        },
{
    crate::parser::expression::law_subtraction_text(a, b);
}

/// Whether an exec result matches a spec result.
pub open spec fn result_matches<T>(res: Result<T, Error>, spec: Result<T, SpecError>) -> bool {
    match res {
        Ok(v) => spec == Ok::<T, SpecError>(v),
        Err(e) => spec == Err::<T, SpecError>(e@),
    }
}

/// Evaluates an expression that must be a non-negative number, such as the
/// entry point of a warrior.
pub fn evaluate_expression(expr: &str) -> (res: Result<u32, Error>)
    ensures
        result_matches(res, expression_result(expr@)),
{
    let chars = text::chars_of(expr);
    match expression::eval_whole(chars.as_slice()) {
        Some(Evaluated::Number(n)) => if n >= 0 {
            Ok(n as u32)
        } else {
            Err(Error::InvalidOrigin)
        },
        Some(Evaluated::Label(l)) => Err(Error::LabelNotFound { label: text::string_from(l.as_slice()), line: None }),
        Some(Evaluated::Invalid) => Err(Error::InvalidSyntax),
        None => Err(Error::InvalidSyntax),
    }
}

/// Evaluates the origin of a warrior, as [`evaluate_expression`] does.
pub fn evaluate_origin(expr: String) -> (res: Result<u32, Error>)
    ensures
        result_matches(res, expression_result(expr@)),
{
    evaluate_expression(expr.as_str())
}

/// The address mode written at the start of a field's text, and where its
/// expression starts: `$` (direct) when no mode symbol is written.
pub open spec fn field_mode(t: Seq<char>) -> (Option<AddressMode>, int) {
    let k = skip_ws(t, 0);
    if 0 <= k < t.len() && (is_mode_only_symbol(t[k]) || is_mode_or_operator_symbol(t[k])) {
        (AddressMode::from_name(seq![t[k]]), k + 1)
    } else {
        (Some(AddressMode::Direct), 0)
    }
}

/// The field a text stands for: its address mode and the value of its
/// expression, which must be a number.
pub open spec fn field_result(t: Seq<char>) -> Result<SpecField, SpecError> {
    let (mode, e) = field_mode(t);
    match mode {
        None => Err(SpecError::InvalidSyntax),
        Some(m) => match whole_expr(t.skip(e)) {
            Some(ExprValue::Number(n)) => Ok(SpecField::literal(m, n)),
            Some(ExprValue::Label(l)) => Err(SpecError::LabelNotFound { label: l, line: None }),
            Some(ExprValue::Invalid) => Err(SpecError::InvalidSyntax),
            None => Err(SpecError::InvalidSyntax),
        },
    }
}

/// The instruction of an opcode with one field: `DAT` takes it as its B
/// field (the A field being `#0`, modifier `F` by default), `JMP`, `SPL` and
/// `NOP` as their A field (the B field being `$0`, modifier `B` by default);
/// other opcodes need two fields.
pub open spec fn one_field_instruction(opcode: Opcode, modifier: Option<Modifier>, a: SpecField) -> Result<SpecInstruction, SpecError> {
    match opcode {
        Opcode::Dat => Ok(SpecInstruction {
            opcode,
            modifier: match modifier {
                Some(m) => m,
                None => Modifier::F,
            },
            a_field: SpecField::literal(AddressMode::Immediate, 0),
            b_field: a,
        }),
        Opcode::Jmp | Opcode::Spl | Opcode::Nop => Ok(SpecInstruction {
            opcode,
            modifier: match modifier {
                Some(m) => m,
                None => Modifier::B,
            },
            a_field: a,
            b_field: SpecField::literal(AddressMode::Direct, 0),
        }),
        _ => Err(SpecError::InvalidArguments { opcode }),
    }
}

/// The instruction written with its fields in `rest`, the text after the
/// opcode (and modifier).
pub open spec fn fields_instruction(opcode: Opcode, modifier: Option<Modifier>, rest: Seq<char>) -> Result<SpecInstruction, SpecError> {
    match first_index_of(rest, ',') {
        Some(p) => match field_result(rest.take(p)) {
            Err(e) => Err(e),
            Ok(a) => match field_result(rest.skip(p + 1)) {
                Err(e) => Err(e),
                Ok(b) => Ok(SpecInstruction {
                    opcode,
                    modifier: match modifier {
                        Some(m) => m,
                        None => Modifier::default_for(opcode, a.address_mode, b.address_mode),
                    },
                    a_field: a,
                    b_field: b,
                }),
            },
        },
        None => match field_result(rest) {
            Err(e) => Err(e),
            Ok(a) => one_field_instruction(opcode, modifier, a),
        },
    }
}

/// The start of an instruction line: its opcode, its modifier if one is
/// written, and where its fields start; `None` for an empty line or an
/// `ORG` or `END` line.
pub open spec fn line_head(line: Seq<char>) -> Result<Option<(Opcode, Option<Modifier>, int)>, SpecError> {
    match tokens_of(line) {
        None => Err(SpecError::InvalidSyntax),
        Some(tokens) => if tokens.len() == 0 {
            Ok(None)
        } else {
            let op = if tokens[0].rule == Rule::Label {
                1int
            } else {
                0int
            };
            if op >= tokens.len() || tokens[op].rule != Rule::Opcode {
                Err(SpecError::InvalidSyntax)
            } else {
                match Opcode::from_name(ascii_uppercase(token_text(line, tokens[op]))) {
                    None => Ok(None),
                    Some(opcode) => {
                        let has_modifier = op + 1 < tokens.len() && tokens[op + 1].rule == Rule::Modifier;
                        let modifier = if has_modifier {
                            Modifier::from_name(ascii_uppercase(token_text(line, tokens[op + 1])))
                        } else {
                            None
                        };
                        if has_modifier && modifier is None {
                            Err(SpecError::InvalidSyntax)
                        } else {
                            let fields_start = if has_modifier {
                                tokens[op + 1].end
                            } else {
                                tokens[op].end
                            };
                            Ok(Some((opcode, modifier, fields_start as int)))
                        }
                    },
                }
            }
        },
    }
}

/// What a line of the expanded program holds: nothing (an empty line, or an
/// `ORG` or `END`), an instruction (after an optional label), or an error.
pub open spec fn line_result(line: Seq<char>) -> Result<Option<SpecInstruction>, SpecError> {
    match line_head(line) {
        Err(e) => Err(e),
        Ok(None) => Ok(None),
        Ok(Some((opcode, modifier, start))) => match fields_instruction(opcode, modifier, line.skip(start)) {
            Ok(i) => Ok(Some(i)),
            Err(e) => Err(e),
        },
    }
}

/// The instructions of the lines, in order, or the error of the first line
/// that has one.
pub open spec fn evaluated(lines: Seq<Seq<char>>) -> Result<Seq<SpecInstruction>, SpecError>
    decreases lines.len(),
{
    if lines.len() == 0 {
        Ok(Seq::empty())
    } else {
        match evaluated(lines.drop_last()) {
            Err(e) => Err(e),
            Ok(acc) => match line_result(lines.last()) {
                Err(e) => Err(e),
                Ok(None) => Ok(acc),
                Ok(Some(i)) => Ok(acc.push(i)),
            },
        }
    }
}

/// Whether an exec field result matches a spec one.
pub open spec fn field_matches(res: Result<Field, Error>, spec: Result<SpecField, SpecError>) -> bool {
    match res {
        Ok(f) => spec == Ok::<SpecField, SpecError>(f@),
        Err(e) => spec == Err::<SpecField, SpecError>(e@),
    }
}

/// Whether an exec instruction result matches a spec one.
pub open spec fn instruction_matches(res: Result<Instruction, Error>, spec: Result<SpecInstruction, SpecError>) -> bool {
    match res {
        Ok(i) => spec == Ok::<SpecInstruction, SpecError>(i@),
        Err(e) => spec == Err::<SpecInstruction, SpecError>(e@),
    }
}

/// The address mode written at the start of `t`, and where the expression starts.
fn exec_field_mode(t: &[char]) -> (res: (Option<AddressMode>, usize))
    ensures
        res.0 == field_mode(t@).0,
        res.1 == field_mode(t@).1,
        res.1 <= t@.len(),
{
    let k = skip_whitespace(t, 0);
    if k < t.len() {
        let c = t[k];
        if c == '#' || c == '$' || c == '@' || c == '{' || c == '}' || c == '*' || c == '<' || c == '>' {
            let sym = vec![c];
            assert(sym@ =~= seq![c]);
            return (AddressMode::from_chars(sym.as_slice()), k + 1);
        }
    }
    (Some(AddressMode::Direct), 0)
}

/// Parses a field written in `s[from..to]`.
fn parse_field(s: &[char], from: usize, to: usize) -> (res: Result<Field, Error>)
    requires
        from <= to <= s@.len(),
    ensures
        field_matches(res, field_result(s@.subrange(from as int, to as int))),
{
    let t = text::slice_range(s, from, to);
    let (mode, e) = exec_field_mode(t.as_slice());
    let mode = match mode {
        Some(m) => m,
        None => {
            return Err(Error::InvalidSyntax);
        },
    };
    let expr = text::slice_range(t.as_slice(), e, t.len());
    assert(expr@ =~= t@.skip(e as int));
    match expression::eval_whole(expr.as_slice()) {
        Some(Evaluated::Number(n)) => Ok(Field { address_mode: mode, value: Value::Literal(n) }),
        Some(Evaluated::Label(l)) => Err(Error::LabelNotFound { label: text::string_from(l.as_slice()), line: None }),
        Some(Evaluated::Invalid) => Err(Error::InvalidSyntax),
        None => Err(Error::InvalidSyntax),
    }
}

/// The instruction with fields written in `s[from..]`.
fn parse_fields(s: &[char], from: usize, opcode: Opcode, modifier: Option<Modifier>) -> (res: Result<Instruction, Error>)
    requires
        from <= s@.len(),
    ensures
        instruction_matches(res, fields_instruction(opcode, modifier, s@.skip(from as int))),
{
    let rest = text::slice_range(s, from, s.len());
    assert(rest@ =~= s@.skip(from as int));
    let n = rest.len();
    let p = find_char(rest.as_slice(), ',');
    proof {
        crate::load_file::metadata::lemma_first_index_of(rest@, ',');
    }
    if p < n {
        proof {
            assert(rest@.subrange(0, p as int) =~= rest@.take(p as int));
            assert(rest@.subrange(p + 1, n as int) =~= rest@.skip(p + 1));
        }
        let a = match parse_field(rest.as_slice(), 0, p) {
            Ok(a) => a,
            Err(e) => {
                return Err(e);
            },
        };
        let b = match parse_field(rest.as_slice(), p + 1, n) {
            Ok(b) => b,
            Err(e) => {
                return Err(e);
            },
        };
        let m = match modifier {
            Some(m) => m,
            None => Modifier::default_88_to_94(opcode, a.address_mode, b.address_mode),
        };
        Ok(Instruction { opcode, modifier: m, a_field: a, b_field: b })
    } else {
        assert(rest@.subrange(0, n as int) =~= rest@);
        let a = match parse_field(rest.as_slice(), 0, n) {
            Ok(a) => a,
            Err(e) => {
                return Err(e);
            },
        };
        match opcode {
            Opcode::Dat => Ok(Instruction {
                opcode,
                modifier: match modifier {
                    Some(m) => m,
                    None => Modifier::F,
                },
                a_field: Field::immediate(0),
                b_field: a,
            }),
            Opcode::Jmp | Opcode::Spl | Opcode::Nop => Ok(Instruction {
                opcode,
                modifier: match modifier {
                    Some(m) => m,
                    None => Modifier::B,
                },
                a_field: a,
                b_field: Field::direct(0),
            }),
            _ => Err(Error::InvalidArguments { opcode }),
        }
    }
}

/// Whether an exec line result matches a spec one.
pub open spec fn line_matches(res: Result<Option<Instruction>, Error>, spec: Result<Option<SpecInstruction>, SpecError>) -> bool {
    match res {
        Ok(Some(i)) => spec == Ok::<Option<SpecInstruction>, SpecError>(Some(i@)),
        Ok(None) => spec == Ok::<Option<SpecInstruction>, SpecError>(None),
        Err(e) => spec == Err::<Option<SpecInstruction>, SpecError>(e@),
    }
}

/// Whether an exec line head matches a spec one.
pub open spec fn head_matches(
    res: Result<Option<(Opcode, Option<Modifier>, usize)>, Error>,
    spec: Result<Option<(Opcode, Option<Modifier>, int)>, SpecError>,
) -> bool {
    match res {
        Ok(Some((o, m, p))) => spec == Ok::<Option<(Opcode, Option<Modifier>, int)>, SpecError>(Some((o, m, p as int))),
        Ok(None) => spec == Ok::<Option<(Opcode, Option<Modifier>, int)>, SpecError>(None),
        Err(e) => spec == Err::<Option<(Opcode, Option<Modifier>, int)>, SpecError>(e@),
    }
}

/// Parses the start of an instruction line, as [`line_head`] says.
pub(crate) fn parse_line_head(line: &[char]) -> (res: Result<Option<(Opcode, Option<Modifier>, usize)>, Error>)
    ensures
        head_matches(res, line_head(line@)),
        res matches Ok(Some((_, _, p))) ==> p <= line@.len(),
{
    let tokens = match grammar::tokenize(line) {
        Some(t) => t,
        None => {
            return Err(Error::InvalidSyntax);
        },
    };
    let len = line.len();
    proof {
        grammar::lemma_tokens_in_bounds(line@);
    }
    if tokens.len() == 0 {
        return Ok(None);
    }
    let op: usize = if tokens[0].rule == Rule::Label {
        1
    } else {
        0
    };
    if op >= tokens.len() || tokens[op].rule != Rule::Opcode {
        return Err(Error::InvalidSyntax);
    }
    let t = tokens[op];
    let word = text::slice_range(line, t.start, t.end);
    let upper = text::to_ascii_uppercase(word.as_slice());
    let opcode = match Opcode::from_chars(upper.as_slice()) {
        Some(o) => o,
        None => {
            return Ok(None);
        },
    };
    let has_modifier = op + 1 < tokens.len() && tokens[op + 1].rule == Rule::Modifier;
    if has_modifier {
        let mt = tokens[op + 1];
        let mword = text::slice_range(line, mt.start, mt.end);
        let mupper = text::to_ascii_uppercase(mword.as_slice());
        match Modifier::from_chars(mupper.as_slice()) {
            Some(m) => Ok(Some((opcode, Some(m), mt.end))),
            None => Err(Error::InvalidSyntax),
        }
    } else {
        Ok(Some((opcode, None, t.end)))
    }
}

/// Parses one line of the expanded program, as [`line_result`] says.
pub fn parse_line(line: &[char]) -> (res: Result<Option<Instruction>, Error>)
    ensures
        line_matches(res, line_result(line@)),
{
    match parse_line_head(line) {
        Err(e) => Err(e),
        Ok(None) => Ok(None),
        Ok(Some((opcode, modifier, start))) => match parse_fields(line, start, opcode, modifier) {
            Ok(i) => Ok(Some(i)),
            Err(e) => Err(e),
        },
    }
}

/// Converts the text lines of an expanded program into instructions, as
/// [`evaluated`] says: the first line that cannot be parsed gives the error.
#[verifier::rlimit(40)]
pub fn evaluate(lines: Vec<String>) -> (res: Result<Vec<Instruction>, Error>)
    ensures
        match res {
            Ok(v) => evaluated(crate::parser::phase::expansion::texts(lines@)) == Ok::<Seq<SpecInstruction>, SpecError>(instructions_model(v@)),
            Err(e) => evaluated(crate::parser::phase::expansion::texts(lines@)) == Err::<Seq<SpecInstruction>, SpecError>(e@),
        },
{
    let ghost all = crate::parser::phase::expansion::texts(lines@);
    let mut instructions: Vec<Instruction> = Vec::new();
    let mut j: usize = 0;
    assert(all.take(0) =~= Seq::<Seq<char>>::empty());
    assert(instructions_model(instructions@) =~= Seq::<SpecInstruction>::empty());
    while j < lines.len()
        invariant
            j <= lines@.len(),
            all == crate::parser::phase::expansion::texts(lines@),
            evaluated(all.take(j as int)) == Ok::<Seq<SpecInstruction>, SpecError>(instructions_model(instructions@)),
        decreases lines@.len() - j,
    {
        let chars = text::chars_of(lines[j].as_str());
        let ghost before = instructions@;
        proof {
            assert(all.take(j + 1).drop_last() =~= all.take(j as int));
            assert(all.take(j + 1).last() == chars@);
        }
        match parse_line(chars.as_slice()) {
            Err(e) => {
                proof {
                    lemma_evaluated_error(all, j as int + 1, e@);
                }
                return Err(e);
            },
            Ok(None) => {},
            Ok(Some(i)) => {
                instructions.push(i);
                assert(instructions_model(instructions@) =~= instructions_model(before).push(i@));
            },
        }
        j = j + 1;
    }
    assert(all.take(j as int) =~= all);
    Ok(instructions)
}

/// An error in a prefix of the lines is the error of all of them.
proof fn lemma_evaluated_error(all: Seq<Seq<char>>, k: int, e: SpecError)
    requires
        0 <= k <= all.len(),
        evaluated(all.take(k)) == Err::<Seq<SpecInstruction>, SpecError>(e),
    ensures
        evaluated(all) == Err::<Seq<SpecInstruction>, SpecError>(e),
    decreases all.len() - k,
{
    if k < all.len() {
        assert(all.take(k + 1).drop_last() =~= all.take(k));
        lemma_evaluated_error(all, k + 1, e);
    } else {
        assert(all.take(k) =~= all);
    }
}

/// A field as the older load-file format reads it: its value is a single
/// number or a single label, which is kept to be resolved later.
pub open spec fn stored_field_result(t: Seq<char>) -> Result<SpecField, SpecError> {
    let (mode, e) = field_mode(t);
    match mode {
        None => Err(SpecError::InvalidSyntax),
        Some(m) => match whole_expr(t.skip(e)) {
            Some(ExprValue::Number(n)) => Ok(SpecField::literal(m, n)),
            Some(ExprValue::Label(l)) => if text::trim(t.skip(e)) == l {
                Ok(SpecField { address_mode: m, value: SpecValue::Label(l) })
            } else {
                Err(SpecError::InvalidSyntax)
            },
            _ => Err(SpecError::InvalidSyntax),
        },
    }
}

/// An instruction as the older load-file format reads it: a missing B field
/// is `#0`, and the modifier defaults by the opcode and both address modes.
pub open spec fn stored_instruction(opcode: Opcode, modifier: Option<Modifier>, rest: Seq<char>) -> Result<SpecInstruction, SpecError> {
    let (a_text, b_text) = match first_index_of(rest, ',') {
        Some(p) => (rest.take(p), Some(rest.skip(p + 1))),
        None => (rest, None),
    };
    match stored_field_result(a_text) {
        Err(e) => Err(e),
        Ok(a) => {
            let b = match b_text {
                Some(bt) => stored_field_result(bt),
                None => Ok(SpecField::literal(AddressMode::Immediate, 0)),
            };
            match b {
                Err(e) => Err(e),
                Ok(b) => Ok(SpecInstruction {
                    opcode,
                    modifier: match modifier {
                        Some(m) => m,
                        None => Modifier::default_for(opcode, a.address_mode, b.address_mode),
                    },
                    a_field: a,
                    b_field: b,
                }),
            }
        },
    }
}

/// The instructions of the lines in the older load-file format: each
/// instruction is placed at the index of its line, the lines between
/// holding default instructions.
pub open spec fn deserialized(lines: Seq<Seq<char>>) -> Result<Seq<SpecInstruction>, SpecError>
    decreases lines.len(),
{
    if lines.len() == 0 {
        Ok(Seq::empty())
    } else {
        match deserialized(lines.drop_last()) {
            Err(e) => Err(e),
            Ok(acc) => match line_head(lines.last()) {
                Err(e) => Err(e),
                Ok(None) => Ok(acc),
                Ok(Some((opcode, modifier, start))) => match stored_instruction(opcode, modifier, lines.last().skip(start)) {
                    Err(e) => Err(e),
                    Ok(i) => Ok(set_or_extend(acc, lines.len() - 1, i)),
                },
            },
        }
    }
}

/// Parses a field of the older load-file format written in `s[from..to]`.
fn parse_stored_field(s: &[char], from: usize, to: usize) -> (res: Result<Field, Error>)
    requires
        from <= to <= s@.len(),
    ensures
        field_matches(res, stored_field_result(s@.subrange(from as int, to as int))),
{
    let t = text::slice_range(s, from, to);
    let (mode, e) = exec_field_mode(t.as_slice());
    let mode = match mode {
        Some(m) => m,
        None => {
            return Err(Error::InvalidSyntax);
        },
    };
    let expr = text::slice_range(t.as_slice(), e, t.len());
    assert(expr@ =~= t@.skip(e as int));
    match expression::eval_whole(expr.as_slice()) {
        Some(Evaluated::Number(n)) => Ok(Field { address_mode: mode, value: Value::Literal(n) }),
        Some(Evaluated::Label(l)) => {
            let trimmed = text::trim_chars(expr.as_slice());
            if text::chars_equal(trimmed.as_slice(), l.as_slice()) {
                Ok(Field { address_mode: mode, value: Value::Label(text::string_from(l.as_slice())) })
            } else {
                Err(Error::InvalidSyntax)
            }
        },
        _ => Err(Error::InvalidSyntax),
    }
}

/// The instruction of the older load-file format with fields in `s[from..]`.
pub(crate) fn parse_stored_fields(s: &[char], from: usize, opcode: Opcode, modifier: Option<Modifier>) -> (res: Result<Instruction, Error>)
    requires
        from <= s@.len(),
    ensures
        instruction_matches(res, stored_instruction(opcode, modifier, s@.skip(from as int))),
{
    let rest = text::slice_range(s, from, s.len());
    assert(rest@ =~= s@.skip(from as int));
    let n = rest.len();
    let p = find_char(rest.as_slice(), ',');
    proof {
        crate::load_file::metadata::lemma_first_index_of(rest@, ',');
        assert(rest@.subrange(0, p as int) =~= rest@.take(p as int));
        assert(rest@.subrange(0, n as int) =~= rest@);
        if p < n {
            assert(rest@.subrange(p + 1, n as int) =~= rest@.skip(p + 1));
        }
    }
    let a = match parse_stored_field(rest.as_slice(), 0, p) {
        Ok(a) => a,
        Err(e) => {
            return Err(e);
        },
    };
    let b = if p < n {
        match parse_stored_field(rest.as_slice(), p + 1, n) {
            Ok(b) => b,
            Err(e) => {
                return Err(e);
            },
        }
    } else {
        Field::immediate(0)
    };
    let m = match modifier {
        Some(m) => m,
        None => Modifier::default_88_to_94(opcode, a.address_mode, b.address_mode),
    };
    Ok(Instruction { opcode, modifier: m, a_field: a, b_field: b })
}

/// The program of the older load-file format: the instruction of each line
/// is placed at that line's index, and the origin, if any, is evaluated.
pub open spec fn deserialize_result(lines: Seq<Seq<char>>, origin: Option<Seq<char>>) -> Result<(Seq<SpecInstruction>, Option<u32>), SpecError> {
    match deserialized(lines) {
        Err(e) => Err(e),
        Ok(instructions) => match origin {
            None => Ok((instructions, None)),
            Some(o) => match expression_result(o) {
                Ok(n) => Ok((instructions, Some(n))),
                Err(e) => Err(e),
            },
        },
    }
}

/// Parses lines of the older load-file format into a program, as
/// [`deserialize_result`] says.
#[verifier::rlimit(40)]
pub fn deserialize(lines: Vec<String>, origin: Option<String>) -> (res: Result<Program, Error>)
    ensures
        match res {
            Ok(p) => deserialize_result(crate::parser::phase::expansion::texts(lines@), crate::parser::phase::expansion::opt_model(origin))
                == Ok::<(Seq<SpecInstruction>, Option<u32>), SpecError>((p.model(), p.origin)),
            Err(e) => deserialize_result(crate::parser::phase::expansion::texts(lines@), crate::parser::phase::expansion::opt_model(origin))
                == Err::<(Seq<SpecInstruction>, Option<u32>), SpecError>(e@),
        },
{
    let ghost all = crate::parser::phase::expansion::texts(lines@);
    let mut program = Program::default();
    let mut j: usize = 0;
    assert(all.take(0) =~= Seq::<Seq<char>>::empty());
    assert(program.model() =~= Seq::<SpecInstruction>::empty());
    while j < lines.len()
        invariant
            j <= lines@.len(),
            all == crate::parser::phase::expansion::texts(lines@),
            deserialized(all.take(j as int)) == Ok::<Seq<SpecInstruction>, SpecError>(program.model()),
            program.origin is None,
        decreases lines@.len() - j,
    {
        let chars = text::chars_of(lines[j].as_str());
        proof {
            assert(all.take(j + 1).drop_last() =~= all.take(j as int));
            assert(all.take(j + 1).last() == chars@);
        }
        match parse_line_head(chars.as_slice()) {
            Err(e) => {
                proof {
                    lemma_deserialized_error(all, j as int + 1, e@);
                }
                return Err(e);
            },
            Ok(None) => {},
            Ok(Some((opcode, modifier, start))) => match parse_stored_fields(chars.as_slice(), start, opcode, modifier) {
                Err(e) => {
                    proof {
                        lemma_deserialized_error(all, j as int + 1, e@);
                    }
                    return Err(e);
                },
                Ok(i) => {
                    program.set_at(j, i);
                },
            },
        }
        j = j + 1;
    }
    assert(all.take(j as int) =~= all);
    match origin {
        None => Ok(program),
        Some(o) => match evaluate_expression(o.as_str()) {
            Ok(n) => {
                program.origin = Some(n);
                Ok(program)
            },
            Err(e) => Err(e),
        },
    }
}

/// An error in a prefix of the lines is the error of all of them.
proof fn lemma_deserialized_error(all: Seq<Seq<char>>, k: int, e: SpecError)
    requires
        0 <= k <= all.len(),
        deserialized(all.take(k)) == Err::<Seq<SpecInstruction>, SpecError>(e),
    ensures
        deserialized(all) == Err::<Seq<SpecInstruction>, SpecError>(e),
    decreases all.len() - k,
{
    if k < all.len() {
        assert(all.take(k + 1).drop_last() =~= all.take(k));
        lemma_deserialized_error(all, k + 1, e);
    } else {
        assert(all.take(k) =~= all);
    }
}

} // verus!
