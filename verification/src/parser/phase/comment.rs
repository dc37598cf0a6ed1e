//! In this phase, all comments are removed from the input. Comments like
//! `;redcode` and `;author` are parsed and stored in [`Metadata`]. This phase
//! also finds the origin (`ORG`) and the end (`END`) of the program, and drops
//! everything after the end.

use vstd::prelude::*;

use crate::load_file::metadata::{first_index_of, SpecMetadata};
use crate::load_file::{Metadata, PseudoOpcode};
use crate::parser::error::{SpecWarning, Warning};
use crate::parser::grammar::{self, tokens_of, Rule, Token};
use crate::text::{self, ascii_uppercase};

use super::CommentsRemoved;

verus! {

/// `s` without one trailing carriage return.
pub open spec fn strip_cr(s: Seq<char>) -> Seq<char> {
    if s.len() > 0 && s.last() == '\r' {
        s.drop_last()
    } else {
        s
    }
}

/// The lines of a text, as `str::lines` splits it: at each `\n` (dropping a
/// `\r` just before it), with no empty last line after a final `\n`.
pub open spec fn lines_of(s: Seq<char>) -> Seq<Seq<char>>
    decreases s.len(),
{
    if s.len() == 0 {
        Seq::empty()
    } else {
        match first_index_of(s, '\n') {
            Some(p) => if 0 <= p < s.len() {
                seq![strip_cr(s.take(p))] + lines_of(s.skip(p + 1))
            } else {
                Seq::empty()
            },
            None => seq![s],
        }
    }
}

/// What a line says about the program's origin and end.
pub enum OriginInLine {
    /// `ORG <expr>`: a new origin.
    NewOrigin(Seq<char>),
    /// `END <expr>`: the end of the program, with an origin.
    EndWithNewOrigin(Seq<char>),
    /// `END`: the end of the program.
    End,
    /// Anything else.
    NotFound,
    /// `ORG` without an argument.
    MissingOrigin,
}

/// What the line `line` says about the origin and end of the program: only
/// a line that starts with the `ORG` or `END` opcode says anything; its
/// argument is the rest of the line after the opcode.
pub open spec fn find_origin_in_line(line: Seq<char>) -> OriginInLine {
    match tokens_of(line) {
        Some(tokens) => if tokens.len() > 0 && tokens[0].rule == Rule::Opcode {
            let word = ascii_uppercase(line.subrange(tokens[0].start as int, tokens[0].end as int));
            let remainder = if tokens.len() > 1 && tokens[1].start <= line.len() {
                line.skip(tokens[1].start as int)
            } else {
                Seq::empty()
            };
            if word == PseudoOpcode::Org.name() {
                if remainder.len() > 0 {
                    OriginInLine::NewOrigin(remainder)
                } else {
                    OriginInLine::MissingOrigin
                }
            } else if word == PseudoOpcode::End.name() {
                if remainder.len() > 0 {
                    OriginInLine::EndWithNewOrigin(remainder)
                } else {
                    OriginInLine::End
                }
            } else {
                OriginInLine::NotFound
            }
        } else {
            OriginInLine::NotFound
        },
        None => OriginInLine::NotFound,
    }
}

/// The state of the comment phase after some lines: the kept lines, the
/// metadata, the origin, whether the end of the program was reached, and
/// the warnings so far.
pub struct CommentState {
    pub lines: Seq<Seq<char>>,
    pub metadata: SpecMetadata,
    pub origin: Option<Seq<char>>,
    pub ended: bool,
    pub warnings: Seq<SpecWarning>,
}

/// The warnings a new origin definition gives: one when an origin is
/// already defined (the new definition is then ignored).
pub open spec fn origin_warnings(origin: Option<Seq<char>>, new_origin: Seq<char>) -> Seq<SpecWarning> {
    match origin {
        Some(o) => seq![SpecWarning::OriginRedefinition { old: o, new: new_origin }],
        None => Seq::empty(),
    }
}

/// The origin after a new definition: the first definition stands.
pub open spec fn set_origin(origin: Option<Seq<char>>, new_origin: Seq<char>) -> Option<Seq<char>> {
    match origin {
        Some(o) => Some(o),
        None => Some(new_origin),
    }
}

/// The state after reading one more line.
pub open spec fn comment_step(st: CommentState, line: Seq<char>) -> CommentState {
    if st.ended {
        st
    } else {
        let metadata = st.metadata.after_line(line);
        let code = crate::load_file::metadata::code_of_line(line);
        if code.len() == 0 {
            CommentState { metadata, ..st }
        } else {
            match find_origin_in_line(code) {
                OriginInLine::NewOrigin(o) => CommentState {
                    metadata,
                    origin: set_origin(st.origin, o),
                    warnings: st.warnings + origin_warnings(st.origin, o),
                    ..st
                },
                OriginInLine::EndWithNewOrigin(o) => CommentState {
                    metadata,
                    origin: set_origin(st.origin, o),
                    ended: true,
                    warnings: st.warnings + origin_warnings(st.origin, o),
                    ..st
                },
                OriginInLine::End => CommentState { metadata, ended: true, ..st },
                OriginInLine::NotFound => CommentState {
                    metadata,
                    lines: st.lines.push(code),
                    ..st
                },
                OriginInLine::MissingOrigin => CommentState {
                    metadata,
                    warnings: st.warnings.push(SpecWarning::MissingOrigin),
                    ..st
                },
            }
        }
    }
}

/// The state after reading all of `lines`, in order.
pub open spec fn comment_run(st: CommentState, lines: Seq<Seq<char>>) -> CommentState
    decreases lines.len(),
{
    if lines.len() == 0 {
        st
    } else {
        comment_run(comment_step(st, lines[0]), lines.drop_first())
    }
}

/// The result of the comment phase on a whole input.
pub open spec fn remove_comments(input: Seq<char>) -> CommentState {
    comment_run(
        CommentState {
            lines: Seq::empty(),
            metadata: SpecMetadata::empty(),
            origin: None,
            ended: false,
            warnings: Seq::empty(),
        },
        lines_of(input),
    )
}

/// The characters of each string.
pub open spec fn strings_model(v: Seq<String>) -> Seq<Seq<char>> {
    v.map_values(|l: String| l@)
}

/// The models of warnings.
pub open spec fn warnings_model(v: Seq<Warning>) -> Seq<SpecWarning> {
    v.map_values(|w: Warning| w@)
}

/// The result of the comment phase in exec form agrees with the spec state.
pub open spec fn agrees_with(res: CommentsRemoved, st: CommentState) -> bool {
    &&& strings_model(res.lines@) == st.lines
    &&& warnings_model(res.warnings@) == st.warnings
    &&& res.metadata@ == st.metadata
    &&& crate::load_file::metadata::opt_text(res.origin) == st.origin
}

/// What a line (already without its comment) says about origin and end.
fn origin_in_line(line: &[char]) -> (res: (u8, Vec<char>))
    ensures
        match find_origin_in_line(line@) {
            OriginInLine::NewOrigin(o) => res.0 == 0 && res.1@ == o,
            OriginInLine::EndWithNewOrigin(o) => res.0 == 1 && res.1@ == o,
            OriginInLine::End => res.0 == 2,
            OriginInLine::NotFound => res.0 == 3,
            OriginInLine::MissingOrigin => res.0 == 4,
        },
{
    let n = line.len();
    match grammar::tokenize(line) {
        None => (3, Vec::new()),
        Some(tokens) => {
            if tokens.len() > 0 && tokens[0].rule == Rule::Opcode {
                let t0 = tokens[0];
                if t0.start <= t0.end && t0.end <= line.len() {
                    let raw = text::slice_range(line, t0.start, t0.end);
                    let word = text::to_ascii_uppercase(raw.as_slice());
                    let remainder = if tokens.len() > 1 && tokens[1].start <= line.len() {
                        text::slice_range(line, tokens[1].start, line.len())
                    } else {
                        Vec::new()
                    };
                    proof {
                        if tokens.len() > 1 && tokens@[1].start <= line@.len() {
                            assert(remainder@ =~= line@.skip(tokens@[1].start as int));
                        }
                    }
                    if text::chars_equal(word.as_slice(), PseudoOpcode::Org.name_chars().as_slice()) {
                        if remainder.len() > 0 {
                            (0, remainder)
                        } else {
                            (4, Vec::new())
                        }
                    } else if text::chars_equal(word.as_slice(), PseudoOpcode::End.name_chars().as_slice()) {
                        if remainder.len() > 0 {
                            (1, remainder)
                        } else {
                            (2, Vec::new())
                        }
                    } else {
                        (3, Vec::new())
                    }
                } else {
                    proof {
                        grammar::lemma_tokens_in_bounds(line@);
                    }
                    (3, Vec::new())
                }
            } else {
                (3, Vec::new())
            }
        },
    }
}

/// The first index of `\n` at or after `from`, or the length when there is none.
fn find_newline(s: &[char], from: usize) -> (res: usize)
    requires
        from <= s@.len(),
    ensures
        from <= res <= s@.len(),
        match first_index_of(s@.skip(from as int), '\n') {
            Some(p) => res == from + p,
            None => res == s@.len(),
        },
{
    let mut i = from;
    assert(s@.skip(from as int).skip(0) =~= s@.skip(from as int));
    while i < s.len() && s[i] != '\n'
        invariant
            from <= i <= s@.len(),
            first_index_of(s@.skip(from as int), '\n') == (match first_index_of(
                s@.skip(i as int),
                '\n',
            ) {
                Some(p) => Some(p + (i - from)),
                None => None,
            }),
        decreases s@.len() - i,
    {
        assert(s@.skip(i as int).drop_first() =~= s@.skip(i + 1));
        i = i + 1;
    }
    if i == s.len() {
        assert(s@.skip(i as int).len() == 0);
    }
    i
}

/// The spec state that the exec state of the comment phase stands for.
pub open spec fn state_of(
    lines: Seq<String>,
    metadata: SpecMetadata,
    origin: Option<String>,
    warnings: Seq<Warning>,
) -> CommentState {
    CommentState {
        warnings: warnings_model(warnings),
        lines: strings_model(lines),
        metadata,
        origin: crate::load_file::metadata::opt_text(origin),
        ended: false,
    }
}

/// Removes comments from a raw input, collecting metadata, origin and end.
pub fn extract_from_string(input: &str) -> (res: CommentsRemoved)
    ensures
        agrees_with(res, remove_comments(input@)),
{
    let chars = text::chars_of(input);
    let n = chars.len();
    let mut metadata = Metadata::default();
    let mut origin: Option<String> = None;
    let mut lines: Vec<String> = Vec::new();
    let mut warnings: Vec<Warning> = Vec::new();
    let mut pos: usize = 0;
    assert(chars@.skip(0) =~= chars@);
    assert(strings_model(lines@) =~= Seq::<Seq<char>>::empty());
    assert(warnings_model(warnings@) =~= Seq::<SpecWarning>::empty());
    while pos < n
        invariant
            n == chars@.len(),
            pos <= n,
            chars@ == input@,
            remove_comments(input@) == comment_run(
                state_of(lines@, metadata@, origin, warnings@),
                lines_of(chars@.skip(pos as int)),
            ),
        decreases n - pos,
    {
        let ghost rest = chars@.skip(pos as int);
        let ghost st = state_of(lines@, metadata@, origin, warnings@);
        let p = find_newline(chars.as_slice(), pos);
        let mut end = p;
        if p < n && end > pos && chars[end - 1] == '\r' {
            end = end - 1;
        }
        let raw_line = text::slice_range(chars.as_slice(), pos, end);
        let next_pos = if p < n {
            p + 1
        } else {
            n
        };
        proof {
            crate::load_file::metadata::lemma_first_index_of(rest, '\n');
            if p < n {
                assert(raw_line@ =~= strip_cr(rest.take(p - pos)));
                assert(rest.skip(p - pos + 1) =~= chars@.skip(p + 1));
                assert(lines_of(rest) == seq![raw_line@] + lines_of(chars@.skip(p + 1)));
            } else {
                assert(raw_line@ =~= rest);
                assert(chars@.skip(n as int).len() == 0);
                assert(lines_of(rest) == seq![raw_line@]);
            }
            let ls = lines_of(rest);
            assert(ls[0] == raw_line@);
            assert(ls.drop_first() =~= lines_of(chars@.skip(next_pos as int)));
        }
        let ghost st2 = comment_step(st, raw_line@);
        let line_string = text::string_from(raw_line.as_slice());
        let code = metadata.parse_line(line_string.as_str());
        let code_chars = text::chars_of(code.as_str());
        assert(metadata@ == st2.metadata);
        if code_chars.len() > 0 {
            let (kind, arg) = origin_in_line(code_chars.as_slice());
            if kind == 0 || kind == 1 {
                match &origin {
                    None => {
                        origin = Some(text::string_from(arg.as_slice()));
                        proof {
                            assert(origin_warnings(st.origin, arg@) =~= Seq::<SpecWarning>::empty());
                            assert(warnings_model(warnings@) =~= st.warnings + origin_warnings(st.origin, arg@));
                        }
                    },
                    Some(old) => {
                        let w = Warning::OriginRedefinition { old: old.clone(), new: text::string_from(arg.as_slice()) };
                        let ghost before = warnings@;
                        warnings.push(w);
                        proof {
                            assert(warnings_model(warnings@) =~= warnings_model(before).push(w@));
                            assert(warnings_model(warnings@) =~= st.warnings + origin_warnings(st.origin, arg@));
                        }
                    },
                }
            }
            if kind == 4 {
                let ghost before = warnings@;
                warnings.push(Warning::MissingOrigin);
                proof {
                    assert(warnings_model(warnings@) =~= warnings_model(before).push(SpecWarning::MissingOrigin));
                }
            }
            if kind == 3 {
                lines.push(code);
                proof {
                    assert(strings_model(lines@) =~= st.lines.push(code_chars@));
                }
            }
            if kind == 1 || kind == 2 {
                proof {
                    lemma_run_ended(st2, lines_of(chars@.skip(next_pos as int)));
                    assert(st2 == CommentState { ended: true, ..state_of(lines@, metadata@, origin, warnings@) });
                }
                return CommentsRemoved { lines, metadata, origin, warnings };
            }
        }
        assert(st2 == state_of(lines@, metadata@, origin, warnings@));
        pos = next_pos;
    }
    proof {
        assert(chars@.skip(pos as int).len() == 0);
    }
    CommentsRemoved { lines, metadata, origin, warnings }
}

/// The lines of a text, as [`lines_of`] says.
pub fn split_lines(input: &str) -> (res: Vec<String>)
    ensures
        strings_model(res@) == lines_of(input@),
{
    let chars = text::chars_of(input);
    let n = chars.len();
    let mut lines: Vec<String> = Vec::new();
    let mut pos: usize = 0;
    assert(chars@.skip(0) =~= chars@);
    assert(strings_model(lines@) =~= Seq::<Seq<char>>::empty());
    assert(Seq::<Seq<char>>::empty() + lines_of(chars@) =~= lines_of(chars@));
    while pos < n
        invariant
            n == chars@.len(),
            pos <= n,
            chars@ == input@,
            lines_of(input@) == strings_model(lines@) + lines_of(chars@.skip(pos as int)),
        decreases n - pos,
    {
        let ghost rest = chars@.skip(pos as int);
        let p = find_newline(chars.as_slice(), pos);
        let mut end = p;
        if p < n && end > pos && chars[end - 1] == '\r' {
            end = end - 1;
        }
        let raw_line = text::slice_range(chars.as_slice(), pos, end);
        let next_pos = if p < n {
            p + 1
        } else {
            n
        };
        proof {
            crate::load_file::metadata::lemma_first_index_of(rest, '\n');
            if p < n {
                assert(raw_line@ =~= strip_cr(rest.take(p - pos)));
                assert(rest.skip(p - pos + 1) =~= chars@.skip(p + 1));
                assert(lines_of(rest) == seq![raw_line@] + lines_of(chars@.skip(p + 1)));
            } else {
                assert(raw_line@ =~= rest);
                assert(chars@.skip(n as int).len() == 0);
                assert(lines_of(rest) == seq![raw_line@]);
            }
        }
        let ghost before = lines@;
        lines.push(text::string_from(raw_line.as_slice()));
        proof {
            assert(strings_model(lines@) =~= strings_model(before).push(raw_line@));
            assert(strings_model(before) + lines_of(rest) =~= strings_model(lines@) + lines_of(chars@.skip(next_pos as int)));
        }
        pos = next_pos;
    }
    proof {
        assert(chars@.skip(pos as int).len() == 0);
        assert(lines_of(chars@.skip(pos as int)) == Seq::<Seq<char>>::empty());
        assert(strings_model(lines@) + Seq::<Seq<char>>::empty() =~= strings_model(lines@));
    }
    lines
}

/// Once the end (`END`) is reached, the lines after it change nothing.
pub proof fn lemma_run_ended(st: CommentState, lines: Seq<Seq<char>>)
    requires
        st.ended,
    ensures
        comment_run(st, lines) == st,
    decreases lines.len(),
{
    if lines.len() > 0 {
        lemma_run_ended(comment_step(st, lines[0]), lines.drop_first());
    }
}

/// The first origin defined stands: once an origin is set, later lines
/// (another `ORG` or `END <expr>`) do not change it.
pub proof fn law_first_origin_stands(st: CommentState, lines: Seq<Seq<char>>)
    requires
        st.origin is Some,
    ensures
        comment_run(st, lines).origin == st.origin,
    decreases lines.len(),
{
    if lines.len() > 0 {
        law_first_origin_stands(comment_step(st, lines[0]), lines.drop_first());
    }
}

/// Lines are only ever added: the lines kept after more input start with
/// the lines kept before.
pub proof fn law_lines_only_grow(st: CommentState, lines: Seq<Seq<char>>)
    ensures
        comment_run(st, lines).lines.len() >= st.lines.len(),
        comment_run(st, lines).lines.take(st.lines.len() as int) == st.lines,
    decreases lines.len(),
{
    if lines.len() > 0 {
        let next = comment_step(st, lines[0]);
        assert(next.lines.take(st.lines.len() as int) =~= st.lines);
        law_lines_only_grow(next, lines.drop_first());
        assert(comment_run(st, lines).lines.take(st.lines.len() as int) =~= comment_run(next, lines.drop_first()).lines.take(
            next.lines.len() as int,
        ).take(st.lines.len() as int));
    } else {
        assert(st.lines.take(st.lines.len() as int) =~= st.lines);
    }
}

} // verus!
