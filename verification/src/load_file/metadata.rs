//! Metadata about a Redcode program, stored in its comments (`;name`, `;author`, ...).

use vstd::prelude::*;

use crate::text::{self, ascii_lowercase, is_whitespace, trim};

verus! {

/// Metadata about a Redcode program that is stored in the comments.
#[derive(Debug)]
pub struct Metadata {
    /// The Redcode standard for this warrior (e.g. "94").
    pub redcode: Option<String>,
    /// The name of this warrior.
    pub name: Option<String>,
    /// The author of this warrior.
    pub author: Option<String>,
    /// The date when this warrior was written.
    pub date: Option<String>,
    /// The version of this warrior.
    pub version: Option<String>,
    /// A description of the warrior's strategy.
    pub strategy: Option<String>,
    /// An assertion for this warrior to ensure compilation.
    pub assertion: Option<String>,
}

/// The text held by an optional string.
pub open spec fn opt_text(o: Option<String>) -> Option<Seq<char>> {
    match o {
        Some(s) => Some(s@),
        None => None,
    }
}

/// The mathematical model of [`Metadata`].
pub struct SpecMetadata {
    pub redcode: Option<Seq<char>>,
    pub name: Option<Seq<char>>,
    pub author: Option<Seq<char>>,
    pub date: Option<Seq<char>>,
    pub version: Option<Seq<char>>,
    pub strategy: Option<Seq<char>>,
    pub assertion: Option<Seq<char>>,
}

impl View for Metadata {
    type V = SpecMetadata;

    open spec fn view(&self) -> SpecMetadata {
        SpecMetadata {
            redcode: opt_text(self.redcode),
            name: opt_text(self.name),
            author: opt_text(self.author),
            date: opt_text(self.date),
            version: opt_text(self.version),
            strategy: opt_text(self.strategy),
            assertion: opt_text(self.assertion),
        }
    }
}

/// The index of the first occurrence of `c` in `s`, if any.
pub open spec fn first_index_of(s: Seq<char>, c: char) -> Option<int>
    decreases s.len(),
{
    if s.len() == 0 {
        None
    } else if s[0] == c {
        Some(0)
    } else {
        match first_index_of(s.drop_first(), c) {
            Some(i) => Some(i + 1),
            None => None,
        }
    }
}

/// The index of the first white-space character in `s`, if any.
pub open spec fn first_whitespace(s: Seq<char>) -> Option<int>
    decreases s.len(),
{
    if s.len() == 0 {
        None
    } else if is_whitespace(s[0]) {
        Some(0)
    } else {
        match first_whitespace(s.drop_first()) {
            Some(i) => Some(i + 1),
            None => None,
        }
    }
}

pub proof fn lemma_first_index_of(s: Seq<char>, c: char)
    ensures
        first_index_of(s, c) matches Some(p) ==> 0 <= p < s.len() && s[p] == c && forall|j: int|
            0 <= j < p ==> s[j] != c,
        first_index_of(s, c) is None ==> forall|j: int| 0 <= j < s.len() ==> s[j] != c,
    decreases s.len(),
{
    if s.len() > 0 {
        lemma_first_index_of(s.drop_first(), c);
        assert forall|j: int| 1 <= j < s.len() implies s[j] == s.drop_first()[j - 1] by {}
    }
}

pub proof fn lemma_first_whitespace(s: Seq<char>)
    ensures
        first_whitespace(s) matches Some(p) ==> 0 <= p < s.len() && is_whitespace(s[p]) && forall|j: int|
            0 <= j < p ==> !is_whitespace(s[j]),
        first_whitespace(s) is None ==> forall|j: int| 0 <= j < s.len() ==> !is_whitespace(s[j]),
    decreases s.len(),
{
    if s.len() > 0 {
        lemma_first_whitespace(s.drop_first());
        assert forall|j: int| 1 <= j < s.len() implies s[j] == s.drop_first()[j - 1] by {}
    }
}

/// The part of a line before its comment, trimmed.
pub open spec fn code_of_line(line: Seq<char>) -> Seq<char> {
    match first_index_of(line, ';') {
        Some(p) => trim(trim(line.take(p))),
        None => trim(trim(line)),
    }
}

/// The comment of a line (the text after the first `;`), trimmed, if it has one.
pub open spec fn comment_of_line(line: Seq<char>) -> Option<Seq<char>> {
    match first_index_of(line, ';') {
        Some(p) => Some(trim(line.skip(p + 1))),
        None => None,
    }
}

/// The directive word of a comment: its text up to the first white space.
pub open spec fn directive_of(comment: Seq<char>) -> Seq<char> {
    match first_whitespace(comment) {
        Some(q) => comment.take(q),
        None => comment,
    }
}

/// The argument of a comment directive: the rest after the first white-space
/// character, trimmed (empty when there is none).
pub open spec fn directive_value(comment: Seq<char>) -> Seq<char> {
    match first_whitespace(comment) {
        Some(q) => trim(comment.skip(q + 1)),
        None => Seq::empty(),
    }
}

impl SpecMetadata {
    /// Metadata with every entry absent.
    pub open spec fn empty() -> SpecMetadata {
        SpecMetadata {
            redcode: None,
            name: None,
            author: None,
            date: None,
            version: None,
            strategy: None,
            assertion: None,
        }
    }

    /// This metadata after a comment directive (its name already lower case) with the
    /// given value; unknown directives change nothing.
    pub open spec fn with_directive(self, directive: Seq<char>, value: Seq<char>) -> SpecMetadata {
        if directive == seq!['r', 'e', 'd', 'c', 'o', 'd', 'e'] {
            SpecMetadata { redcode: Some(value), ..self }
        } else if directive == seq!['n', 'a', 'm', 'e'] {
            SpecMetadata { name: Some(value), ..self }
        } else if directive == seq!['a', 'u', 't', 'h', 'o', 'r'] {
            SpecMetadata { author: Some(value), ..self }
        } else if directive == seq!['d', 'a', 't', 'e'] {
            SpecMetadata { date: Some(value), ..self }
        } else if directive == seq!['v', 'e', 'r', 's', 'i', 'o', 'n'] {
            SpecMetadata { version: Some(value), ..self }
        } else if directive == seq!['s', 't', 'r', 'a', 't', 'e', 'g', 'y'] {
            SpecMetadata { strategy: Some(value), ..self }
        } else if directive == seq!['a', 's', 's', 'e', 'r', 't'] {
            SpecMetadata { assertion: Some(value), ..self }
        } else {
            self
        }
    }

    /// This metadata after reading the comment of `line`, if it has one.
    /// Directive names are matched without regard to (ASCII) case.
    pub open spec fn after_line(self, line: Seq<char>) -> SpecMetadata {
        match comment_of_line(line) {
            Some(c) => self.with_directive(ascii_lowercase(directive_of(c)), directive_value(c)),
            None => self,
        }
    }
}

/// The comment line `;word value`.
pub open spec fn directive_comment(word: Seq<char>, value: Seq<char>) -> Seq<char> {
    seq![';'] + word + seq![' '] + value
}

/// A comment line `;word value`, with a lower-case word and a value without
/// white space at its ends, sets the directive `word` to `value`.
proof fn lemma_directive_comment(md: SpecMetadata, word: Seq<char>, value: Seq<char>)
    requires
        word.len() > 0,
        forall|j: int| 0 <= j < word.len() ==> 'a' <= #[trigger] word[j] <= 'z',
        value.len() > 0,
        !is_whitespace(value[0]),
        !is_whitespace(value.last()),
    ensures
        md.after_line(directive_comment(word, value)) == md.with_directive(word, value),
{
    let line = directive_comment(word, value);
    let k = word.len() as int;
    let c = word + seq![' '] + value;
    assert(line[0] == ';');
    assert(first_index_of(line, ';') == Some(0int));
    assert(line.skip(1) =~= c);
    assert(c[0] == word[0]);
    assert(c.last() == value.last());
    text::lemma_trim_plain(c);
    assert(comment_of_line(line) == Some(c));
    lemma_first_whitespace(c);
    assert(is_whitespace(c[k]));
    assert forall|j: int| 0 <= j < k implies !is_whitespace(#[trigger] c[j]) by {
        assert(c[j] == word[j]);
    }
    assert(first_whitespace(c) == Some(k));
    assert(c.take(k) =~= word);
    assert(directive_of(c) == word);
    assert(c.skip(k + 1) =~= value);
    text::lemma_trim_plain(value);
    assert(directive_value(c) == value);
    assert(ascii_lowercase(word) =~= word) by {
        assert forall|j: int| 0 <= j < word.len() implies ascii_lowercase(word)[j] == word[j] by {
            assert(text::ascii_lower(word[j]) == word[j]);
        }
    }
}

/// Each directive comment sets its own entry of the metadata to its value
/// and leaves every other entry as it was: `;redcode`, `;name`, `;author`,
/// `;date`, `;version`, `;strategy` and `;assert`.
pub proof fn law_directives_set_their_entry(md: SpecMetadata, value: Seq<char>)
    requires
        value.len() > 0,
        !is_whitespace(value[0]),
        !is_whitespace(value.last()),
    ensures
        md.after_line(directive_comment(seq!['r', 'e', 'd', 'c', 'o', 'd', 'e'], value)) == (SpecMetadata {
            redcode: Some(value),
            ..md
        }),
        md.after_line(directive_comment(seq!['n', 'a', 'm', 'e'], value)) == (SpecMetadata { name: Some(value), ..md }),
        md.after_line(directive_comment(seq!['a', 'u', 't', 'h', 'o', 'r'], value)) == (SpecMetadata {
            author: Some(value),
            ..md
        }),
        md.after_line(directive_comment(seq!['d', 'a', 't', 'e'], value)) == (SpecMetadata { date: Some(value), ..md }),
        md.after_line(directive_comment(seq!['v', 'e', 'r', 's', 'i', 'o', 'n'], value)) == (SpecMetadata {
            version: Some(value),
            ..md
        }),
        md.after_line(directive_comment(seq!['s', 't', 'r', 'a', 't', 'e', 'g', 'y'], value)) == (SpecMetadata {
            strategy: Some(value),
            ..md
        }),
        md.after_line(directive_comment(seq!['a', 's', 's', 'e', 'r', 't'], value)) == (SpecMetadata {
            assertion: Some(value),
            ..md
        }),
{
    lemma_directive_comment(md, seq!['r', 'e', 'd', 'c', 'o', 'd', 'e'], value);
    lemma_directive_comment(md, seq!['n', 'a', 'm', 'e'], value);
    lemma_directive_comment(md, seq!['a', 'u', 't', 'h', 'o', 'r'], value);
    lemma_directive_comment(md, seq!['d', 'a', 't', 'e'], value);
    lemma_directive_comment(md, seq!['v', 'e', 'r', 's', 'i', 'o', 'n'], value);
    lemma_directive_comment(md, seq!['s', 't', 'r', 'a', 't', 'e', 'g', 'y'], value);
    lemma_directive_comment(md, seq!['a', 's', 's', 'e', 'r', 't'], value);
}

/// The first index in `s[from..]` holding `c`, or `s.len()` when there is none.
pub fn find_char(s: &[char], c: char) -> (res: usize)
    ensures
        res <= s@.len(),
        match first_index_of(s@, c) {
            Some(p) => res == p,
            None => res == s@.len(),
        },
{
    let mut i: usize = 0;
    assert(s@.skip(0) =~= s@);
    while i < s.len() && s[i] != c
        invariant
            i <= s@.len(),
            first_index_of(s@, c) == (match first_index_of(s@.skip(i as int), c) {
                Some(p) => Some(p + i),
                None => None,
            }),
        decreases s@.len() - i,
    {
        assert(s@.skip(i as int).drop_first() =~= s@.skip(i + 1));
        i = i + 1;
    }
    proof {
        res_lemma_first_index(s@, c, i as int);
    }
    i
}

proof fn res_lemma_first_index(s: Seq<char>, c: char, i: int)
    requires
        0 <= i <= s.len(),
        i < s.len() ==> s[i] == c,
        first_index_of(s, c) == (match first_index_of(s.skip(i), c) {
            Some(p) => Some(p + i),
            None => None,
        }),
    ensures
        match first_index_of(s, c) {
            Some(p) => i == p,
            None => i == s.len(),
        },
{
    if i == s.len() {
        assert(s.skip(i).len() == 0);
    }
}

/// The first index in `s` holding white space, or `s.len()` when there is none.
fn find_whitespace(s: &[char]) -> (res: usize)
    ensures
        res <= s@.len(),
        match first_whitespace(s@) {
            Some(p) => res == p,
            None => res == s@.len(),
        },
{
    let mut i: usize = 0;
    assert(s@.skip(0) =~= s@);
    while i < s.len() && !text::char_is_whitespace(s[i])
        invariant
            i <= s@.len(),
            first_whitespace(s@) == (match first_whitespace(s@.skip(i as int)) {
                Some(p) => Some(p + i),
                None => None,
            }),
        decreases s@.len() - i,
    {
        assert(s@.skip(i as int).drop_first() =~= s@.skip(i + 1));
        i = i + 1;
    }
    if i == s.len() {
        assert(s@.skip(i as int).len() == 0);
    }
    i
}

impl Default for Metadata {
    fn default() -> (res: Self)
        ensures
            res@ == SpecMetadata::empty(),
    {
        Metadata {
            redcode: None,
            name: None,
            author: None,
            date: None,
            version: None,
            strategy: None,
            assertion: None,
        }
    }
}

impl Metadata {
    /// Whether every entry is absent.
    pub open spec fn is_empty(&self) -> bool {
        self@ == SpecMetadata::empty()
    }

    /// Reads warrior metadata out of a line's comment, if it has one, and
    /// returns the rest of the line (the part before any `;`), trimmed.
    pub fn parse_line(&mut self, line: &str) -> (res: String)
        ensures
            res@ == code_of_line(line@),
            final(self)@ == old(self)@.after_line(line@),
    {
        let chars = text::chars_of(line);
        let p = find_char(chars.as_slice(), ';');
        let before = text::slice_range(chars.as_slice(), 0, p);
        let trimmed = text::trim_chars(before.as_slice());
        let code = text::trim_chars(trimmed.as_slice());
        if p < chars.len() {
            let after = text::slice_range(chars.as_slice(), p + 1, chars.len());
            let comment = text::trim_chars(after.as_slice());
            let q = find_whitespace(comment.as_slice());
            let word = text::slice_range(comment.as_slice(), 0, q);
            let directive = text::to_ascii_lowercase(word.as_slice());
            let mut value_chars: Vec<char> = Vec::new();
            if q < comment.len() {
                let rest = text::slice_range(comment.as_slice(), q + 1, comment.len());
                assert(rest@ =~= comment@.skip(q + 1));
                value_chars = text::trim_chars(rest.as_slice());
                assert(first_whitespace(comment@) == Some(q as int));
                assert(value_chars@ =~= directive_value(comment@));
            } else {
                proof {
                    lemma_first_whitespace(comment@);
                }
                assert(first_whitespace(comment@) is None);
                assert(value_chars@ =~= directive_value(comment@));
            }
            proof {
                assert(chars@.take(p as int) =~= before@);
                assert(chars@.skip(p + 1) =~= after@);
                assert(word@ =~= comment@.take(q as int));
                if q == comment@.len() {
                    assert(comment@.take(q as int) =~= comment@);
                }
                assert(word@ == directive_of(comment@));
                assert(comment_of_line(line@) == Some(comment@));
                assert(value_chars@ =~= directive_value(comment@));
            }
            let value = text::string_from(value_chars.as_slice());
            self.set_directive(directive.as_slice(), value);
        } else {
            proof {
                assert(chars@.take(p as int) =~= chars@);
                lemma_first_index_of(chars@, ';');
            }
        }
        text::string_from(code.as_slice())
    }

    fn set_directive(&mut self, directive: &[char], value: String)
        ensures
            final(self)@ == old(self)@.with_directive(directive@, value@),
    {
        let ghost d = directive@;
        if text::chars_equal(directive, vec!['r', 'e', 'd', 'c', 'o', 'd', 'e'].as_slice()) {
            self.redcode = Some(value);
        } else if text::chars_equal(directive, vec!['n', 'a', 'm', 'e'].as_slice()) {
            self.name = Some(value);
        } else if text::chars_equal(directive, vec!['a', 'u', 't', 'h', 'o', 'r'].as_slice()) {
            self.author = Some(value);
        } else if text::chars_equal(directive, vec!['d', 'a', 't', 'e'].as_slice()) {
            self.date = Some(value);
        } else if text::chars_equal(directive, vec!['v', 'e', 'r', 's', 'i', 'o', 'n'].as_slice()) {
            self.version = Some(value);
        } else if text::chars_equal(
            directive,
            vec!['s', 't', 'r', 'a', 't', 'e', 'g', 'y'].as_slice(),
        ) {
            self.strategy = Some(value);
        } else if text::chars_equal(directive, vec!['a', 's', 's', 'e', 'r', 't'].as_slice()) {
            self.assertion = Some(value);
        }
    }
}

/// The comment line for one metadata directive, if it is set: `;name`
/// alone for an empty value, otherwise `;name value`.
pub open spec fn directive_line(value: Option<Seq<char>>, name: Seq<char>) -> Seq<char> {
    match value {
        Some(v) => if v.len() == 0 {
            seq![';'] + name + seq!['\n']
        } else {
            seq![';'] + name + seq![' '] + v + seq!['\n']
        },
        None => Seq::empty(),
    }
}

impl SpecMetadata {
    /// The metadata as comment lines, in the order redcode, name, author,
    /// version, date, strategy, assert.
    pub open spec fn text(self) -> Seq<char> {
        directive_line(self.redcode, "redcode"@) + directive_line(self.name, "name"@) + directive_line(self.author, "author"@)
            + directive_line(self.version, "version"@) + directive_line(self.date, "date"@) + directive_line(
            self.strategy,
            "strategy"@,
        ) + directive_line(self.assertion, "assert"@)
    }
}

/// Appends the comment line of one directive to `v`.
fn push_directive(v: &mut Vec<char>, value: &Option<String>, name: &str)
    ensures
        final(v)@ == old(v)@ + directive_line(opt_text(*value), name@),
{
    match value {
        Some(s) => {
            v.push(';');
            let mut n = text::chars_of(name);
            v.append(&mut n);
            let mut c = text::chars_of(s.as_str());
            if c.len() > 0 {
                v.push(' ');
                v.append(&mut c);
            }
            v.push('\n');
            proof {
                if s@.len() == 0 {
                    assert(final(v)@ =~= old(v)@ + directive_line(opt_text(*value), name@));
                } else {
                    assert(final(v)@ =~= old(v)@ + directive_line(opt_text(*value), name@));
                }
            }
        },
        None => {
            assert(old(v)@ + Seq::<char>::empty() =~= old(v)@);
        },
    }
}

impl Metadata {
    /// The metadata as comment lines, as [`SpecMetadata::text`] says.
    pub fn to_string(&self) -> (res: String)
        ensures
            res@ == self@.text(),
    {
        let mut v: Vec<char> = Vec::new();
        push_directive(&mut v, &self.redcode, "redcode");
        push_directive(&mut v, &self.name, "name");
        push_directive(&mut v, &self.author, "author");
        push_directive(&mut v, &self.version, "version");
        push_directive(&mut v, &self.date, "date");
        push_directive(&mut v, &self.strategy, "strategy");
        push_directive(&mut v, &self.assertion, "assert");
        assert(v@ =~= self@.text());
        text::string_from(v.as_slice())
    }
}

} // verus!
