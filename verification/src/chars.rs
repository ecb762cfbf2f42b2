//! Character classes, and conversions between text, character sequences and
//! paths.
//!
//! The lexer reads characters through three classes: white space, letters
//! and digits. By default the classes are those of the standard library's
//! `char`. Their Unicode tables are not restated here: each table is a named
//! predicate, and the standard method is assumed to compute it. A
//! `Classifier` can also take its classes from a table of listed characters;
//! the lexer and the parser are proved for every classification.

use vstd::prelude::*;
use std::path::PathBuf;

verus! {

/// The Unicode property `White_Space`, as `char::is_whitespace` reads it.
pub uninterp spec fn white_space(c: char) -> bool;

/// The Unicode property `Alphabetic`, as `char::is_alphabetic` reads it.
pub uninterp spec fn alphabetic(c: char) -> bool;

/// The Unicode numeric categories, as `char::is_alphanumeric` reads them.
pub uninterp spec fn numeric(c: char) -> bool;

/// Assumed of `char::is_whitespace`: it holds of the space character and of
/// every other character with the property `White_Space`.
pub assume_specification[ char::is_whitespace ](c: char) -> (r: bool)
    ensures
        r == (c == ' ' || white_space(c)),
;

/// Assumed of `char::is_alphabetic`: it decides the property `Alphabetic`.
pub assume_specification[ char::is_alphabetic ](c: char) -> (r: bool)
    ensures
        r == alphabetic(c),
;

/// Assumed of `char::is_alphanumeric`: it holds exactly of the characters
/// that are alphabetic or numeric.
pub assume_specification[ char::is_alphanumeric ](c: char) -> (r: bool)
    ensures
        r == (alphabetic(c) || numeric(c)),
;

/// The classes of characters that the lexer tells apart, each as the set of
/// its members.
pub struct CharClasses {
    /// White space, which separates tokens.
    pub blank: Set<char>,
    /// The letters, which may begin a variable name.
    pub letter: Set<char>,
    /// The digits, which may continue a variable name.
    pub digit: Set<char>,
}

impl CharClasses {
    /// White space.
    pub open spec fn is_blank(self, c: char) -> bool {
        self.blank.contains(c)
    }

    /// A character that may begin a variable name: a letter or `_`.
    pub open spec fn is_name_start(self, c: char) -> bool {
        self.letter.contains(c) || c == '_'
    }

    /// A character that may continue a variable name: a letter, a digit or
    /// `_`.
    pub open spec fn is_name_part(self, c: char) -> bool {
        self.letter.contains(c) || self.digit.contains(c) || c == '_'
    }
}

/// The classes of Unicode, as the standard library decides them: white space
/// is the space character and whatever else has the property `White_Space`;
/// the letters are the alphabetic characters and the digits the numeric
/// ones.
pub open spec fn unicode_classes() -> CharClasses {
    CharClasses {
        blank: Set::new(|c: char| c == ' ' || white_space(c)),
        letter: Set::new(|c: char| alphabetic(c)),
        digit: Set::new(|c: char| numeric(c)),
    }
}

/// Character classes given by listing their members.
#[derive(Debug, PartialEq, Eq)]
pub struct CharTable {
    pub blanks: Vec<char>,
    pub letters: Vec<char>,
    pub digits: Vec<char>,
}

impl View for CharTable {
    type V = CharClasses;

    open spec fn view(&self) -> CharClasses {
        CharClasses {
            blank: Set::new(|c: char| self.blanks@.contains(c)),
            letter: Set::new(|c: char| self.letters@.contains(c)),
            digit: Set::new(|c: char| self.digits@.contains(c)),
        }
    }
}

/// How characters are classified: by the standard library's Unicode tables,
/// or by a table of listed characters.
#[derive(Debug, Clone, Copy)]
pub enum Classifier<'a> {
    Unicode,
    Table(&'a CharTable),
}

impl<'a> View for Classifier<'a> {
    type V = CharClasses;

    open spec fn view(&self) -> CharClasses {
        match self {
            Classifier::Unicode => unicode_classes(),
            Classifier::Table(table) => table@,
        }
    }
}

fn is_listed(list: &Vec<char>, c: char) -> (r: bool)
    ensures
        r == list@.contains(c),
{
    let mut i: usize = 0;
    while i < list.len()
        invariant
            i <= list.len(),
            forall|j: int| 0 <= j < i ==> list@[j] != c,
        decreases list.len() - i,
    {
        if list[i] == c {
            return true;
        }
        i = i + 1;
    }
    false
}

impl<'a> Classifier<'a> {
    /// Whether `c` is white space.
    pub fn is_blank(&self, c: char) -> (r: bool)
        ensures
            r == self@.is_blank(c),
    {
        match self {
            Classifier::Unicode => c.is_whitespace(),
            Classifier::Table(table) => is_listed(&table.blanks, c),
        }
    }

    /// Whether `c` may begin a variable name.
    pub fn is_name_start(&self, c: char) -> (r: bool)
        ensures
            r == self@.is_name_start(c),
    {
        match self {
            Classifier::Unicode => c.is_alphabetic() || c == '_',
            Classifier::Table(table) => is_listed(&table.letters, c) || c == '_',
        }
    }

    /// Whether `c` may continue a variable name.
    pub fn is_name_part(&self, c: char) -> (r: bool)
        ensures
            r == self@.is_name_part(c),
    {
        match self {
            Classifier::Unicode => c.is_alphanumeric() || c == '_',
            Classifier::Table(table) => is_listed(&table.letters, c) || is_listed(
                &table.digits,
                c,
            ) || c == '_',
        }
    }
}

/// Assumed of `String::push`: it appends the character to the end of the
/// string.
pub assume_specification[ String::push ](s: &mut String, ch: char)
    ensures
        final(s)@ == old(s)@.push(ch),
;

/// The characters of `input`, in order.
pub fn to_chars(input: &str) -> (chars: Vec<char>)
    ensures
        chars@ == input@,
{
    let mut chars: Vec<char> = Vec::new();
    for c in it: input.chars()
        invariant
            it.seq() == input@,
            chars@ == it.seq().take(it.index()),
    {
        chars.push(c);
    }
    chars
}

/// `std::path::PathBuf`, a file-system path of the standard library, carried
/// as an opaque value.
#[verifier::external_type_specification]
#[verifier::external_body]
pub struct ExPathBuf(std::path::PathBuf);

/// The text of a path: for a path that `PathBuf::from` made of a string,
/// that string.
pub uninterp spec fn path_text(path: PathBuf) -> Seq<char>;

/// Turns a string into a path with `PathBuf::from`, which keeps the text as
/// it is: the path's text is assumed to be the string.
#[verifier::external_body]
pub(crate) fn path_from_string(text: String) -> (path: PathBuf)
    ensures
        path_text(path) == text@,
{
    PathBuf::from(text)
}

} // verus!
