//! The lexer: from a line of text to typed tokens.
//!
//! What the lexer produces is defined by `token_at`, a function of the text
//! and a position in it. `Lexer::next` computes it and moves on.

use vstd::prelude::*;
use crate::chars::{to_chars, unicode_classes, CharClasses, Classifier};
use crate::parser::ParseError;

verus! {

/// A lexical unit of a command line.
#[derive(Debug, PartialEq, Eq)]
pub enum Token {
    /// Ordinary text, with its quotes removed.
    Word(String),
    /// The raw text between a pair of matching parentheses.
    SubShell(String),
    /// The name of a referenced variable.
    Variable(String),
    /// `|`
    Pipe,
    /// `|&`
    PipeBoth,
    /// `>`, `1>`, `>>`, `1>>`
    RedirOut,
    /// `2>`, `2>>`
    RedirErr,
    /// `&>`, `&>>`
    RedirBoth,
    /// `;`
    AndThen,
    /// `&&`
    AndThenIf,
}

/// The mathematical value of a `Token`.
pub enum TokenView {
    Word(Seq<char>),
    SubShell(Seq<char>),
    Variable(Seq<char>),
    Pipe,
    PipeBoth,
    RedirOut,
    RedirErr,
    RedirBoth,
    AndThen,
    AndThenIf,
}

impl View for Token {
    type V = TokenView;

    open spec fn view(&self) -> TokenView {
        match self {
            Token::Word(w) => TokenView::Word(w@),
            Token::SubShell(raw) => TokenView::SubShell(raw@),
            Token::Variable(name) => TokenView::Variable(name@),
            Token::Pipe => TokenView::Pipe,
            Token::PipeBoth => TokenView::PipeBoth,
            Token::RedirOut => TokenView::RedirOut,
            Token::RedirErr => TokenView::RedirErr,
            Token::RedirBoth => TokenView::RedirBoth,
            Token::AndThen => TokenView::AndThen,
            Token::AndThenIf => TokenView::AndThenIf,
        }
    }
}

/// What one lexing step yields: a token, an error, or nothing.
pub type Item = Option<Result<TokenView, ParseError>>;

/// The mathematical value of what `Lexer::next` returns.
pub open spec fn item_view(r: Option<Result<Token, ParseError>>) -> Item {
    match r {
        Some(Ok(t)) => Some(Ok(t@)),
        Some(Err(e)) => Some(Err(e)),
        None => None,
    }
}

/// What a recogniser finds at a position: nothing, or a token or an error
/// together with the position after it.
pub type Match = Option<(Result<TokenView, ParseError>, int)>;

/// The outcome of one lexing step: what was produced, and the position at
/// which the next step starts.
pub struct Lexed {
    pub item: Item,
    pub next: int,
}

/// Whether the lexer is outside quotes, or inside a literal of either kind.
#[derive(Debug, Clone, Copy, PartialEq, Eq, Structural)]
pub enum Quote {
    Unquoted,
    Single,
    Double,
}

/// What scanning a word from some position finds: the accumulated text, the
/// position where accumulation stopped, and whether every quote was closed.
pub struct WordScan {
    pub text: Seq<char>,
    pub end: int,
    pub closed: bool,
}

impl WordScan {
    /// The same scan with `prefix` put before its text.
    pub open spec fn prefixed(self, prefix: Seq<char>) -> WordScan {
        WordScan { text: prefix + self.text, end: self.end, closed: self.closed }
    }
}

/// The first position at or after `pos` that holds no white space.
pub open spec fn after_whitespace(classes: CharClasses, s: Seq<char>, pos: int) -> int
    decreases s.len() - pos,
{
    if 0 <= pos < s.len() && classes.is_blank(s[pos]) {
        after_whitespace(classes, s, pos + 1)
    } else {
        pos
    }
}

/// A redirection operator at `p`: an optional `1`, `2` or `&`, then `>`,
/// then an optional second `>`.
pub open spec fn redirection_at(s: Seq<char>, p: int) -> Option<(TokenView, int)> {
    let prefixed = 0 <= p < s.len() && (s[p] == '1' || s[p] == '2' || s[p] == '&');
    let q = if prefixed { p + 1 } else { p };
    if 0 <= q < s.len() && s[q] == '>' {
        let end = if q + 1 < s.len() && s[q + 1] == '>' { q + 2 } else { q + 1 };
        let token = if prefixed && s[p] == '2' {
            TokenView::RedirErr
        } else if prefixed && s[p] == '&' {
            TokenView::RedirBoth
        } else {
            TokenView::RedirOut
        };
        Some((token, end))
    } else {
        None
    }
}

/// A pipe operator at `p`: `|&`, or `|` alone.
pub open spec fn pipe_at(s: Seq<char>, p: int) -> Option<(TokenView, int)> {
    if 0 <= p < s.len() && s[p] == '|' {
        if p + 1 < s.len() && s[p + 1] == '&' {
            Some((TokenView::PipeBoth, p + 2))
        } else {
            Some((TokenView::Pipe, p + 1))
        }
    } else {
        None
    }
}

/// A sequencer at `p`: `;` or `&&`.
pub open spec fn sequencer_at(s: Seq<char>, p: int) -> Option<(TokenView, int)> {
    if 0 <= p < s.len() && s[p] == ';' {
        Some((TokenView::AndThen, p + 1))
    } else if 0 <= p && p + 1 < s.len() && s[p] == '&' && s[p + 1] == '&' {
        Some((TokenView::AndThenIf, p + 2))
    } else {
        None
    }
}

/// The position of the `)` that brings the count of open parentheses from
/// `depth` at position `i` down to zero, if there is one.
pub open spec fn closing_paren(s: Seq<char>, i: int, depth: nat) -> Option<int>
    decreases s.len() - i,
{
    if i < 0 || i >= s.len() || depth == 0 {
        None
    } else if s[i] == ')' {
        if depth == 1 {
            Some(i)
        } else {
            closing_paren(s, i + 1, (depth - 1) as nat)
        }
    } else if s[i] == '(' {
        closing_paren(s, i + 1, depth + 1)
    } else {
        closing_paren(s, i + 1, depth)
    }
}

/// A subshell at `p`: `(` or `$(`, and the raw text up to the matching `)`.
/// Without a matching `)` the rest of the input is consumed by the error.
pub open spec fn subshell_at(s: Seq<char>, p: int) -> Match {
    let open = if 0 <= p < s.len() && s[p] == '(' {
        Some(p)
    } else if 0 <= p && p + 1 < s.len() && s[p] == '$' && s[p + 1] == '(' {
        Some(p + 1)
    } else {
        None
    };
    match open {
        Some(o) => Some(
            match closing_paren(s, o + 1, 1) {
                Some(close) => (Ok(TokenView::SubShell(s.subrange(o + 1, close))), close + 1),
                None => (Err(ParseError::UnmatchedDelimiterError), s.len() as int),
            },
        ),
        None => None,
    }
}

/// The first position at or after `i` that cannot continue a variable name.
pub open spec fn name_end(classes: CharClasses, s: Seq<char>, i: int) -> int
    decreases s.len() - i,
{
    if 0 <= i < s.len() && classes.is_name_part(s[i]) {
        name_end(classes, s, i + 1)
    } else {
        i
    }
}

/// Whether a variable name starts at `i`.
pub open spec fn name_starts_at(classes: CharClasses, s: Seq<char>, i: int) -> bool {
    0 <= i < s.len() && classes.is_name_start(s[i])
}

/// Whether a name in braces stands at `i`: `{`, a name, and `}` right after
/// the name.
pub open spec fn braced_name_at(classes: CharClasses, s: Seq<char>, i: int) -> bool {
    let end = name_end(classes, s, i + 1);
    &&& 0 <= i < s.len() && s[i] == '{'
    &&& name_starts_at(classes, s, i + 1)
    &&& end < s.len() && s[end] == '}'
}

/// A variable reference at `p`: `$name` or `${name}`. A `$` that introduces
/// neither is an error that consumes the `$` alone.
pub open spec fn variable_at(classes: CharClasses, s: Seq<char>, p: int) -> Match {
    if 0 <= p < s.len() && s[p] == '$' {
        if name_starts_at(classes, s, p + 1) {
            let end = name_end(classes, s, p + 1);
            Some((Ok(TokenView::Variable(s.subrange(p + 1, end))), end))
        } else if braced_name_at(classes, s, p + 1) {
            let end = name_end(classes, s, p + 2);
            Some((Ok(TokenView::Variable(s.subrange(p + 2, end))), end + 1))
        } else {
            Some((Err(ParseError::InvalidVariable), p + 1))
        }
    } else {
        None
    }
}

/// A character at which an unquoted word stops.
pub open spec fn is_word_break(classes: CharClasses, c: char) -> bool {
    classes.is_blank(c) || c == '|' || c == ';' || c == '>' || c == '&'
}

/// The word scan from position `i` in quote state `quote`. A quote character
/// opens a literal, which the same character closes, and is dropped; inside
/// a literal every other character is kept as it is; outside literals the
/// scan stops at a word break.
pub open spec fn scan_word(classes: CharClasses, s: Seq<char>, i: int, quote: Quote) -> WordScan
    decreases s.len() - i,
{
    if i < 0 || i >= s.len() {
        WordScan { text: Seq::empty(), end: i, closed: quote == Quote::Unquoted }
    } else {
        match quote {
            Quote::Unquoted => if s[i] == '\'' {
                scan_word(classes, s, i + 1, Quote::Single)
            } else if s[i] == '"' {
                scan_word(classes, s, i + 1, Quote::Double)
            } else if is_word_break(classes, s[i]) {
                WordScan { text: Seq::empty(), end: i, closed: true }
            } else {
                scan_word(classes, s, i + 1, Quote::Unquoted).prefixed(seq![s[i]])
            },
            Quote::Single => if s[i] == '\'' {
                scan_word(classes, s, i + 1, Quote::Unquoted)
            } else {
                scan_word(classes, s, i + 1, Quote::Single).prefixed(seq![s[i]])
            },
            Quote::Double => if s[i] == '"' {
                scan_word(classes, s, i + 1, Quote::Unquoted)
            } else {
                scan_word(classes, s, i + 1, Quote::Double).prefixed(seq![s[i]])
            },
        }
    }
}

/// The word at `p`: an error if the input ends inside a quote, a `Word` if
/// any text was accumulated, and otherwise nothing. Nothing is accumulated
/// at the end of the input, at a word break, and from empty literals.
pub open spec fn word_at(classes: CharClasses, s: Seq<char>, p: int) -> Lexed {
    let scan = scan_word(classes, s, p, Quote::Unquoted);
    if !scan.closed {
        Lexed { item: Some(Err(ParseError::UnterminatedStringLiteral)), next: scan.end }
    } else if scan.text.len() > 0 {
        Lexed { item: Some(Ok(TokenView::Word(scan.text))), next: scan.end }
    } else {
        Lexed { item: None, next: scan.end }
    }
}

/// One lexing step from `pos`: skip white space, then take the first of
/// redirection, pipe, sequencer, subshell, variable and word that matches.
pub open spec fn token_at(classes: CharClasses, s: Seq<char>, pos: int) -> Lexed {
    let p = after_whitespace(classes, s, pos);
    if let Some((token, next)) = redirection_at(s, p) {
        Lexed { item: Some(Ok(token)), next }
    } else if let Some((token, next)) = pipe_at(s, p) {
        Lexed { item: Some(Ok(token)), next }
    } else if let Some((token, next)) = sequencer_at(s, p) {
        Lexed { item: Some(Ok(token)), next }
    } else if let Some((result, next)) = subshell_at(s, p) {
        Lexed { item: Some(result), next }
    } else if let Some((result, next)) = variable_at(classes, s, p) {
        Lexed { item: Some(result), next }
    } else {
        word_at(classes, s, p)
    }
}

/// Positions stay inside the text: skipping white space moves forward and
/// stops at the end at the latest.
pub proof fn lemma_after_whitespace_bounds(classes: CharClasses, s: Seq<char>, pos: int)
    requires
        0 <= pos <= s.len(),
    ensures
        pos <= after_whitespace(classes, s, pos) <= s.len(),
    decreases s.len() - pos,
{
    if pos < s.len() && classes.is_blank(s[pos]) {
        lemma_after_whitespace_bounds(classes, s, pos + 1);
    }
}

/// A closing parenthesis, where there is one, lies at or after the position
/// from which it was sought.
pub proof fn lemma_closing_paren_bounds(s: Seq<char>, i: int, depth: nat)
    requires
        0 <= i,
    ensures
        closing_paren(s, i, depth) matches Some(close) ==> i <= close < s.len(),
    decreases s.len() - i,
{
    if i < s.len() && depth > 0 {
        if s[i] == ')' {
            if depth > 1 {
                lemma_closing_paren_bounds(s, i + 1, (depth - 1) as nat);
            }
        } else if s[i] == '(' {
            lemma_closing_paren_bounds(s, i + 1, depth + 1);
        } else {
            lemma_closing_paren_bounds(s, i + 1, depth);
        }
    }
}

/// A variable name ends inside the text, and after its first character where
/// that character can continue a name.
pub proof fn lemma_name_end_bounds(classes: CharClasses, s: Seq<char>, i: int)
    requires
        0 <= i <= s.len(),
    ensures
        i <= name_end(classes, s, i) <= s.len(),
        i < s.len() && classes.is_name_part(s[i]) ==> i < name_end(classes, s, i),
    decreases s.len() - i,
{
    if i < s.len() && classes.is_name_part(s[i]) {
        lemma_name_end_bounds(classes, s, i + 1);
    }
}

/// A word scan ends inside the text; it ends at the end of the text when a
/// quote stays open, and after its start when it accumulated any text.
pub proof fn lemma_scan_word_bounds(classes: CharClasses, s: Seq<char>, i: int, quote: Quote)
    requires
        0 <= i <= s.len(),
    ensures
        i <= scan_word(classes, s, i, quote).end <= s.len(),
        !scan_word(classes, s, i, quote).closed ==> scan_word(classes, s, i, quote).end == s.len(),
        scan_word(classes, s, i, quote).text.len() > 0 ==> i < scan_word(classes, s, i, quote).end,
    decreases s.len() - i,
{
    if i < s.len() {
        match quote {
            Quote::Unquoted => {
                if s[i] == '\'' {
                    lemma_scan_word_bounds(classes, s, i + 1, Quote::Single);
                } else if s[i] == '"' {
                    lemma_scan_word_bounds(classes, s, i + 1, Quote::Double);
                } else if !is_word_break(classes, s[i]) {
                    lemma_scan_word_bounds(classes, s, i + 1, Quote::Unquoted);
                }
            },
            Quote::Single => {
                if s[i] == '\'' {
                    lemma_scan_word_bounds(classes, s, i + 1, Quote::Unquoted);
                } else {
                    lemma_scan_word_bounds(classes, s, i + 1, Quote::Single);
                }
            },
            Quote::Double => {
                if s[i] == '"' {
                    lemma_scan_word_bounds(classes, s, i + 1, Quote::Unquoted);
                } else {
                    lemma_scan_word_bounds(classes, s, i + 1, Quote::Double);
                }
            },
        }
    }
}

/// Every lexing step stays inside the text, and a step that yields a token
/// or an error consumes at least one character. The raw text of a subshell
/// is shorter than the text it was taken from.
pub proof fn lemma_token_at_progress(classes: CharClasses, s: Seq<char>, pos: int)
    requires
        0 <= pos <= s.len(),
    ensures
        pos <= token_at(classes, s, pos).next <= s.len(),
        token_at(classes, s, pos).item is Some ==> pos < token_at(classes, s, pos).next,
        token_at(classes, s, pos).item matches Some(Ok(TokenView::SubShell(raw))) ==> raw.len()
            < s.len(),
{
    let p = after_whitespace(classes, s, pos);
    lemma_after_whitespace_bounds(classes, s, pos);
    lemma_closing_paren_bounds(s, p + 1, 1);
    lemma_closing_paren_bounds(s, p + 2, 1);
    if p < s.len() {
        lemma_name_end_bounds(classes, s, p + 1);
    }
    if p + 1 < s.len() {
        lemma_name_end_bounds(classes, s, p + 2);
    }
    lemma_scan_word_bounds(classes, s, p, Quote::Unquoted);
}

/// Every character of a variable name can continue a name.
pub proof fn lemma_name_parts(classes: CharClasses, s: Seq<char>, i: int, k: int)
    requires
        0 <= i <= k < name_end(classes, s, i),
    ensures
        k < s.len(),
        classes.is_name_part(s[k]),
    decreases s.len() - i,
{
    if i < s.len() && classes.is_name_part(s[i]) {
        if i < k {
            lemma_name_parts(classes, s, i + 1, k);
        }
    }
}

/// The texts that tokens carry: a word is not empty; a variable name is not
/// empty, begins with a letter or an underscore, and goes on with letters,
/// digits and underscores.
pub proof fn lemma_token_texts(classes: CharClasses, s: Seq<char>, pos: int)
    requires
        0 <= pos <= s.len(),
    ensures
        token_at(classes, s, pos).item matches Some(Ok(TokenView::Word(w))) ==> w.len() > 0,
        token_at(classes, s, pos).item matches Some(Ok(TokenView::Variable(name))) ==> ({
            &&& name.len() > 0
            &&& classes.is_name_start(name[0])
            &&& forall|k: int| 0 <= k < name.len() ==> classes.is_name_part(#[trigger] name[k])
        }),
{
    let p = after_whitespace(classes, s, pos);
    lemma_after_whitespace_bounds(classes, s, pos);
    if let Some(Ok(TokenView::Variable(name))) = token_at(classes, s, pos).item {
        let start = if name_starts_at(classes, s, p + 1) {
            p + 1
        } else {
            p + 2
        };
        lemma_name_end_bounds(classes, s, start);
        assert forall|k: int| 0 <= k < name.len() implies classes.is_name_part(
            #[trigger] name[k],
        ) by {
            lemma_name_parts(classes, s, start, start + k);
        }
    }
}

/// A cursor over the characters of one line of input.
pub struct Lexer<'a> {
    chars: Vec<char>,
    pos: usize,
    classifier: Classifier<'a>,
}

impl<'a> Lexer<'a> {
    /// The invariant of every lexer: its position lies inside its text.
    #[verifier::type_invariant]
    pub closed spec fn in_bounds(self) -> bool {
        self.pos <= self.chars.len()
    }

    /// The whole text that this lexer reads.
    pub closed spec fn text(&self) -> Seq<char> {
        self.chars@
    }

    /// The position at which the next lexing step starts.
    pub closed spec fn position(&self) -> int {
        self.pos as int
    }

    /// The classes through which this lexer reads characters.
    pub closed spec fn classes(&self) -> CharClasses {
        self.classifier@
    }

    /// The lexing step that this lexer is about to take.
    pub open spec fn step(&self) -> Lexed {
        token_at(self.classes(), self.text(), self.position())
    }

    /// What the invariant says in terms of `text` and `position`.
    pub proof fn lemma_in_bounds(self)
        requires
            self.in_bounds(),
        ensures
            0 <= self.position() <= self.text().len(),
    {
    }

    /// A lexer at the start of `input` that classifies characters as
    /// Unicode does.
    pub fn new(input: &str) -> (lexer: Lexer<'a>)
        ensures
            lexer.text() == input@,
            lexer.position() == 0,
            lexer.classes() == unicode_classes(),
    {
        Lexer { chars: to_chars(input), pos: 0, classifier: Classifier::Unicode }
    }

    /// A lexer at the start of `input` that classifies characters as
    /// `classifier` does.
    pub fn with_classifier(input: &str, classifier: Classifier<'a>) -> (lexer: Lexer<'a>)
        ensures
            lexer.text() == input@,
            lexer.position() == 0,
            lexer.classes() == classifier@,
    {
        Lexer { chars: to_chars(input), pos: 0, classifier }
    }

    /// The classifier of this lexer.
    pub fn classifier(&self) -> (classifier: Classifier<'a>)
        ensures
            classifier@ == self.classes(),
    {
        self.classifier
    }

    /// The first position at or after the cursor that holds no white space.
    fn skip_whitespace(&self) -> (p: usize)
        requires
            self.pos <= self.chars.len(),
        ensures
            p == after_whitespace(self.classifier@, self.chars@, self.pos as int),
            self.pos <= p <= self.chars.len(),
    {
        let mut p: usize = self.pos;
        while p < self.chars.len() && self.classifier.is_blank(self.chars[p])
            invariant
                self.pos <= p <= self.chars.len(),
                after_whitespace(self.classifier@, self.chars@, p as int) == after_whitespace(
                    self.classifier@, self.chars@,
                    self.pos as int,
                ),
            decreases self.chars.len() - p,
        {
            p = p + 1;
        }
        p
    }

    /// Looks for a redirection operator at `p`; the cursor stays.
    fn lex_redirection(&self, p: usize) -> (r: Option<(Token, usize)>)
        requires
            p <= self.chars.len(),
        ensures
            match r {
                Some((token, end)) => redirection_at(self.chars@, p as int) == Some(
                    (token@, end as int),
                ) && p < end <= self.chars.len(),
                None => redirection_at(self.chars@, p as int) is None,
            },
    {
        let n: usize = self.chars.len();
        let mut q: usize = p;
        let mut err_prefix: bool = false;
        let mut both_prefix: bool = false;
        if p < n {
            let c = self.chars[p];
            if c == '1' || c == '2' || c == '&' {
                err_prefix = c == '2';
                both_prefix = c == '&';
                q = p + 1;
            }
        }
        if q < n && self.chars[q] == '>' {
            let end: usize = if q + 1 < n && self.chars[q + 1] == '>' {
                q + 2
            } else {
                q + 1
            };
            let token = if err_prefix {
                Token::RedirErr
            } else if both_prefix {
                Token::RedirBoth
            } else {
                Token::RedirOut
            };
            Some((token, end))
        } else {
            None
        }
    }

    /// Looks for a pipe operator at `p`; the cursor stays.
    fn lex_pipe(&self, p: usize) -> (r: Option<(Token, usize)>)
        requires
            p <= self.chars.len(),
        ensures
            match r {
                Some((token, end)) => pipe_at(self.chars@, p as int) == Some((token@, end as int))
                    && p < end <= self.chars.len(),
                None => pipe_at(self.chars@, p as int) is None,
            },
    {
        let n: usize = self.chars.len();
        if p < n && self.chars[p] == '|' {
            if p + 1 < n && self.chars[p + 1] == '&' {
                Some((Token::PipeBoth, p + 2))
            } else {
                Some((Token::Pipe, p + 1))
            }
        } else {
            None
        }
    }

    /// Looks for a sequencer at `p`; the cursor stays.
    fn lex_and_then(&self, p: usize) -> (r: Option<(Token, usize)>)
        requires
            p <= self.chars.len(),
        ensures
            match r {
                Some((token, end)) => sequencer_at(self.chars@, p as int) == Some(
                    (token@, end as int),
                ) && p < end <= self.chars.len(),
                None => sequencer_at(self.chars@, p as int) is None,
            },
    {
        let n: usize = self.chars.len();
        if p < n && self.chars[p] == ';' {
            Some((Token::AndThen, p + 1))
        } else if p < n && p + 1 < n && self.chars[p] == '&' && self.chars[p + 1] == '&' {
            Some((Token::AndThenIf, p + 2))
        } else {
            None
        }
    }

    /// The raw text between the parenthesis at `open` and the one that
    /// matches it, with the position after the latter; `None` where nothing
    /// matches.
    fn subshell_inner(&self, open: usize) -> (r: Option<(String, usize)>)
        requires
            open < self.chars.len(),
        ensures
            match r {
                Some((raw, end)) => closing_paren(self.chars@, open + 1, 1) == Some(end - 1)
                    && raw@ == self.chars@.subrange(open + 1, end - 1) && open + 1 < end
                    <= self.chars.len(),
                None => closing_paren(self.chars@, open + 1, 1) is None,
            },
    {
        let n: usize = self.chars.len();
        let mut raw = String::new();
        let mut depth: usize = 1;
        let mut i: usize = open + 1;
        while i < n
            invariant
                n == self.chars.len(),
                open + 1 <= i <= n,
                1 <= depth <= i - open,
                raw@ == self.chars@.subrange(open + 1, i as int),
                closing_paren(self.chars@, open + 1, 1) == closing_paren(
                    self.chars@,
                    i as int,
                    depth as nat,
                ),
            decreases n - i,
        {
            let c = self.chars[i];
            if c == ')' {
                if depth == 1 {
                    return Some((raw, i + 1));
                }
                depth = depth - 1;
            } else if c == '(' {
                depth = depth + 1;
            }
            raw.push(c);
            i = i + 1;
        }
        None
    }

    /// Looks for a subshell at `p`; the cursor stays.
    fn lex_subshell(&self, p: usize) -> (r: Option<(Result<Token, ParseError>, usize)>)
        requires
            p <= self.chars.len(),
        ensures
            match r {
                Some((result, end)) => subshell_at(self.chars@, p as int) == Some(
                    (result_view(result), end as int),
                ) && p < end <= self.chars.len(),
                None => subshell_at(self.chars@, p as int) is None,
            },
    {
        let n: usize = self.chars.len();
        let open: usize = if p < n && self.chars[p] == '(' {
            p
        } else if p < n && p + 1 < n && self.chars[p] == '$' && self.chars[p + 1] == '(' {
            p + 1
        } else {
            return None;
        };
        match self.subshell_inner(open) {
            Some((raw, end)) => Some((Ok(Token::SubShell(raw)), end)),
            None => Some((Err(ParseError::UnmatchedDelimiterError), n)),
        }
    }

    /// The longest run of name characters from `start`, and where it ends.
    fn take_name(&self, start: usize) -> (r: (String, usize))
        requires
            start <= self.chars.len(),
        ensures
            r.1 == name_end(self.classifier@, self.chars@, start as int),
            start <= r.1 <= self.chars.len(),
            r.0@ == self.chars@.subrange(start as int, r.1 as int),
    {
        let mut name = String::new();
        let mut i: usize = start;
        while i < self.chars.len() && self.classifier.is_name_part(self.chars[i])
            invariant
                start <= i <= self.chars.len(),
                name@ == self.chars@.subrange(start as int, i as int),
                name_end(self.classifier@, self.chars@, i as int) == name_end(
                    self.classifier@,
                    self.chars@,
                    start as int,
                ),
            decreases self.chars.len() - i,
        {
            name.push(self.chars[i]);
            i = i + 1;
        }
        (name, i)
    }

    /// Whether a variable name starts at `i`.
    fn starts_name(&self, i: usize) -> (b: bool)
        ensures
            b == name_starts_at(self.classifier@, self.chars@, i as int),
    {
        i < self.chars.len() && self.classifier.is_name_start(self.chars[i])
    }

    /// Looks for a variable reference at `p`; the cursor stays.
    fn lex_variable(&self, p: usize) -> (r: Option<(Result<Token, ParseError>, usize)>)
        requires
            p <= self.chars.len(),
        ensures
            match r {
                Some((result, end)) => variable_at(self.classifier@, self.chars@, p as int) == Some(
                    (result_view(result), end as int),
                ) && p < end <= self.chars.len(),
                None => variable_at(self.classifier@, self.chars@, p as int) is None,
            },
    {
        let n: usize = self.chars.len();
        if p < n && self.chars[p] == '$' {
            if self.starts_name(p + 1) {
                let (name, end) = self.take_name(p + 1);
                proof {
                    lemma_name_end_bounds(self.classifier@, self.chars@, p + 1);
                }
                Some((Ok(Token::Variable(name)), end))
            } else if p + 1 < n && self.chars[p + 1] == '{' && self.starts_name(p + 2) {
                let (name, end) = self.take_name(p + 2);
                if end < n && self.chars[end] == '}' {
                    Some((Ok(Token::Variable(name)), end + 1))
                } else {
                    Some((Err(ParseError::InvalidVariable), p + 1))
                }
            } else {
                Some((Err(ParseError::InvalidVariable), p + 1))
            }
        } else {
            None
        }
    }

    /// Scans the word at `p`; the cursor stays.
    fn lex_word(&self, p: usize) -> (r: (Option<Result<Token, ParseError>>, usize))
        requires
            p <= self.chars.len(),
        ensures
            word_at(self.classifier@, self.chars@, p as int) == (Lexed {
                item: item_view(r.0),
                next: r.1 as int,
            }),
            p <= r.1 <= self.chars.len(),
            r.0 is Some ==> p < r.1,
    {
        let n: usize = self.chars.len();
        let mut word = String::new();
        let mut quote = Quote::Unquoted;
        let mut i: usize = p;
        while i < n
            invariant
                n == self.chars.len(),
                p <= i <= n,
                scan_word(self.classifier@, self.chars@, p as int, Quote::Unquoted) == scan_word(
                    self.classifier@, self.chars@,
                    i as int,
                    quote,
                ).prefixed(word@),
            ensures
                p <= i <= n,
                scan_word(self.classifier@, self.chars@, p as int, Quote::Unquoted) == (WordScan {
                    text: word@,
                    end: i as int,
                    closed: quote == Quote::Unquoted,
                }),
            decreases n - i,
        {
            let c = self.chars[i];
            let ghost rest = scan_word(self.classifier@, self.chars@, i + 1, quote);
            match quote {
                Quote::Single => {
                    if c == '\'' {
                        quote = Quote::Unquoted;
                    } else {
                        assert(word@ + (seq![c] + rest.text) =~= word@.push(c) + rest.text);
                        word.push(c);
                    }
                },
                Quote::Double => {
                    if c == '"' {
                        quote = Quote::Unquoted;
                    } else {
                        assert(word@ + (seq![c] + rest.text) =~= word@.push(c) + rest.text);
                        word.push(c);
                    }
                },
                Quote::Unquoted => {
                    if c == '\'' {
                        quote = Quote::Single;
                    } else if c == '"' {
                        quote = Quote::Double;
                    } else if self.classifier.is_blank(c) || c == '|' || c == ';' || c == '>'
                        || c == '&' {
                        break ;
                    } else {
                        assert(word@ + (seq![c] + rest.text) =~= word@.push(c) + rest.text);
                        word.push(c);
                    }
                },
            }
            i = i + 1;
        }
        proof {
            lemma_scan_word_bounds(self.classifier@, self.chars@, p as int, Quote::Unquoted);
        }
        if quote != Quote::Unquoted {
            (Some(Err(ParseError::UnterminatedStringLiteral)), i)
        } else if !word.as_str().is_empty() {
            (Some(Ok(Token::Word(word))), i)
        } else {
            (None, i)
        }
    }

    /// Takes one lexing step: the next token of the input, or the lexical
    /// error in its place, and the cursor moves past what was consumed.
    /// `None` where no token starts after the white space: at the end of the
    /// input, at an `&` that begins no operator, and at a quoted literal
    /// that holds nothing and has nothing beside it.
    pub fn next(&mut self) -> (r: Option<Result<Token, ParseError>>)
        ensures
            final(self).text() == old(self).text(),
            final(self).classes() == old(self).classes(),
            item_view(r) == old(self).step().item,
            final(self).position() == old(self).step().next,
    {
        proof {
            use_type_invariant(&*self);
        }
        let p = self.skip_whitespace();
        if let Some((token, end)) = self.lex_redirection(p) {
            self.pos = end;
            return Some(Ok(token));
        }
        if let Some((token, end)) = self.lex_pipe(p) {
            self.pos = end;
            return Some(Ok(token));
        }
        if let Some((token, end)) = self.lex_and_then(p) {
            self.pos = end;
            return Some(Ok(token));
        }
        if let Some((result, end)) = self.lex_subshell(p) {
            self.pos = end;
            return Some(result);
        }
        if let Some((result, end)) = self.lex_variable(p) {
            self.pos = end;
            return Some(result);
        }
        let (item, end) = self.lex_word(p);
        self.pos = end;
        item
    }
}

/// The mathematical value of a token or of the error in its place.
pub open spec fn result_view(r: Result<Token, ParseError>) -> Result<TokenView, ParseError> {
    match r {
        Ok(t) => Ok(t@),
        Err(e) => Err(e),
    }
}

} // verus!
