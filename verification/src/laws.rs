//! Laws that relate the lexer and the parser to the text they read.

use vstd::prelude::*;
use crate::chars::{unicode_classes, CharClasses};
use crate::lexer::{
    after_whitespace, closing_paren, is_word_break, scan_word, subshell_at, token_at, word_at,
    Lexed, Quote, TokenView, WordScan,
};
use crate::parser::{
    line_outcome, no_command, parse_text, scan_frame, ArgView, CommandView, FileRedirView, Frame,
    Outcome, ParseError,
};

verus! {

/// A text that holds nothing but white space.
pub open spec fn is_blank_text(classes: CharClasses, s: Seq<char>) -> bool {
    forall|i: int| 0 <= i < s.len() ==> classes.is_blank(#[trigger] s[i])
}

/// A word that reads back as itself: it is not empty, holds no white space,
/// no quote and none of `|`, `;`, `>`, `&`, and begins with neither `(` nor
/// `$`.
pub open spec fn is_plain_word(classes: CharClasses, w: Seq<char>) -> bool {
    &&& w.len() > 0
    &&& w[0] != '('
    &&& w[0] != '$'
    &&& forall|i: int|
        0 <= i < w.len() ==> !is_word_break(classes, #[trigger] w[i]) && w[i] != '\'' && w[i] != '"'
}

/// The words joined by single spaces.
pub open spec fn join_words(words: Seq<Seq<char>>) -> Seq<char>
    decreases words.len(),
{
    if words.len() == 0 {
        Seq::empty()
    } else if words.len() == 1 {
        words[0]
    } else {
        words[0] + seq![' '] + join_words(words.drop_first())
    }
}

/// The command whose arguments are the given words and that has nothing
/// else.
pub open spec fn command_of_words(words: Seq<Seq<char>>) -> CommandView {
    CommandView {
        argv: Seq::new(words.len(), |i: int| ArgView::Word(words[i])),
        pipe_to: None,
        redirect_to: Seq::empty(),
        and_then: None,
    }
}

/// Skipping white space in a blank text runs to its end.
proof fn lemma_blank_tail(classes: CharClasses, s: Seq<char>, pos: int)
    requires
        is_blank_text(classes, s),
        0 <= pos <= s.len(),
    ensures
        after_whitespace(classes, s, pos) == s.len(),
    decreases s.len() - pos,
{
    if pos < s.len() {
        lemma_blank_tail(classes, s, pos + 1);
    }
}

/// Nothing is lexed at the end of a text.
proof fn lemma_end_of_text(classes: CharClasses, s: Seq<char>)
    ensures
        token_at(classes, s, s.len() as int) == (Lexed { item: None, next: s.len() as int }),
        scan_frame(classes, s, s.len() as int) == Frame::empty(),
{
}

/// A line of white space, and the empty line, hold no command: parsing
/// fails with no error at all, and the line reads as `Ok(None)`.
pub proof fn lemma_blank_line_is_no_command(classes: CharClasses, s: Seq<char>)
    requires
        is_blank_text(classes, s),
    ensures
        parse_text(classes, s) == no_command(),
        line_outcome(classes, s) == Ok::<Option<CommandView>, Seq<ParseError>>(None),
{
    lemma_blank_tail(classes, s, 0);
    lemma_end_of_text(classes, s);
}

/// Inside a plain word the scan runs to the end of the word.
proof fn lemma_scan_plain_word(classes: CharClasses, s: Seq<char>, p: int, w: Seq<char>, k: int)
    requires
        classes.is_blank(' '),
        is_plain_word(classes, w),
        0 <= p,
        p + w.len() <= s.len(),
        s.subrange(p, p + w.len()) == w,
        p + w.len() == s.len() || s[p + w.len()] == ' ',
        0 <= k <= w.len(),
    ensures
        scan_word(classes, s, p + k, Quote::Unquoted) == (WordScan {
            text: w.subrange(k, w.len() as int),
            end: p + w.len(),
            closed: true,
        }),
    decreases w.len() - k,
{
    let n = w.len() as int;
    if k == n {
        assert(w.subrange(k, n) =~= Seq::<char>::empty());
    } else {
        lemma_scan_plain_word(classes, s, p, w, k + 1);
        assert(seq![w[k]] + w.subrange(k + 1, n) =~= w.subrange(k, n));
    }
}

/// A plain word that stands in a text, followed by a space or by the end,
/// is lexed as that word.
proof fn lemma_lex_plain_word(classes: CharClasses, s: Seq<char>, p: int, w: Seq<char>)
    requires
        classes.is_blank(' '),
        is_plain_word(classes, w),
        0 <= p,
        p + w.len() <= s.len(),
        s.subrange(p, p + w.len()) == w,
        p + w.len() == s.len() || s[p + w.len()] == ' ',
    ensures
        token_at(classes, s, p) == (Lexed {
            item: Some(Ok(TokenView::Word(w))),
            next: p + w.len(),
        }),
{
    let n = w.len() as int;
    if n > 1 {
        assert(s[p + 1] == s.subrange(p, p + n)[1]);
    }
    lemma_scan_plain_word(classes, s, p, w, 0);
    assert(w.subrange(0, n) =~= w);
}

/// The frame that starts where the rest of the text is plain words joined
/// by single spaces holds exactly those words.
proof fn lemma_frame_of_words(classes: CharClasses, s: Seq<char>, pos: int, words: Seq<Seq<char>>)
    requires
        classes.is_blank(' '),
        words.len() > 0,
        forall|i: int| 0 <= i < words.len() ==> is_plain_word(classes, #[trigger] words[i]),
        0 <= pos <= s.len(),
        s.subrange(pos, s.len() as int) == join_words(words),
    ensures
        scan_frame(classes, s, pos).argv == command_of_words(words).argv,
        scan_frame(classes, s, pos).redirect_to == Seq::<FileRedirView>::empty(),
        scan_frame(classes, s, pos).errors == Seq::<ParseError>::empty(),
        scan_frame(classes, s, pos).pipe_to is None,
        scan_frame(classes, s, pos).and_then is None,
    decreases words.len(),
{
    let len = s.len() as int;
    let w = words[0];
    let n = w.len() as int;
    let tail = s.subrange(pos, len);
    assert(is_plain_word(classes, w));
    if words.len() == 1 {
        lemma_lex_plain_word(classes, s, pos, w);
        lemma_end_of_text(classes, s);
        assert(scan_frame(classes, s, pos) == Frame::of_arg(ArgView::Word(w)).followed_by(
            Frame::empty(),
        ));
    } else {
        let rest = words.drop_first();
        let joined = join_words(rest);
        assert(s.subrange(pos, pos + n) =~= w) by {
            assert forall|i: int| 0 <= i < n implies s[pos + i] == w[i] by {
                assert(s[pos + i] == tail[i]);
            }
        }
        assert(s[pos + n] == ' ') by {
            assert(s[pos + n] == tail[n]);
        }
        assert(s.subrange(pos + n + 1, len) =~= joined) by {
            assert forall|i: int| 0 <= i < joined.len() implies s[pos + n + 1 + i] == joined[i] by {
                assert(s[pos + n + 1 + i] == tail[n + 1 + i]);
            }
        }
        lemma_lex_plain_word(classes, s, pos, w);
        assert forall|i: int| 0 <= i < rest.len() implies is_plain_word(
            classes,
            #[trigger] rest[i],
        ) by {}
        lemma_frame_of_words(classes, s, pos + n + 1, rest);
        // The space after the word is skipped: the frame at the space is
        // the frame at the next word.
        let next_word = rest[0];
        assert(joined.len() > 0 && joined[0] == next_word[0]);
        assert(s[pos + n + 1] == next_word[0]);
        assert(after_whitespace(classes, s, pos + n) == after_whitespace(
            classes,
            s,
            pos + n + 1,
        ));
        assert(scan_frame(classes, s, pos + n) == scan_frame(classes, s, pos + n + 1));
        assert(scan_frame(classes, s, pos).argv =~= command_of_words(words).argv);
    }
}

/// Round trip under any classification that takes the space character for
/// white space: plain words, joined by single spaces and parsed, give a
/// command whose arguments are those words in order, and nothing else.
pub proof fn lemma_plain_words_round_trip_with(classes: CharClasses, words: Seq<Seq<char>>)
    requires
        classes.is_blank(' '),
        words.len() > 0,
        forall|i: int| 0 <= i < words.len() ==> is_plain_word(classes, #[trigger] words[i]),
    ensures
        parse_text(classes, join_words(words)) == Outcome::Ok(command_of_words(words)),
{
    let s = join_words(words);
    assert(s.subrange(0, s.len() as int) =~= s);
    lemma_frame_of_words(classes, s, 0, words);
}

/// Round trip: plain words, joined by single spaces and parsed, give a
/// command whose arguments are those words in order, and nothing else.
pub proof fn lemma_plain_words_round_trip(words: Seq<Seq<char>>)
    requires
        words.len() > 0,
        forall|i: int|
            0 <= i < words.len() ==> is_plain_word(unicode_classes(), #[trigger] words[i]),
    ensures
        parse_text(unicode_classes(), join_words(words)) == Outcome::Ok(command_of_words(words)),
{
    lemma_plain_words_round_trip_with(unicode_classes(), words);
}

/// The state in which the characters between a pair of `quote` characters
/// are read.
pub open spec fn quote_state(quote: char) -> Quote {
    if quote == '\'' {
        Quote::Single
    } else {
        Quote::Double
    }
}

/// Inside a literal the scan keeps every character up to the closing quote.
proof fn lemma_scan_in_quotes(
    classes: CharClasses,
    s: Seq<char>,
    quote: char,
    body: Seq<char>,
    k: int,
)
    requires
        quote == '\'' || quote == '"',
        forall|i: int| 0 <= i < body.len() ==> #[trigger] body[i] != quote,
        s == seq![quote] + body + seq![quote],
        0 <= k <= body.len(),
    ensures
        scan_word(classes, s, 1 + k, quote_state(quote)) == (WordScan {
            text: body.subrange(k, body.len() as int),
            end: s.len() as int,
            closed: true,
        }),
    decreases body.len() - k,
{
    let n = body.len() as int;
    if k == n {
        assert(scan_word(classes, s, 2 + n, Quote::Unquoted).closed);
        assert(body.subrange(k, n) =~= Seq::<char>::empty());
    } else {
        lemma_scan_in_quotes(classes, s, quote, body, k + 1);
        assert(seq![body[k]] + body.subrange(k + 1, n) =~= body.subrange(k, n));
    }
}

/// Quoting keeps text verbatim: a text without `quote`, put between two
/// `quote` characters, is read as one word that holds the text as it is,
/// whatever white space and operators are in it. Where the text is empty,
/// nothing is read.
pub proof fn lemma_quoted_text_is_verbatim(classes: CharClasses, quote: char, body: Seq<char>)
    requires
        quote == '\'' || quote == '"',
        forall|i: int| 0 <= i < body.len() ==> #[trigger] body[i] != quote,
    ensures
        ({
            let s = seq![quote] + body + seq![quote];
            word_at(classes, s, 0) == (Lexed {
                item: if body.len() > 0 {
                    Some(Ok(TokenView::Word(body)))
                } else {
                    None
                },
                next: s.len() as int,
            })
        }),
{
    let s = seq![quote] + body + seq![quote];
    assert(scan_word(classes, s, 0, Quote::Unquoted) == scan_word(
        classes,
        s,
        1,
        quote_state(quote),
    ));
    lemma_scan_in_quotes(classes, s, quote, body, 0);
    assert(body.subrange(0, body.len() as int) =~= body);
}

/// How many parentheses are open after the first `i` characters of `body`,
/// counted from zero.
pub open spec fn open_parens(body: Seq<char>, i: int) -> int
    decreases i,
{
    if i <= 0 || i > body.len() {
        0
    } else if body[i - 1] == '(' {
        open_parens(body, i - 1) + 1
    } else if body[i - 1] == ')' {
        open_parens(body, i - 1) - 1
    } else {
        open_parens(body, i - 1)
    }
}

/// A text whose parentheses match: none closes what was not opened, and none
/// stays open.
pub open spec fn is_balanced(body: Seq<char>) -> bool {
    &&& forall|i: int| 0 <= i <= body.len() ==> #[trigger] open_parens(body, i) >= 0
    &&& open_parens(body, body.len() as int) == 0
}

/// In a balanced text between parentheses, the search for the closing
/// parenthesis runs to the last character.
proof fn lemma_closing_paren_of_balanced(s: Seq<char>, body: Seq<char>, k: int)
    requires
        is_balanced(body),
        s == seq!['('] + body + seq![')'],
        0 <= k <= body.len(),
    ensures
        closing_paren(s, 1 + k, (1 + open_parens(body, k)) as nat) == Some(1 + body.len() as int),
    decreases body.len() - k,
{
    if k < body.len() {
        lemma_closing_paren_of_balanced(s, body, k + 1);
    }
}

/// The raw text of a subshell is what stands between the outer parentheses:
/// a balanced text, put between `(` and `)`, is read as one subshell that
/// holds the text as it is.
pub proof fn lemma_subshell_holds_raw_text(body: Seq<char>)
    requires
        is_balanced(body),
    ensures
        ({
            let s = seq!['('] + body + seq![')'];
            subshell_at(s, 0) == Some(
                (Ok::<TokenView, ParseError>(TokenView::SubShell(body)), s.len() as int),
            )
        }),
{
    let s = seq!['('] + body + seq![')'];
    lemma_closing_paren_of_balanced(s, body, 0);
    assert(s.subrange(1, 1 + body.len() as int) =~= body);
}

} // verus!
