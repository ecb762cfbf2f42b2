//! The command tree and the recursive-descent parser that builds it.
//!
//! What a line of text parses to is defined by `parse_text`, over the
//! lexer's `token_at`. `Command::parse` computes it.

use vstd::prelude::*;
use std::path::PathBuf;
use crate::chars::{path_from_string, path_text, unicode_classes, CharClasses, Classifier};
use crate::lexer::{lemma_token_at_progress, token_at, Lexer, Token, TokenView};

verus! {

/// What can be wrong with a line of input.
#[derive(Debug, Clone, Copy, PartialEq, Eq, Structural)]
pub enum ParseError {
    /// A redirection operator is not followed by a word naming its target.
    MissingFileName,
    /// A subshell was opened and its closing parenthesis never came.
    UnmatchedDelimiterError,
    /// A `$` does not introduce a well-formed variable reference.
    InvalidVariable,
    /// The input ended inside a quoted literal.
    UnterminatedStringLiteral,
    /// A token that names no redirection was asked for its redirection type.
    NonRedirTypeToken,
}

/// The errors found in one line, in the order in which they were found.
#[derive(Debug)]
pub struct ParseErrors {
    errors: Vec<ParseError>,
}

impl View for ParseErrors {
    type V = Seq<ParseError>;

    closed spec fn view(&self) -> Seq<ParseError> {
        self.errors@
    }
}

impl ParseErrors {
    /// The number of errors.
    pub fn len(&self) -> (n: usize)
        ensures
            n == self@.len(),
    {
        self.errors.len()
    }

    /// Whether there is no error at all: the line held no command.
    pub fn is_empty(&self) -> (b: bool)
        ensures
            b == (self@.len() == 0),
    {
        self.errors.len() == 0
    }

    /// The errors as a vector, in order.
    pub fn into_vec(self) -> (errors: Vec<ParseError>)
        ensures
            errors@ == self@,
    {
        self.errors
    }
}

/// Which of a process's output streams an operator redirects.
#[derive(Debug, Clone, Copy, PartialEq, Eq, Structural)]
pub enum RedirType {
    Stdout,
    Stderr,
    Both,
}

/// A redirection of output into a file.
#[derive(Debug, PartialEq)]
pub struct FileRedir {
    pub redirect_type: RedirType,
    pub target: PathBuf,
}

/// One argument of a command.
#[derive(Debug, PartialEq)]
pub enum Arg {
    Word(String),
    Variable(String),
    Subshell(Command),
}

/// A command: its arguments, the stage its output is piped to, its file
/// redirections, and the command sequenced after it.
#[derive(Debug, PartialEq)]
pub struct Command {
    pub argv: Vec<Arg>,
    pub pipe_to: Option<PipeTo>,
    pub redirect_to: Vec<FileRedir>,
    pub and_then: Option<AndThen>,
}

/// The next stage of a pipeline and the streams that feed it.
#[derive(Debug, PartialEq)]
pub struct PipeTo {
    pub pipe_type: RedirType,
    pub target: Box<Command>,
}

/// The command that follows a sequencer; `conditional` for `&&`.
#[derive(Debug, PartialEq)]
pub struct AndThen {
    pub conditional: bool,
    pub target: Box<Command>,
}

/// Marks a token that names no redirection.
#[derive(Debug)]
pub struct NonRedirTypeToken {}

/// The mathematical value of a `FileRedir`.
pub struct FileRedirView {
    pub redirect_type: RedirType,
    pub target: Seq<char>,
}

/// The mathematical value of an `Arg`.
pub enum ArgView {
    Word(Seq<char>),
    Variable(Seq<char>),
    Subshell(CommandView),
}

/// The mathematical value of a `Command`.
pub struct CommandView {
    pub argv: Seq<ArgView>,
    pub pipe_to: Option<PipeToView>,
    pub redirect_to: Seq<FileRedirView>,
    pub and_then: Option<AndThenView>,
}

/// The mathematical value of a `PipeTo`.
pub struct PipeToView {
    pub pipe_type: RedirType,
    pub target: Box<CommandView>,
}

/// The mathematical value of an `AndThen`.
pub struct AndThenView {
    pub conditional: bool,
    pub target: Box<CommandView>,
}

impl View for FileRedir {
    type V = FileRedirView;

    open spec fn view(&self) -> FileRedirView {
        FileRedirView { redirect_type: self.redirect_type, target: path_text(self.target) }
    }
}

/// The value of an argument.
pub open spec fn arg_view(arg: Arg) -> ArgView
    decreases arg,
{
    match arg {
        Arg::Word(w) => ArgView::Word(w@),
        Arg::Variable(name) => ArgView::Variable(name@),
        Arg::Subshell(command) => ArgView::Subshell(command_view(command)),
    }
}

/// The value of a command.
pub open spec fn command_view(command: Command) -> CommandView
    decreases command,
{
    CommandView {
        argv: Seq::new(
            command.argv.len() as nat,
            |i: int|
                if 0 <= i < command.argv.len() {
                    arg_view(command.argv[i])
                } else {
                    arbitrary()
                },
        ),
        pipe_to: match command.pipe_to {
            Some(pipe) => Some(
                PipeToView {
                    pipe_type: pipe.pipe_type,
                    target: Box::new(command_view(*pipe.target)),
                },
            ),
            None => None,
        },
        redirect_to: redirects_view(command.redirect_to@),
        and_then: match command.and_then {
            Some(sequel) => Some(
                AndThenView {
                    conditional: sequel.conditional,
                    target: Box::new(command_view(*sequel.target)),
                },
            ),
            None => None,
        },
    }
}

/// The values of a sequence of arguments.
pub open spec fn args_view(args: Seq<Arg>) -> Seq<ArgView> {
    Seq::new(args.len(), |i: int| arg_view(args[i]))
}

/// The values of a sequence of redirections.
pub open spec fn redirects_view(redirects: Seq<FileRedir>) -> Seq<FileRedirView> {
    Seq::new(redirects.len(), |i: int| redirects[i]@)
}

impl View for Arg {
    type V = ArgView;

    open spec fn view(&self) -> ArgView {
        arg_view(*self)
    }
}

impl View for Command {
    type V = CommandView;

    open spec fn view(&self) -> CommandView {
        command_view(*self)
    }
}

impl View for PipeTo {
    type V = PipeToView;

    open spec fn view(&self) -> PipeToView {
        PipeToView { pipe_type: self.pipe_type, target: Box::new(command_view(*self.target)) }
    }
}

impl View for AndThen {
    type V = AndThenView;

    open spec fn view(&self) -> AndThenView {
        AndThenView { conditional: self.conditional, target: Box::new(command_view(*self.target)) }
    }
}

/// The value of a command is made of the values of its four fields.
pub proof fn lemma_command_view(command: Command)
    ensures
        command@.argv == args_view(command.argv@),
        command@.redirect_to == redirects_view(command.redirect_to@),
        command@.pipe_to == match command.pipe_to {
            Some(pipe) => Some(pipe@),
            None => None,
        },
        command@.and_then == match command.and_then {
            Some(sequel) => Some(sequel@),
            None => None,
        },
{
    assert(command@.argv =~= args_view(command.argv@));
}

/// The redirection type that a token names: the streams an operator captures.
pub open spec fn redir_type(token: TokenView) -> Result<RedirType, ParseError> {
    match token {
        TokenView::RedirOut | TokenView::Pipe => Ok(RedirType::Stdout),
        TokenView::RedirBoth | TokenView::PipeBoth => Ok(RedirType::Both),
        TokenView::RedirErr => Ok(RedirType::Stderr),
        _ => Err(ParseError::NonRedirTypeToken),
    }
}

impl TryFrom<Token> for RedirType {
    type Error = ParseError;

    /// The redirection type of an operator token; `NonRedirTypeToken` for
    /// any other token.
    fn try_from(val: Token) -> (r: Result<RedirType, ParseError>) {
        match val {
            Token::RedirOut | Token::Pipe => Ok(RedirType::Stdout),
            Token::RedirBoth | Token::PipeBoth => Ok(RedirType::Both),
            Token::RedirErr => Ok(RedirType::Stderr),
            _ => Err(ParseError::NonRedirTypeToken),
        }
    }
}

impl vstd::std_specs::convert::TryFromSpecImpl<Token> for RedirType {
    open spec fn obeys_try_from_spec() -> bool {
        true
    }

    open spec fn try_from_spec(val: Token) -> Result<RedirType, ParseError> {
        redir_type(val@)
    }
}

/// What one frame of the parser has gathered: the parts of a command, and
/// the errors met on the way.
pub struct Frame {
    pub argv: Seq<ArgView>,
    pub redirect_to: Seq<FileRedirView>,
    pub pipe_to: Option<PipeToView>,
    pub and_then: Option<AndThenView>,
    pub errors: Seq<ParseError>,
}

impl Frame {
    /// The frame that gathered nothing.
    pub open spec fn empty() -> Frame {
        Frame {
            argv: Seq::empty(),
            redirect_to: Seq::empty(),
            pipe_to: None,
            and_then: None,
            errors: Seq::empty(),
        }
    }

    /// A frame that holds one argument.
    pub open spec fn of_arg(arg: ArgView) -> Frame {
        Frame { argv: seq![arg], ..Frame::empty() }
    }

    /// A frame that holds one redirection.
    pub open spec fn of_redirect(redirect: FileRedirView) -> Frame {
        Frame { redirect_to: seq![redirect], ..Frame::empty() }
    }

    /// A frame that holds only errors.
    pub open spec fn of_errors(errors: Seq<ParseError>) -> Frame {
        Frame { errors, ..Frame::empty() }
    }

    /// A frame that holds only a pipe target.
    pub open spec fn of_pipe(pipe: PipeToView) -> Frame {
        Frame { pipe_to: Some(pipe), ..Frame::empty() }
    }

    /// A frame that holds only a sequenced command.
    pub open spec fn of_sequel(sequel: AndThenView) -> Frame {
        Frame { and_then: Some(sequel), ..Frame::empty() }
    }

    /// What `self` gathered, followed by what `rest` gathered. The operator
    /// that ends a frame comes last, so it is that of `rest`.
    pub open spec fn followed_by(self, rest: Frame) -> Frame {
        Frame {
            argv: self.argv + rest.argv,
            redirect_to: self.redirect_to + rest.redirect_to,
            pipe_to: rest.pipe_to,
            and_then: rest.and_then,
            errors: self.errors + rest.errors,
        }
    }

    /// A frame succeeds if it met no error and gathered an argument; else it
    /// fails with its errors, of which there may be none.
    pub open spec fn outcome(self) -> Outcome {
        if self.errors.len() == 0 && self.argv.len() > 0 {
            Ok(
                CommandView {
                    argv: self.argv,
                    pipe_to: self.pipe_to,
                    redirect_to: self.redirect_to,
                    and_then: self.and_then,
                },
            )
        } else {
            Err(self.errors)
        }
    }
}

impl CommandView {
    /// The shape of every command that the parser builds: it has an
    /// argument; it is piped on or sequenced, not both, since the first
    /// operator ends its frame; and the commands below it have that shape.
    pub open spec fn well_formed(self) -> bool
        decreases self,
    {
        &&& self.argv.len() > 0
        &&& !(self.pipe_to is Some && self.and_then is Some)
        &&& forall|i: int|
            0 <= i < self.argv.len() && self.argv[i] is Subshell ==> (
            #[trigger] self.argv[i])->Subshell_0.well_formed()
        &&& self.pipe_to is Some ==> self.pipe_to->0.target.well_formed()
        &&& self.and_then is Some ==> self.and_then->0.target.well_formed()
    }
}

impl Frame {
    /// What holds of every frame that the parser scans: it ends in at most
    /// one operator, none of its errors is `NonRedirTypeToken`, and the
    /// commands it holds are well formed.
    pub open spec fn sound(self) -> bool {
        &&& !(self.pipe_to is Some && self.and_then is Some)
        &&& forall|i: int|
            0 <= i < self.errors.len() ==> #[trigger] self.errors[i]
                != ParseError::NonRedirTypeToken
        &&& forall|i: int|
            0 <= i < self.argv.len() && self.argv[i] is Subshell ==> (
            #[trigger] self.argv[i])->Subshell_0.well_formed()
        &&& self.pipe_to is Some ==> self.pipe_to->0.target.well_formed()
        &&& self.and_then is Some ==> self.and_then->0.target.well_formed()
    }
}

/// What parsing comes to: a command, or the errors that were met.
pub type Outcome = Result<CommandView, Seq<ParseError>>;

/// The outcome for a line that holds no command: a failure without errors.
pub open spec fn no_command() -> Outcome {
    Err(Seq::empty())
}

/// What a nested parse contributes to the frame around it: on success the
/// frame that `found` makes of the command, on failure the nested errors.
pub open spec fn nested(
    result: Outcome,
    found: spec_fn(CommandView) -> Frame,
) -> Frame {
    match result {
        Ok(command) => found(command),
        Err(errors) => Frame::of_errors(errors),
    }
}

/// What the text `s` parses to: the outcome of the frame that starts at its
/// first character.
pub open spec fn parse_text(classes: CharClasses, s: Seq<char>) -> Outcome
    decreases s.len(), s.len() + 1,
{
    scan_frame(classes, s, 0).outcome()
}

/// The frame that starts at `pos`. It takes tokens one by one: words,
/// variables and subshells become arguments; a redirection takes the token
/// after it as its target, which must be a word; a lexical error is
/// recorded and scanning goes on; a pipe or a sequencer hands the rest of
/// the text to a frame of its own and ends this one.
pub open spec fn scan_frame(classes: CharClasses, s: Seq<char>, pos: int) -> Frame
    decreases s.len(), s.len() - pos,
    via scan_frame_decreases
{
    let step = token_at(classes, s, pos);
    match step.item {
        None => Frame::empty(),
        Some(Err(error)) => Frame::of_errors(seq![error]).followed_by(
            scan_frame(classes, s, step.next),
        ),
        Some(Ok(token)) => match token {
            TokenView::Word(w) => Frame::of_arg(ArgView::Word(w)).followed_by(
                scan_frame(classes, s, step.next),
            ),
            TokenView::Variable(name) => Frame::of_arg(ArgView::Variable(name)).followed_by(
                scan_frame(classes, s, step.next),
            ),
            TokenView::SubShell(raw) => nested(
                parse_text(classes, raw),
                |command: CommandView| Frame::of_arg(ArgView::Subshell(command)),
            ).followed_by(scan_frame(classes, s, step.next)),
            TokenView::RedirOut | TokenView::RedirErr | TokenView::RedirBoth => {
                let target = token_at(classes, s, step.next);
                redirect_frame(token, target.item).followed_by(scan_frame(classes, s, target.next))
            },
            TokenView::Pipe | TokenView::PipeBoth => nested(
                scan_frame(classes, s, step.next).outcome(),
                |command: CommandView|
                    Frame::of_pipe(
                        PipeToView {
                            pipe_type: redir_type(token)->Ok_0,
                            target: Box::new(command),
                        },
                    ),
            ),
            TokenView::AndThen | TokenView::AndThenIf => nested(
                scan_frame(classes, s, step.next).outcome(),
                |command: CommandView|
                    Frame::of_sequel(
                        AndThenView {
                            conditional: token is AndThenIf,
                            target: Box::new(command),
                        },
                    ),
            ),
        },
    }
}

/// What a redirection operator and the item after it contribute: the
/// redirection if the item is a word, else the error `MissingFileName`.
pub open spec fn redirect_frame(
    operator: TokenView,
    target: Option<Result<TokenView, ParseError>>,
) -> Frame {
    match target {
        Some(Ok(TokenView::Word(path))) => Frame::of_redirect(
            FileRedirView { redirect_type: redir_type(operator)->Ok_0, target: path },
        ),
        _ => Frame::of_errors(seq![ParseError::MissingFileName]),
    }
}

/// The position at which the frame that starts at `pos` stops reading: where
/// the lexer yields nothing, or where the frame after an operator stops.
pub open spec fn frame_end(classes: CharClasses, s: Seq<char>, pos: int) -> int
    decreases s.len() - pos,
    via frame_end_decreases
{
    let step = token_at(classes, s, pos);
    match step.item {
        None => step.next,
        Some(Ok(TokenView::RedirOut | TokenView::RedirErr | TokenView::RedirBoth)) => frame_end(
            classes,
            s,
            token_at(classes, s, step.next).next,
        ),
        Some(_) => frame_end(classes, s, step.next),
    }
}

/// A frame reads forward: whatever it takes from `pos` on, one token or a
/// redirection with its target, ends after `pos` and inside the text.
proof fn lemma_frame_progress(classes: CharClasses, s: Seq<char>, pos: int)
    ensures
        ({
            let step = token_at(classes, s, pos);
            &&& step.item is Some ==> pos < step.next <= token_at(classes, s, step.next).next
                <= s.len()
            &&& step.item matches Some(Ok(TokenView::SubShell(raw))) ==> raw.len() < s.len()
        }),
{
    if 0 <= pos <= s.len() {
        lemma_token_at_progress(classes, s, pos);
        let step = token_at(classes, s, pos);
        if step.item is Some {
            lemma_token_at_progress(classes, s, step.next);
        }
    }
}

#[via_fn]
proof fn frame_end_decreases(classes: CharClasses, s: Seq<char>, pos: int) {
    lemma_frame_progress(classes, s, pos);
}

#[via_fn]
proof fn scan_frame_decreases(classes: CharClasses, s: Seq<char>, pos: int) {
    lemma_frame_progress(classes, s, pos);
}

/// The mathematical value of what parsing returns.
pub open spec fn outcome_view(r: Result<Command, ParseErrors>) -> Outcome {
    match r {
        Ok(command) => Ok(command@),
        Err(errors) => Err(errors@),
    }
}

/// The frame that the parser's accumulators stand for.
spec fn gathered(
    argv: Seq<Arg>,
    redirect_to: Seq<FileRedir>,
    pipe_to: Option<PipeTo>,
    and_then: Option<AndThen>,
    errors: Seq<ParseError>,
) -> Frame {
    Frame {
        argv: args_view(argv),
        redirect_to: redirects_view(redirect_to),
        pipe_to: match pipe_to {
            Some(pipe) => Some(pipe@),
            None => None,
        },
        and_then: match and_then {
            Some(sequel) => Some(sequel@),
            None => None,
        },
        errors,
    }
}

/// A recursive-descent parser over the tokens of a lexer.
pub struct Parser<'a> {
    tokens: Lexer<'a>,
}

impl<'a> Parser<'a> {
    /// The whole text that this parser reads.
    pub closed spec fn text(&self) -> Seq<char> {
        self.tokens.text()
    }

    /// The position of the first character not yet consumed.
    pub closed spec fn position(&self) -> int {
        self.tokens.position()
    }

    /// The classes through which this parser's lexer reads characters.
    pub closed spec fn classes(&self) -> CharClasses {
        self.tokens.classes()
    }

    /// The frame that starts at this parser's position.
    pub open spec fn frame(&self) -> Frame {
        scan_frame(self.classes(), self.text(), self.position())
    }

    /// The position at which the frame that starts here stops reading.
    pub open spec fn frame_end(&self) -> int {
        frame_end(self.classes(), self.text(), self.position())
    }

    /// A parser that takes its tokens from `tokens`.
    pub fn new(tokens: Lexer<'a>) -> (parser: Parser<'a>)
        ensures
            parser.text() == tokens.text(),
            parser.position() == tokens.position(),
            parser.classes() == tokens.classes(),
    {
        Parser { tokens }
    }

    /// Parses one frame: the command that starts at the current position.
    /// It succeeds exactly where the frame met no error and gathered an
    /// argument; the error set of a failure is empty where the frame held
    /// nothing at all.
    pub fn parse_command(&mut self) -> (r: Result<Command, ParseErrors>)
        ensures
            final(self).text() == old(self).text(),
            final(self).classes() == old(self).classes(),
            final(self).position() == old(self).frame_end(),
            outcome_view(r) == old(self).frame().outcome(),
        decreases old(self).text().len(), old(self).text().len() - old(self).position(),
    {
        let mut errors: Vec<ParseError> = Vec::new();
        let mut argv: Vec<Arg> = Vec::new();
        let mut pipe_to: Option<PipeTo> = None;
        let mut redirect_to: Vec<FileRedir> = Vec::new();
        let mut and_then: Option<AndThen> = None;
        let ghost classes = self.tokens.classes();
        let ghost s = self.tokens.text();
        let ghost start = self.tokens.position();
        proof {
            use_type_invariant(&self.tokens);
            self.tokens.lemma_in_bounds();
        }
        loop
            invariant_except_break
                pipe_to is None,
                and_then is None,
                scan_frame(classes, s, start) == gathered(
                    argv@,
                    redirect_to@,
                    None,
                    None,
                    errors@,
                ).followed_by(scan_frame(classes, s, self.tokens.position())),
                frame_end(classes, s, start) == frame_end(classes, s, self.tokens.position()),
                0 <= start <= self.tokens.position() <= s.len(),
            invariant
                self.tokens.text() == s,
                self.tokens.classes() == classes,
                classes == old(self).classes(),
                s == old(self).text(),
                start == old(self).position(),
            ensures
                scan_frame(classes, s, start) == gathered(
                    argv@,
                    redirect_to@,
                    pipe_to,
                    and_then,
                    errors@,
                ),
                self.tokens.position() == frame_end(classes, s, start),
            decreases s.len() - self.tokens.position(),
        {
            let ghost pos = self.tokens.position();
            let ghost acc = gathered(argv@, redirect_to@, None, None, errors@);
            let ghost step = token_at(classes, s, pos);
            proof {
                lemma_token_at_progress(classes, s, pos);
                lemma_token_at_progress(classes, s, step.next);
            }
            match self.tokens.next() {
                None => {
                    proof {
                        lemma_followed_by_empty(acc);
                    }
                    break ;
                },
                Some(Err(error)) => {
                    proof {
                        lemma_gather_errors(argv@, redirect_to@, errors@, seq![error]);
                        lemma_followed_by_assoc(
                            acc,
                            Frame::of_errors(seq![error]),
                            scan_frame(classes, s, step.next),
                        );
                    }
                    errors.push(error);
                },
                Some(Ok(token)) => match token {
                    Token::Word(w) => {
                        proof {
                            lemma_gather_arg(argv@, redirect_to@, errors@, Arg::Word(w));
                            lemma_followed_by_assoc(
                                acc,
                                Frame::of_arg(ArgView::Word(w@)),
                                scan_frame(classes, s, step.next),
                            );
                        }
                        argv.push(Arg::Word(w));
                    },
                    Token::Variable(name) => {
                        proof {
                            lemma_gather_arg(argv@, redirect_to@, errors@, Arg::Variable(name));
                            lemma_followed_by_assoc(
                                acc,
                                Frame::of_arg(ArgView::Variable(name@)),
                                scan_frame(classes, s, step.next),
                            );
                        }
                        argv.push(Arg::Variable(name));
                    },
                    Token::SubShell(raw) => {
                        match Command::parse_with(raw.as_str(), self.tokens.classifier()) {
                            Ok(command) => {
                                proof {
                                    lemma_gather_arg(
                                        argv@,
                                        redirect_to@,
                                        errors@,
                                        Arg::Subshell(command),
                                    );
                                    lemma_followed_by_assoc(
                                        acc,
                                        Frame::of_arg(ArgView::Subshell(command@)),
                                        scan_frame(classes, s, step.next),
                                    );
                                }
                                argv.push(Arg::Subshell(command));
                            },
                            Err(nested_errors) => {
                                let mut more = nested_errors.into_vec();
                                proof {
                                    lemma_gather_errors(argv@, redirect_to@, errors@, more@);
                                    lemma_followed_by_assoc(
                                        acc,
                                        Frame::of_errors(more@),
                                        scan_frame(classes, s, step.next),
                                    );
                                }
                                errors.append(&mut more);
                            },
                        }
                    },
                    Token::RedirOut | Token::RedirErr | Token::RedirBoth => {
                        let ghost operator = token@;
                        let ghost target = token_at(classes, s, step.next);
                        let redirect_type = match RedirType::try_from(token) {
                            Ok(redirect_type) => redirect_type,
                            Err(_) => vstd::pervasive::unreached(),
                        };
                        match self.tokens.next() {
                            Some(Ok(Token::Word(path))) => {
                                let redirect = FileRedir {
                                    redirect_type,
                                    target: path_from_string(path),
                                };
                                proof {
                                    lemma_gather_redirect(argv@, redirect_to@, errors@, redirect);
                                    lemma_followed_by_assoc(
                                        acc,
                                        Frame::of_redirect(redirect@),
                                        scan_frame(classes, s, target.next),
                                    );
                                }
                                redirect_to.push(redirect);
                            },
                            _ => {
                                proof {
                                    lemma_gather_errors(
                                        argv@,
                                        redirect_to@,
                                        errors@,
                                        seq![ParseError::MissingFileName],
                                    );
                                    lemma_followed_by_assoc(
                                        acc,
                                        Frame::of_errors(seq![ParseError::MissingFileName]),
                                        scan_frame(classes, s, target.next),
                                    );
                                }
                                errors.push(ParseError::MissingFileName);
                            },
                        }
                    },
                    Token::Pipe | Token::PipeBoth => {
                        let pipe_type = match RedirType::try_from(token) {
                            Ok(pipe_type) => pipe_type,
                            Err(_) => vstd::pervasive::unreached(),
                        };
                        match self.parse_command() {
                            Ok(next_command) => {
                                let pipe = PipeTo { pipe_type, target: Box::new(next_command) };
                                proof {
                                    lemma_gather_pipe(argv@, redirect_to@, errors@, pipe);
                                }
                                pipe_to = Some(pipe);
                            },
                            Err(nested_errors) => {
                                let mut more = nested_errors.into_vec();
                                proof {
                                    lemma_gather_errors(argv@, redirect_to@, errors@, more@);
                                }
                                errors.append(&mut more);
                            },
                        }
                        break ;
                    },
                    Token::AndThen | Token::AndThenIf => {
                        let conditional = match token {
                            Token::AndThenIf => true,
                            _ => false,
                        };
                        match self.parse_command() {
                            Ok(next_command) => {
                                let sequel = AndThen {
                                    conditional,
                                    target: Box::new(next_command),
                                };
                                proof {
                                    lemma_gather_sequel(argv@, redirect_to@, errors@, sequel);
                                }
                                and_then = Some(sequel);
                            },
                            Err(nested_errors) => {
                                let mut more = nested_errors.into_vec();
                                proof {
                                    lemma_gather_errors(argv@, redirect_to@, errors@, more@);
                                }
                                errors.append(&mut more);
                            },
                        }
                        break ;
                    },
                },
            }
        }
        if errors.len() > 0 || argv.len() == 0 {
            Err(ParseErrors { errors })
        } else {
            let command = Command { argv, pipe_to, and_then, redirect_to };
            proof {
                lemma_command_view(command);
            }
            Ok(command)
        }
    }
}

impl Command {
    /// Parses one line of input. `Ok` holds the command of a line that is
    /// well formed and not blank. `Err` holds the errors of a malformed
    /// line, in the order in which they were met, and no error at all for a
    /// line that holds no command.
    pub fn parse(input: &str) -> (r: Result<Command, ParseErrors>)
        ensures
            outcome_view(r) == parse_text(unicode_classes(), input@),
            r matches Ok(command) ==> command@.well_formed(),
            r matches Err(errors) ==> forall|i: int|
                0 <= i < errors@.len() ==> #[trigger] errors@[i] != ParseError::NonRedirTypeToken,
    {
        Command::parse_with(input, Classifier::Unicode)
    }

    /// Parses one line of input as `Command::parse` does, with the
    /// characters classified as `classifier` does.
    pub fn parse_with(input: &str, classifier: Classifier) -> (r: Result<Command, ParseErrors>)
        ensures
            outcome_view(r) == parse_text(classifier@, input@),
            r matches Ok(command) ==> command@.well_formed(),
            r matches Err(errors) ==> forall|i: int|
                0 <= i < errors@.len() ==> #[trigger] errors@[i] != ParseError::NonRedirTypeToken,
        decreases input@.len(), input@.len() + 1,
    {
        proof {
            lemma_parse_well_formed(classifier@, input@);
        }
        let lexer = Lexer::with_classifier(input, classifier);
        let mut parser = Parser::new(lexer);
        parser.parse_command()
    }

    /// Parses one line of input and tells a line without a command from a
    /// malformed one: `Ok(None)` where the line holds no command,
    /// `Ok(Some(..))` where it holds one, `Err` with at least one error
    /// where it is malformed.
    pub fn parse_line(input: &str) -> (r: Result<Option<Command>, ParseErrors>)
        ensures
            line_view(r) == line_outcome(unicode_classes(), input@),
    {
        Command::parse_line_with(input, Classifier::Unicode)
    }

    /// Parses one line of input as `Command::parse_line` does, with the
    /// characters classified as `classifier` does.
    pub fn parse_line_with(input: &str, classifier: Classifier) -> (r: Result<
        Option<Command>,
        ParseErrors,
    >)
        ensures
            line_view(r) == line_outcome(classifier@, input@),
    {
        match Command::parse_with(input, classifier) {
            Ok(command) => Ok(Some(command)),
            Err(errors) => if errors.is_empty() {
                Ok(None)
            } else {
                Err(errors)
            },
        }
    }
}

/// What a line of input holds: a command, no command, or errors.
pub open spec fn line_outcome(classes: CharClasses, s: Seq<char>) -> Result<
    Option<CommandView>,
    Seq<ParseError>,
> {
    match parse_text(classes, s) {
        Ok(command) => Ok(Some(command)),
        Err(errors) => if errors.len() == 0 {
            Ok(None)
        } else {
            Err(errors)
        },
    }
}

/// The mathematical value of what `Command::parse_line` returns.
pub open spec fn line_view(r: Result<Option<Command>, ParseErrors>) -> Result<
    Option<CommandView>,
    Seq<ParseError>,
> {
    match r {
        Ok(Some(command)) => Ok(Some(command@)),
        Ok(None) => Ok(None),
        Err(errors) => Err(errors@),
    }
}

/// Nothing after a frame leaves the frame as it is, where it has no operator.
proof fn lemma_followed_by_empty(frame: Frame)
    requires
        frame.pipe_to is None,
        frame.and_then is None,
    ensures
        frame.followed_by(Frame::empty()) == frame,
{
    let joined = frame.followed_by(Frame::empty());
    assert(joined.argv =~= frame.argv);
    assert(joined.redirect_to =~= frame.redirect_to);
    assert(joined.errors =~= frame.errors);
}

/// Putting frames one after another is associative.
proof fn lemma_followed_by_assoc(a: Frame, b: Frame, c: Frame)
    ensures
        a.followed_by(b).followed_by(c) == a.followed_by(b.followed_by(c)),
{
    let left = a.followed_by(b).followed_by(c);
    let right = a.followed_by(b.followed_by(c));
    assert(left.argv =~= right.argv);
    assert(left.redirect_to =~= right.redirect_to);
    assert(left.errors =~= right.errors);
}

/// Pushing an argument puts its frame after what was gathered.
proof fn lemma_gather_arg(
    argv: Seq<Arg>,
    redirect_to: Seq<FileRedir>,
    errors: Seq<ParseError>,
    arg: Arg,
)
    ensures
        gathered(argv.push(arg), redirect_to, None, None, errors) == gathered(
            argv,
            redirect_to,
            None,
            None,
            errors,
        ).followed_by(Frame::of_arg(arg@)),
{
    let left = gathered(argv.push(arg), redirect_to, None, None, errors);
    let right = gathered(argv, redirect_to, None, None, errors).followed_by(Frame::of_arg(arg@));
    assert(left.argv =~= right.argv);
    assert(left.redirect_to =~= right.redirect_to);
    assert(left.errors =~= right.errors);
}

/// Pushing a redirection puts its frame after what was gathered.
proof fn lemma_gather_redirect(
    argv: Seq<Arg>,
    redirect_to: Seq<FileRedir>,
    errors: Seq<ParseError>,
    redirect: FileRedir,
)
    ensures
        gathered(argv, redirect_to.push(redirect), None, None, errors) == gathered(
            argv,
            redirect_to,
            None,
            None,
            errors,
        ).followed_by(Frame::of_redirect(redirect@)),
{
    let left = gathered(argv, redirect_to.push(redirect), None, None, errors);
    let right = gathered(argv, redirect_to, None, None, errors).followed_by(
        Frame::of_redirect(redirect@),
    );
    assert(left.argv =~= right.argv);
    assert(left.redirect_to =~= right.redirect_to);
    assert(left.errors =~= right.errors);
}

/// Appending errors puts their frame after what was gathered.
proof fn lemma_gather_errors(
    argv: Seq<Arg>,
    redirect_to: Seq<FileRedir>,
    errors: Seq<ParseError>,
    more: Seq<ParseError>,
)
    ensures
        gathered(argv, redirect_to, None, None, errors + more) == gathered(
            argv,
            redirect_to,
            None,
            None,
            errors,
        ).followed_by(Frame::of_errors(more)),
        errors.push(more[0]) == errors + seq![more[0]],
{
    let left = gathered(argv, redirect_to, None, None, errors + more);
    let right = gathered(argv, redirect_to, None, None, errors).followed_by(
        Frame::of_errors(more),
    );
    assert(left.argv =~= right.argv);
    assert(left.redirect_to =~= right.redirect_to);
    assert(left.errors =~= right.errors);
    assert(errors.push(more[0]) =~= errors + seq![more[0]]);
}

/// Setting the pipe target puts its frame after what was gathered.
proof fn lemma_gather_pipe(
    argv: Seq<Arg>,
    redirect_to: Seq<FileRedir>,
    errors: Seq<ParseError>,
    pipe: PipeTo,
)
    ensures
        gathered(argv, redirect_to, Some(pipe), None, errors) == gathered(
            argv,
            redirect_to,
            None,
            None,
            errors,
        ).followed_by(Frame::of_pipe(pipe@)),
{
    let left = gathered(argv, redirect_to, Some(pipe), None, errors);
    let right = gathered(argv, redirect_to, None, None, errors).followed_by(Frame::of_pipe(pipe@));
    assert(left.argv =~= right.argv);
    assert(left.redirect_to =~= right.redirect_to);
    assert(left.errors =~= right.errors);
}

/// Setting the sequenced command puts its frame after what was gathered.
proof fn lemma_gather_sequel(
    argv: Seq<Arg>,
    redirect_to: Seq<FileRedir>,
    errors: Seq<ParseError>,
    sequel: AndThen,
)
    ensures
        gathered(argv, redirect_to, None, Some(sequel), errors) == gathered(
            argv,
            redirect_to,
            None,
            None,
            errors,
        ).followed_by(Frame::of_sequel(sequel@)),
{
    let left = gathered(argv, redirect_to, None, Some(sequel), errors);
    let right = gathered(argv, redirect_to, None, None, errors).followed_by(
        Frame::of_sequel(sequel@),
    );
    assert(left.argv =~= right.argv);
    assert(left.redirect_to =~= right.redirect_to);
    assert(left.errors =~= right.errors);
}

/// Every frame of every text is sound.
pub proof fn lemma_scan_frame_sound(classes: CharClasses, s: Seq<char>, pos: int)
    ensures
        scan_frame(classes, s, pos).sound(),
    decreases s.len(), s.len() - pos,
{
    let step = token_at(classes, s, pos);
    lemma_frame_progress(classes, s, pos);
    match step.item {
        None => {},
        Some(Err(error)) => {
            lemma_scan_frame_sound(classes, s, step.next);
        },
        Some(Ok(token)) => match token {
            TokenView::Word(w) => {
                lemma_scan_frame_sound(classes, s, step.next);
            },
            TokenView::Variable(name) => {
                lemma_scan_frame_sound(classes, s, step.next);
            },
            TokenView::SubShell(raw) => {
                lemma_scan_frame_sound(classes, raw, 0);
                lemma_scan_frame_sound(classes, s, step.next);
                let rest = scan_frame(classes, s, step.next);
                let frame = scan_frame(classes, s, pos);
                match parse_text(classes, raw) {
                    Ok(command) => {
                        assert(command.well_formed());
                        assert forall|i: int|
                            0 <= i < frame.argv.len() && frame.argv[i] is Subshell implies (
                        #[trigger] frame.argv[i])->Subshell_0.well_formed() by {
                            if i > 0 {
                                assert(frame.argv[i] == rest.argv[i - 1]);
                            }
                        }
                    },
                    Err(errors) => {
                        assert(frame.argv =~= rest.argv);
                    },
                }
            },
            TokenView::RedirOut | TokenView::RedirErr | TokenView::RedirBoth => {
                lemma_scan_frame_sound(classes, s, token_at(classes, s, step.next).next);
            },
            TokenView::Pipe | TokenView::PipeBoth | TokenView::AndThen | TokenView::AndThenIf => {
                lemma_scan_frame_sound(classes, s, step.next);
            },
        },
    }
}

/// Every command that parsing yields is well formed, and no failure holds
/// the error `NonRedirTypeToken`.
pub proof fn lemma_parse_well_formed(classes: CharClasses, s: Seq<char>)
    ensures
        parse_text(classes, s) matches Ok(command) ==> command.well_formed(),
        parse_text(classes, s) matches Err(errors) ==> forall|i: int|
            0 <= i < errors.len() ==> #[trigger] errors[i] != ParseError::NonRedirTypeToken,
{
    lemma_scan_frame_sound(classes, s, 0);
}

} // verus!
