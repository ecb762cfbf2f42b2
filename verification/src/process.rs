//! The decisions of the process-pipeline executor.
//!
//! Creating processes and pipes is the host's work. This module decides
//! what the host is asked to do: for each stage of a pipeline, in which
//! order descriptors are closed and bound and what is executed; how a raw
//! wait status reads; and which command runs after a pipeline has ended.

use vstd::prelude::*;
use crate::parser::{
    args_view, lemma_command_view, redirects_view, Arg, ArgView, Command, CommandView, FileRedir,
    FileRedirView, RedirType,
};

verus! {

/// Which side of a fork a process finds itself on.
#[derive(Debug, Clone, Copy, PartialEq, Eq, Structural)]
pub enum ForkReturn {
    /// The process that forked, with the identifier of the new process.
    Parent(i32),
    /// The new process.
    Child,
}

/// The two descriptors of a pipe.
#[derive(Debug, Clone, Copy, PartialEq, Eq, Structural)]
pub struct Pipe {
    pub read_fd: i32,
    pub write_fd: i32,
}

/// A standard stream of a process.
#[derive(Debug, Clone, Copy, PartialEq, Eq, Structural)]
pub enum Stream {
    Stdin,
    Stdout,
    Stderr,
}

/// How a child process ended or changed state.
#[derive(Debug, Clone, Copy, PartialEq, Eq, Structural)]
pub enum WaitStatus {
    /// It exited, with this code.
    Exited(i32),
    /// A signal with this number terminated it.
    TermSignal(i32),
    /// A signal with this number stopped it.
    Stopped(i32),
    /// It was resumed.
    Continued,
    /// The status reads as none of these.
    Unknown,
}

/// Assumed of `libc::WIFEXITED`, as defined for Linux-like targets: the
/// low seven bits of the status are zero.
pub assume_specification[ libc::WIFEXITED ](status: libc::c_int) -> (r: bool)
    ensures
        r == ((status & 0x7f) == 0),
;

/// Assumed of `libc::WEXITSTATUS`, as defined for Linux-like targets: the
/// second byte of the status.
pub assume_specification[ libc::WEXITSTATUS ](status: libc::c_int) -> (r: libc::c_int)
    ensures
        r == (status >> 8) & 0xff,
;

/// Assumed of `libc::WIFSIGNALED`, as defined for Linux-like targets: one
/// more than the low seven bits, read as a signed byte, is at least two;
/// that is, the low seven bits lie between 1 and 126.
pub assume_specification[ libc::WIFSIGNALED ](status: libc::c_int) -> (r: bool)
    ensures
        r == (1 <= (status & 0x7f) <= 0x7e),
;

/// Assumed of `libc::WTERMSIG`, as defined for Linux-like targets: the low
/// seven bits of the status.
pub assume_specification[ libc::WTERMSIG ](status: libc::c_int) -> (r: libc::c_int)
    ensures
        r == status & 0x7f,
;

/// Assumed of `libc::WIFSTOPPED`, as defined for Linux-like targets: the
/// low byte of the status is `0x7f`.
pub assume_specification[ libc::WIFSTOPPED ](status: libc::c_int) -> (r: bool)
    ensures
        r == ((status & 0xff) == 0x7f),
;

/// Assumed of `libc::WSTOPSIG`, as defined for Linux-like targets: the
/// second byte of the status.
pub assume_specification[ libc::WSTOPSIG ](status: libc::c_int) -> (r: libc::c_int)
    ensures
        r == (status >> 8) & 0xff,
;

/// Assumed of `libc::WIFCONTINUED`, as defined for Linux-like targets: the
/// status is `0xffff`.
pub assume_specification[ libc::WIFCONTINUED ](status: libc::c_int) -> (r: bool)
    ensures
        r == (status == 0xffff),
;

impl WaitStatus {
    /// How a raw wait status reads. The tests are made in this order: exit,
    /// terminating signal, stopping signal, continuation.
    pub open spec fn of_raw(status: i32) -> WaitStatus {
        if (status & 0x7f) == 0 {
            WaitStatus::Exited((status >> 8) & 0xff)
        } else if 1 <= (status & 0x7f) <= 0x7e {
            WaitStatus::TermSignal(status & 0x7f)
        } else if (status & 0xff) == 0x7f {
            WaitStatus::Stopped((status >> 8) & 0xff)
        } else if status == 0xffff {
            WaitStatus::Continued
        } else {
            WaitStatus::Unknown
        }
    }

    /// Decodes the raw status that waiting for a child reported.
    pub fn decode(status: i32) -> (r: WaitStatus)
        ensures
            r == WaitStatus::of_raw(status),
    {
        if libc::WIFEXITED(status) {
            WaitStatus::Exited(libc::WEXITSTATUS(status))
        } else if libc::WIFSIGNALED(status) {
            WaitStatus::TermSignal(libc::WTERMSIG(status))
        } else if libc::WIFSTOPPED(status) {
            WaitStatus::Stopped(libc::WSTOPSIG(status))
        } else if libc::WIFCONTINUED(status) {
            WaitStatus::Continued
        } else {
            WaitStatus::Unknown
        }
    }

    /// Whether the status is that of a successful end: an exit with code 0.
    pub open spec fn is_success(self) -> bool {
        self == WaitStatus::Exited(0)
    }

    /// Whether the child ended successfully.
    pub fn success(&self) -> (b: bool)
        ensures
            b == self.is_success(),
    {
        match self {
            WaitStatus::Exited(code) => *code == 0,
            _ => false,
        }
    }
}

/// What the classes of raw statuses decode to: an exit code in the second
/// byte, above a zero byte, is an exit with that code; a signal number
/// between 1 and 126 in the low byte, with or without the core-dump flag
/// `0x80`, is a termination by that signal; a signal number in the second
/// byte, above the byte `0x7f`, is a stop by that signal; `0xffff` is a
/// continuation.
pub proof fn lemma_wait_status_classes(code: i32, signal: i32)
    requires
        0 <= code <= 255,
    ensures
        WaitStatus::of_raw(code << 8) == WaitStatus::Exited(code),
        1 <= signal <= 126 ==> WaitStatus::of_raw(signal) == WaitStatus::TermSignal(signal),
        1 <= signal <= 126 ==> WaitStatus::of_raw(signal | 0x80) == WaitStatus::TermSignal(signal),
        WaitStatus::of_raw((code << 8) | 0x7f) == WaitStatus::Stopped(code),
        WaitStatus::of_raw(0xffff) == WaitStatus::Continued,
{
    assert(0 <= code <= 255 ==> (code << 8) & 0x7f == 0 && ((code << 8) >> 8) & 0xff == code)
        by (bit_vector);
    assert(1 <= signal <= 126 ==> signal & 0x7f == signal) by (bit_vector);
    assert(1 <= signal <= 126 ==> (signal | 0x80) & 0x7f == signal) by (bit_vector);
    assert(0 <= code <= 255 ==> ((code << 8) | 0x7f) & 0x7f == 0x7f && ((code << 8) | 0x7f) & 0xff
        == 0x7f && (((code << 8) | 0x7f) >> 8) & 0xff == code) by (bit_vector);
    assert(0xffffi32 & 0x7f == 0x7f && 0xffffi32 & 0xff == 0xff) by (bit_vector);
}

/// The numbers that a decoded status can carry: an exit code and a stopping
/// signal fit in a byte, and a terminating signal lies between 1 and 126.
pub proof fn lemma_wait_status_ranges(status: i32)
    ensures
        match WaitStatus::of_raw(status) {
            WaitStatus::Exited(code) => 0 <= code <= 255,
            WaitStatus::TermSignal(signal) => 1 <= signal <= 126,
            WaitStatus::Stopped(signal) => 0 <= signal <= 255,
            WaitStatus::Continued => status == 0xffff,
            WaitStatus::Unknown => true,
        },
{
    assert(0 <= (status >> 8) & 0xff <= 255) by (bit_vector);
}

/// One thing that a process is asked to do before it runs a program, or the
/// running of the program itself.
#[derive(Debug, PartialEq)]
pub enum Action<'a> {
    /// Close the descriptor.
    Close { fd: i32 },
    /// Make the stream refer to what the descriptor refers to.
    Bind { fd: i32, stream: Stream },
    /// Open the target for writing and bind it to the streams of the
    /// redirection's type.
    Redirect { redirect: &'a FileRedir },
    /// Replace the process image: run `argv[0]` with `argv` as arguments.
    Exec { argv: Vec<&'a str> },
}

/// The mathematical value of an `Action`.
pub enum ActionView {
    Close { fd: i32 },
    Bind { fd: i32, stream: Stream },
    Redirect { redirect: FileRedirView },
    Exec { argv: Seq<Seq<char>> },
}

impl<'a> View for Action<'a> {
    type V = ActionView;

    open spec fn view(&self) -> ActionView {
        match self {
            Action::Close { fd } => ActionView::Close { fd: *fd },
            Action::Bind { fd, stream } => ActionView::Bind { fd: *fd, stream: *stream },
            Action::Redirect { redirect } => ActionView::Redirect { redirect: redirect@ },
            Action::Exec { argv } => ActionView::Exec { argv: texts(argv@) },
        }
    }
}

/// The texts of a sequence of string slices.
pub open spec fn texts(strs: Seq<&str>) -> Seq<Seq<char>> {
    Seq::new(strs.len(), |i: int| strs[i]@)
}

/// The values of a sequence of actions.
pub open spec fn actions_view(actions: Seq<Action>) -> Seq<ActionView> {
    Seq::new(actions.len(), |i: int| actions[i]@)
}

/// The state of one pipeline stage in the process that works on it.
#[derive(Debug, Clone, Copy, PartialEq, Eq, Structural)]
pub enum StageState {
    /// Nothing was done for the stage yet.
    NotStarted,
    /// A pipe was created for the stage and the process forked.
    Forked { pipe: Pipe, side: ForkReturn },
}

/// What the host is asked to do for a stage.
#[derive(Debug, PartialEq)]
pub enum Step<'a> {
    /// Create a pipe, then fork; the stage is then `Forked` on both sides.
    Fork,
    /// Perform the actions in order; nothing follows them in this process.
    Run { actions: Vec<Action<'a>> },
    /// Close the descriptor `close`, then go on to the stage `target`, which
    /// is not started and reads from `read_from`.
    Descend { close: i32, target: &'a Command, read_from: i32 },
}

/// The mathematical value of a `Step`.
pub enum StepView {
    Fork,
    Run { actions: Seq<ActionView> },
    Descend { close: i32, target: CommandView, read_from: i32 },
}

impl<'a> View for Step<'a> {
    type V = StepView;

    open spec fn view(&self) -> StepView {
        match self {
            Step::Fork => StepView::Fork,
            Step::Run { actions } => StepView::Run { actions: actions_view(actions@) },
            Step::Descend { close, target, read_from } => StepView::Descend {
                close: *close,
                target: target@,
                read_from: *read_from,
            },
        }
    }
}

impl RedirType {
    /// The output streams that the type names, standard output first.
    pub open spec fn output_streams(self) -> Seq<Stream> {
        match self {
            RedirType::Stdout => seq![Stream::Stdout],
            RedirType::Stderr => seq![Stream::Stderr],
            RedirType::Both => seq![Stream::Stdout, Stream::Stderr],
        }
    }

    /// The output streams that the type names, standard output first.
    pub fn streams(&self) -> (streams: Vec<Stream>)
        ensures
            streams@ == self.output_streams(),
    {
        let mut streams: Vec<Stream> = Vec::new();
        match self {
            RedirType::Stdout => {
                streams.push(Stream::Stdout);
            },
            RedirType::Stderr => {
                streams.push(Stream::Stderr);
            },
            RedirType::Both => {
                streams.push(Stream::Stdout);
                streams.push(Stream::Stderr);
            },
        }
        assert(streams@ =~= self.output_streams());
        streams
    }
}

/// The arguments that are handed to the program: the words among the
/// arguments, in order. Variable references and subshells are not
/// evaluated and are left out.
pub open spec fn words_of(argv: Seq<ArgView>) -> Seq<Seq<char>>
    decreases argv.len(),
{
    if argv.len() == 0 {
        Seq::empty()
    } else {
        match argv.last() {
            ArgView::Word(w) => words_of(argv.drop_last()).push(w),
            _ => words_of(argv.drop_last()),
        }
    }
}

/// Binding the descriptor to each of the streams, in order.
pub open spec fn stream_binds(fd: i32, streams: Seq<Stream>) -> Seq<ActionView> {
    Seq::new(streams.len(), |i: int| ActionView::Bind { fd, stream: streams[i] })
}

/// Binding standard input to the inherited descriptor, where there is one.
pub open spec fn stdin_bind(read_from: Option<i32>) -> Seq<ActionView> {
    match read_from {
        Some(fd) => seq![ActionView::Bind { fd, stream: Stream::Stdin }],
        None => Seq::empty(),
    }
}

/// Applying each of the redirections, in order.
pub open spec fn redirect_actions(redirects: Seq<FileRedirView>) -> Seq<ActionView> {
    Seq::new(redirects.len(), |i: int| ActionView::Redirect { redirect: redirects[i] })
}

/// What the process does that runs a stage whose output is piped on: it
/// closes the pipe's read end; binds the piped streams to the write end;
/// binds standard input to the inherited descriptor; and runs the program.
/// With no word to run, it only closes the read end.
pub open spec fn head_actions(
    command: CommandView,
    pipe_type: RedirType,
    read_from: Option<i32>,
    pipe: Pipe,
) -> Seq<ActionView> {
    let close = seq![ActionView::Close { fd: pipe.read_fd }];
    let argv = words_of(command.argv);
    if argv.len() == 0 {
        close
    } else {
        close + stream_binds(pipe.write_fd, pipe_type.output_streams()) + stdin_bind(read_from)
            + seq![ActionView::Exec { argv }]
    }
}

/// What the process does that runs the last stage of a pipeline: it binds
/// standard input to the inherited descriptor; applies the file
/// redirections in order; and runs the program. With no word to run, it
/// does nothing.
pub open spec fn tail_actions(command: CommandView, read_from: Option<i32>) -> Seq<ActionView> {
    let argv = words_of(command.argv);
    if argv.len() == 0 {
        Seq::empty()
    } else {
        stdin_bind(read_from) + redirect_actions(command.redirect_to) + seq![
            ActionView::Exec { argv },
        ]
    }
}

/// Whether the actions run exactly one program, as their last action, and
/// hand it at least its own name.
pub open spec fn ends_in_program(actions: Seq<ActionView>) -> bool {
    &&& actions.len() > 0
    &&& actions.last() matches ActionView::Exec { argv } && argv.len() > 0
    &&& forall|i: int| 0 <= i < actions.len() - 1 ==> !(#[trigger] actions[i] is Exec)
}

/// What a stage runs: with a word among its arguments, the actions of a
/// stage end in the program and run no other; without one, they run none.
pub proof fn lemma_stage_runs_one_program(
    command: CommandView,
    pipe_type: RedirType,
    read_from: Option<i32>,
    pipe: Pipe,
)
    ensures
        words_of(command.argv).len() > 0 ==> ends_in_program(tail_actions(command, read_from))
            && ends_in_program(head_actions(command, pipe_type, read_from, pipe)),
        words_of(command.argv).len() == 0 ==> tail_actions(command, read_from).len() == 0
            && head_actions(command, pipe_type, read_from, pipe) == seq![
            ActionView::Close { fd: pipe.read_fd },
        ],
{
}

/// The step that a stage takes. A last stage runs at once. A stage that is
/// piped on first forks; then the parent runs the stage, and the child
/// closes the pipe's write end and goes on to the next stage, which reads
/// from the pipe.
pub open spec fn next_step(
    command: CommandView,
    read_from: Option<i32>,
    state: StageState,
) -> StepView {
    match command.pipe_to {
        None => StepView::Run { actions: tail_actions(command, read_from) },
        Some(pipe_to) => match state {
            StageState::NotStarted => StepView::Fork,
            StageState::Forked { pipe, side: ForkReturn::Parent(_) } => StepView::Run {
                actions: head_actions(command, pipe_to.pipe_type, read_from, pipe),
            },
            StageState::Forked { pipe, side: ForkReturn::Child } => StepView::Descend {
                close: pipe.write_fd,
                target: *pipe_to.target,
                read_from: pipe.read_fd,
            },
        },
    }
}

/// The words among the arguments of `command`, in order.
pub fn exec_words<'a>(command: &'a Command) -> (words: Vec<&'a str>)
    ensures
        texts(words@) == words_of(command@.argv),
{
    let mut words: Vec<&'a str> = Vec::new();
    let mut i: usize = 0;
    proof {
        lemma_command_view(*command);
        assert(command@.argv.take(0) =~= Seq::<ArgView>::empty());
        assert(texts(words@) =~= Seq::<Seq<char>>::empty());
    }
    while i < command.argv.len()
        invariant
            i <= command.argv.len(),
            command@.argv == args_view(command.argv@),
            texts(words@) == words_of(command@.argv.take(i as int)),
        decreases command.argv.len() - i,
    {
        let ghost before = words@;
        proof {
            let prefix = command@.argv.take(i + 1);
            assert(prefix.drop_last() =~= command@.argv.take(i as int));
            assert(prefix.last() == command.argv[i as int]@);
        }
        match &command.argv[i] {
            Arg::Word(w) => {
                words.push(w.as_str());
                assert(texts(words@) =~= texts(before).push(w@));
            },
            _ => {},
        }
        i = i + 1;
    }
    proof {
        assert(command@.argv.take(i as int) =~= command@.argv);
    }
    words
}

fn push_action<'a>(actions: &mut Vec<Action<'a>>, action: Action<'a>)
    ensures
        actions_view(final(actions)@) == actions_view(old(actions)@).push(action@),
{
    actions.push(action);
    assert(actions_view(actions@) =~= actions_view(old(actions)@).push(action@));
}

/// The actions of a stage that is piped on, for the process that runs it.
pub fn run_head<'a>(
    command: &'a Command,
    pipe_type: RedirType,
    read_from: Option<i32>,
    pipe: Pipe,
) -> (actions: Vec<Action<'a>>)
    ensures
        actions_view(actions@) == head_actions(command@, pipe_type, read_from, pipe),
{
    let mut actions: Vec<Action<'a>> = Vec::new();
    assert(actions_view(actions@) =~= Seq::<ActionView>::empty());
    push_action(&mut actions, Action::Close { fd: pipe.read_fd });
    let argv = exec_words(command);
    if argv.len() == 0 {
        assert(actions_view(actions@) =~= head_actions(command@, pipe_type, read_from, pipe));
        return actions;
    }
    let streams = pipe_type.streams();
    let ghost closed = actions_view(actions@);
    let mut i: usize = 0;
    while i < streams.len()
        invariant
            i <= streams.len(),
            actions_view(actions@) == closed + stream_binds(pipe.write_fd, streams@.take(i as int)),
        decreases streams.len() - i,
    {
        push_action(&mut actions, Action::Bind { fd: pipe.write_fd, stream: streams[i] });
        i = i + 1;
        assert(actions_view(actions@) =~= closed + stream_binds(
            pipe.write_fd,
            streams@.take(i as int),
        ));
    }
    assert(streams@.take(i as int) =~= streams@);
    let ghost bound = actions_view(actions@);
    if let Some(fd) = read_from {
        push_action(&mut actions, Action::Bind { fd, stream: Stream::Stdin });
    }
    assert(actions_view(actions@) =~= bound + stdin_bind(read_from));
    push_action(&mut actions, Action::Exec { argv });
    assert(actions_view(actions@) =~= head_actions(command@, pipe_type, read_from, pipe));
    actions
}

/// The actions of the last stage of a pipeline.
pub fn run_tail<'a>(command: &'a Command, read_from: Option<i32>) -> (actions: Vec<Action<'a>>)
    ensures
        actions_view(actions@) == tail_actions(command@, read_from),
{
    let mut actions: Vec<Action<'a>> = Vec::new();
    assert(actions_view(actions@) =~= Seq::<ActionView>::empty());
    let argv = exec_words(command);
    if argv.len() == 0 {
        return actions;
    }
    if let Some(fd) = read_from {
        push_action(&mut actions, Action::Bind { fd, stream: Stream::Stdin });
    }
    assert(actions_view(actions@) =~= stdin_bind(read_from));
    proof {
        lemma_command_view(*command);
    }
    let ghost redirects = command@.redirect_to;
    let mut i: usize = 0;
    while i < command.redirect_to.len()
        invariant
            i <= command.redirect_to.len(),
            redirects == redirects_view(command.redirect_to@),
            actions_view(actions@) == stdin_bind(read_from) + redirect_actions(
                redirects.take(i as int),
            ),
        decreases command.redirect_to.len() - i,
    {
        push_action(&mut actions, Action::Redirect { redirect: &command.redirect_to[i] });
        i = i + 1;
        assert(actions_view(actions@) =~= stdin_bind(read_from) + redirect_actions(
            redirects.take(i as int),
        ));
    }
    assert(redirects.take(i as int) =~= redirects);
    push_action(&mut actions, Action::Exec { argv });
    assert(actions_view(actions@) =~= tail_actions(command@, read_from));
    actions
}

/// Decides the step that the stage `command` takes in state `state`, where
/// `read_from` is the descriptor that an upstream stage left to read from.
pub fn advance<'a>(command: &'a Command, read_from: Option<i32>, state: StageState) -> (step:
    Step<'a>)
    ensures
        step@ == next_step(command@, read_from, state),
{
    proof {
        lemma_command_view(*command);
    }
    match &command.pipe_to {
        None => Step::Run { actions: run_tail(command, read_from) },
        Some(pipe_to) => match state {
            StageState::NotStarted => Step::Fork,
            StageState::Forked { pipe, side: ForkReturn::Parent(_) } => Step::Run {
                actions: run_head(command, pipe_to.pipe_type, read_from, pipe),
            },
            StageState::Forked { pipe, side: ForkReturn::Child } => Step::Descend {
                close: pipe.write_fd,
                target: &*pipe_to.target,
                read_from: pipe.read_fd,
            },
        },
    }
}

/// The last stage of the pipeline that starts at `command`.
pub open spec fn pipeline_tail(command: CommandView) -> CommandView
    decreases command,
{
    match command.pipe_to {
        Some(pipe_to) => pipeline_tail(*pipe_to.target),
        None => command,
    }
}

/// The command that runs after the pipeline that starts at `command` has
/// ended with `status`: the one sequenced after the pipeline's last stage,
/// unless it is conditional and the status is no success.
pub open spec fn sequel_of(command: CommandView, status: WaitStatus) -> Option<CommandView> {
    match pipeline_tail(command).and_then {
        Some(sequel) => if !sequel.conditional || status.is_success() {
            Some(*sequel.target)
        } else {
            None
        },
        None => None,
    }
}

/// The last stage of the pipeline that starts at `command`.
pub fn last_stage<'a>(command: &'a Command) -> (tail: &'a Command)
    ensures
        tail@ == pipeline_tail(command@),
    decreases command,
{
    proof {
        lemma_command_view(*command);
    }
    match &command.pipe_to {
        Some(pipe_to) => last_stage(&*pipe_to.target),
        None => command,
    }
}

/// Decides what runs after the pipeline that starts at `command` has ended
/// with `status`, the status of its last stage.
pub fn sequel<'a>(command: &'a Command, status: WaitStatus) -> (next: Option<&'a Command>)
    ensures
        match next {
            Some(target) => sequel_of(command@, status) == Some(target@),
            None => sequel_of(command@, status) is None,
        },
{
    let tail = last_stage(command);
    proof {
        lemma_command_view(*tail);
    }
    match &tail.and_then {
        Some(sequel) => if !sequel.conditional || status.success() {
            Some(&*sequel.target)
        } else {
            None
        },
        None => None,
    }
}

} // verus!
