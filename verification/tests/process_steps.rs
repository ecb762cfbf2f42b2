use shell_pipeline::parser::{Command, RedirType};
use shell_pipeline::process::{
    advance, exec_words, last_stage, run_head, run_tail, sequel, Action, ForkReturn, Pipe,
    StageState, Step, Stream, WaitStatus,
};

fn parse(input: &str) -> Command {
    Command::parse(input).expect("the line parses")
}

const PIPE: Pipe = Pipe { read_fd: 3, write_fd: 4 };

fn forked(side: ForkReturn) -> StageState {
    StageState::Forked { pipe: PIPE, side }
}

#[test]
fn an_exit_status_decodes_to_its_code() {
    assert_eq!(WaitStatus::decode(0), WaitStatus::Exited(0));
    assert_eq!(WaitStatus::decode(1 << 8), WaitStatus::Exited(1));
    assert_eq!(WaitStatus::decode(127 << 8), WaitStatus::Exited(127));
    assert_eq!(WaitStatus::decode(255 << 8), WaitStatus::Exited(255));
}

#[test]
fn a_signal_status_decodes_to_its_signal() {
    assert_eq!(WaitStatus::decode(9), WaitStatus::TermSignal(9));
    assert_eq!(WaitStatus::decode(15), WaitStatus::TermSignal(15));
    assert_eq!(WaitStatus::decode(11 | 0x80), WaitStatus::TermSignal(11));
    assert_eq!(WaitStatus::decode(126), WaitStatus::TermSignal(126));
}

#[test]
fn a_stop_status_decodes_to_its_signal() {
    assert_eq!(WaitStatus::decode((19 << 8) | 0x7f), WaitStatus::Stopped(19));
    assert_eq!(WaitStatus::decode((20 << 8) | 0x7f), WaitStatus::Stopped(20));
}

#[test]
fn the_continued_status_is_recognised() {
    assert_eq!(WaitStatus::decode(0xffff), WaitStatus::Continued);
}

#[test]
fn a_status_of_no_class_is_unknown() {
    assert_eq!(WaitStatus::decode(0x00ff), WaitStatus::Unknown);
    assert_eq!(WaitStatus::decode(0x12ff), WaitStatus::Unknown);
}

#[test]
fn decoded_numbers_stay_in_range() {
    for status in 0..=0x1ffff {
        match WaitStatus::decode(status) {
            WaitStatus::Exited(code) => assert!((0..=255).contains(&code)),
            WaitStatus::TermSignal(signal) => assert!((1..=126).contains(&signal)),
            WaitStatus::Stopped(signal) => assert!((0..=255).contains(&signal)),
            WaitStatus::Continued => assert_eq!(status, 0xffff),
            WaitStatus::Unknown => {}
        }
    }
}

#[test]
fn only_exit_code_zero_is_success() {
    assert!(WaitStatus::Exited(0).success());
    assert!(!WaitStatus::Exited(1).success());
    assert!(!WaitStatus::TermSignal(0).success());
    assert!(!WaitStatus::Stopped(0).success());
    assert!(!WaitStatus::Continued.success());
    assert!(!WaitStatus::Unknown.success());
}

#[test]
fn redirection_types_name_their_streams() {
    assert_eq!(RedirType::Stdout.streams(), vec![Stream::Stdout]);
    assert_eq!(RedirType::Stderr.streams(), vec![Stream::Stderr]);
    assert_eq!(RedirType::Both.streams(), vec![Stream::Stdout, Stream::Stderr]);
}

#[test]
fn only_words_are_handed_to_the_program() {
    let command = parse("echo $HOME hi (ls) 'a b'");
    assert_eq!(exec_words(&command), vec!["echo", "hi", "a b"]);
    assert_eq!(exec_words(&parse("$HOME (ls)")), Vec::<&str>::new());
}

#[test]
fn a_single_command_runs_at_once() {
    let command = parse("ls -l");
    assert_eq!(
        advance(&command, None, StageState::NotStarted),
        Step::Run { actions: vec![Action::Exec { argv: vec!["ls", "-l"] }] }
    );
}

#[test]
fn a_two_stage_pipeline_is_set_up_left_to_right() {
    let command = parse("printf foo | cat");

    assert_eq!(advance(&command, None, StageState::NotStarted), Step::Fork);

    assert_eq!(
        advance(&command, None, forked(ForkReturn::Parent(77))),
        Step::Run {
            actions: vec![
                Action::Close { fd: 3 },
                Action::Bind { fd: 4, stream: Stream::Stdout },
                Action::Exec { argv: vec!["printf", "foo"] }
            ]
        }
    );

    let step = advance(&command, None, forked(ForkReturn::Child));
    let target = &*command.pipe_to.as_ref().expect("piped").target;
    assert_eq!(step, Step::Descend { close: 4, target, read_from: 3 });

    assert_eq!(
        advance(target, Some(3), StageState::NotStarted),
        Step::Run {
            actions: vec![
                Action::Bind { fd: 3, stream: Stream::Stdin },
                Action::Exec { argv: vec!["cat"] }
            ]
        }
    );
}

#[test]
fn a_middle_stage_binds_its_output_before_its_input() {
    let command = parse("a | b | c");
    let middle = &*command.pipe_to.as_ref().expect("piped").target;
    let pipe = Pipe { read_fd: 5, write_fd: 6 };
    assert_eq!(advance(middle, Some(3), StageState::NotStarted), Step::Fork);
    assert_eq!(
        advance(middle, Some(3), StageState::Forked { pipe, side: ForkReturn::Parent(1) }),
        Step::Run {
            actions: vec![
                Action::Close { fd: 5 },
                Action::Bind { fd: 6, stream: Stream::Stdout },
                Action::Bind { fd: 3, stream: Stream::Stdin },
                Action::Exec { argv: vec!["b"] }
            ]
        }
    );
}

#[test]
fn pipe_both_binds_both_output_streams() {
    let command = parse("make |& tee log");
    assert_eq!(
        run_head(&command, RedirType::Both, None, PIPE),
        vec![
            Action::Close { fd: 3 },
            Action::Bind { fd: 4, stream: Stream::Stdout },
            Action::Bind { fd: 4, stream: Stream::Stderr },
            Action::Exec { argv: vec!["make"] }
        ]
    );
    assert_eq!(
        advance(&command, None, forked(ForkReturn::Parent(1))),
        Step::Run { actions: run_head(&command, RedirType::Both, None, PIPE) }
    );
    assert_eq!(
        run_head(&command, RedirType::Stderr, Some(9), PIPE),
        vec![
            Action::Close { fd: 3 },
            Action::Bind { fd: 4, stream: Stream::Stderr },
            Action::Bind { fd: 9, stream: Stream::Stdin },
            Action::Exec { argv: vec!["make"] }
        ]
    );
}

#[test]
fn the_last_stage_applies_its_redirections_in_order() {
    let command = parse("cmd arg > out 2> err");
    assert_eq!(
        run_tail(&command, Some(7)),
        vec![
            Action::Bind { fd: 7, stream: Stream::Stdin },
            Action::Redirect { redirect: &command.redirect_to[0] },
            Action::Redirect { redirect: &command.redirect_to[1] },
            Action::Exec { argv: vec!["cmd", "arg"] }
        ]
    );
    assert_eq!(
        advance(&command, None, StageState::NotStarted),
        Step::Run {
            actions: vec![
                Action::Redirect { redirect: &command.redirect_to[0] },
                Action::Redirect { redirect: &command.redirect_to[1] },
                Action::Exec { argv: vec!["cmd", "arg"] }
            ]
        }
    );
}

#[test]
fn a_stage_that_is_piped_on_applies_no_file_redirection() {
    let command = parse("echo hello > output.txt | grep world");
    assert_eq!(
        advance(&command, None, forked(ForkReturn::Parent(1))),
        Step::Run {
            actions: vec![
                Action::Close { fd: 3 },
                Action::Bind { fd: 4, stream: Stream::Stdout },
                Action::Exec { argv: vec!["echo", "hello"] }
            ]
        }
    );
}

#[test]
fn a_stage_without_words_runs_nothing() {
    let tail = parse("$HOME");
    assert_eq!(advance(&tail, Some(3), StageState::NotStarted), Step::Run { actions: vec![] });
    let head = parse("$HOME | cat");
    assert_eq!(
        advance(&head, Some(8), forked(ForkReturn::Parent(1))),
        Step::Run { actions: vec![Action::Close { fd: 3 }] }
    );
}

#[test]
fn a_last_stage_runs_in_whatever_state() {
    let command = parse("cat");
    let expected = Step::Run {
        actions: vec![
            Action::Bind { fd: 3, stream: Stream::Stdin },
            Action::Exec { argv: vec!["cat"] },
        ],
    };
    assert_eq!(advance(&command, Some(3), StageState::NotStarted), expected);
    assert_eq!(advance(&command, Some(3), forked(ForkReturn::Child)), expected);
    assert_eq!(advance(&command, Some(3), forked(ForkReturn::Parent(5))), expected);
}

#[test]
fn the_last_stage_is_found_along_the_pipes() {
    let command = parse("a | b | c x");
    assert_eq!(last_stage(&command), &parse("c x"));
    let single = parse("a ; b");
    assert_eq!(last_stage(&single), &single);
}

#[test]
fn an_unconditional_sequel_always_runs() {
    let command = parse("a ; b");
    let b = parse("b");
    assert_eq!(sequel(&command, WaitStatus::Exited(0)), Some(&b));
    assert_eq!(sequel(&command, WaitStatus::Exited(3)), Some(&b));
    assert_eq!(sequel(&command, WaitStatus::TermSignal(9)), Some(&b));
    assert_eq!(sequel(&command, WaitStatus::Unknown), Some(&b));
}

#[test]
fn a_conditional_sequel_runs_after_success_only() {
    let command = parse("a && b");
    let b = parse("b");
    assert_eq!(sequel(&command, WaitStatus::Exited(0)), Some(&b));
    assert_eq!(sequel(&command, WaitStatus::Exited(1)), None);
    assert_eq!(sequel(&command, WaitStatus::TermSignal(2)), None);
    assert_eq!(sequel(&command, WaitStatus::Stopped(19)), None);
    assert_eq!(sequel(&command, WaitStatus::Continued), None);
}

#[test]
fn a_pipeline_is_sequenced_on_its_last_stage() {
    let command = parse("a | b && c");
    let c = parse("c");
    assert_eq!(sequel(&command, WaitStatus::Exited(0)), Some(&c));
    assert_eq!(sequel(&command, WaitStatus::Exited(1)), None);
}

#[test]
fn a_command_without_sequencer_has_no_sequel() {
    assert_eq!(sequel(&parse("a"), WaitStatus::Exited(0)), None);
    assert_eq!(sequel(&parse("a | b"), WaitStatus::Exited(0)), None);
}
