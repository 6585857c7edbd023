use pipeshell::ast::Command;
use pipeshell::executor::ExecError;
use pipeshell::executor::ExecState;
use pipeshell::executor::stage_wiring;
use pipeshell::executor::StdinWiring;
use pipeshell::executor::StdoutWiring;

fn cmd(args: &[&str]) -> Command {
    Command { args: args.iter().map(|a| a.to_string()).collect() }
}

#[test]
fn split_program_names_executable_and_arguments() {
    let c = cmd(&["echo", "hi", "there"]);
    let (prog, rest) = c.split_program().unwrap();
    assert_eq!(prog, "echo");
    assert_eq!(rest, ["hi", "there"]);
}

#[test]
fn split_program_single_argument() {
    let c = cmd(&["cat"]);
    let (prog, rest) = c.split_program().unwrap();
    assert_eq!(prog, "cat");
    assert!(rest.is_empty());
}

#[test]
fn split_program_empty_command_rejected() {
    let c = cmd(&[]);
    assert_eq!(c.split_program(), Err(ExecError::EmptyCommand));
}

#[test]
fn single_stage_wired_to_outer_streams() {
    assert_eq!(stage_wiring(0, 1), (StdinWiring::Outer, StdoutWiring::Outer));
}

#[test]
fn two_stage_wiring() {
    assert_eq!(stage_wiring(0, 2), (StdinWiring::Outer, StdoutWiring::NewPipe));
    assert_eq!(stage_wiring(1, 2), (StdinWiring::FromPreviousStage, StdoutWiring::Outer));
}

#[test]
fn middle_stage_wired_pipe_to_pipe() {
    assert_eq!(stage_wiring(1, 3), (StdinWiring::FromPreviousStage, StdoutWiring::NewPipe));
}

#[test]
fn spawn_sequence_all_stages_succeed() {
    let mut st = ExecState::begin(3);
    assert!(!st.done());
    st.record_spawn(true);
    assert_eq!(st.pipe_ends_held, 1);
    st.record_spawn(true);
    assert_eq!(st.pipe_ends_held, 1);
    st.record_spawn(true);
    assert!(st.done());
    assert!(!st.failed);
    assert_eq!(st.next, 3);
    assert_eq!(st.pipes_created, 2);
    assert_eq!(st.pipe_ends_held, 0);
}

#[test]
fn spawn_sequence_single_stage_creates_no_pipe() {
    let mut st = ExecState::begin(1);
    st.record_spawn(true);
    assert!(st.done());
    assert_eq!(st.pipes_created, 0);
    assert_eq!(st.pipe_ends_held, 0);
}

#[test]
fn spawn_failure_ends_sequence_without_held_ends() {
    let mut st = ExecState::begin(3);
    st.record_spawn(true);
    st.record_spawn(false);
    assert!(st.done());
    assert!(st.failed);
    assert_eq!(st.next, 1);
    assert_eq!(st.pipes_created, 1);
    assert_eq!(st.pipe_ends_held, 0);
}

#[test]
fn spawn_failure_on_first_stage() {
    let mut st = ExecState::begin(2);
    st.record_spawn(false);
    assert!(st.done());
    assert!(st.failed);
    assert_eq!(st.pipes_created, 0);
    assert_eq!(st.pipe_ends_held, 0);
}

#[test]
fn next_wiring_follows_stage_position() {
    let mut st = ExecState::begin(2);
    assert_eq!(st.next_wiring(), (StdinWiring::Outer, StdoutWiring::NewPipe));
    st.record_spawn(true);
    assert_eq!(st.next_wiring(), (StdinWiring::FromPreviousStage, StdoutWiring::Outer));
}
