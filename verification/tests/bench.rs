use iai_callgrind_runner::args::{parse_command_line, CallgrindArgs};
use iai_callgrind_runner::bench::{plan_runs, Action, BenchRun, Event};
use iai_callgrind_runner::command::Platform;
use iai_callgrind_runner::stats::CallgrindStats;

const OUTPUT: &str = "target/iai/m/callgrind.f.out";
const OLD: &str = "target/iai/m/callgrind.f.out.old";

fn start() -> BenchRun {
    BenchRun::new(Platform::Linux, "m", "x86_64", "exe", 3, "f", false, &CallgrindArgs::default())
}

fn exited(success: bool) -> Event {
    Event::Exited { success, status: "exit status: 7".to_string() }
}

fn until_execution(exists: bool) -> BenchRun {
    let mut run = start();
    assert!(matches!(run.action(), Action::CreateParentOf(OUTPUT)));
    run.advance(Event::Done);
    assert!(matches!(run.action(), Action::CheckExists(OUTPUT)));
    run.advance(Event::Exists(exists));
    if exists {
        assert!(matches!(run.action(), Action::Copy { from: OUTPUT, to: OLD }));
        run.advance(Event::Done);
    }
    run
}

#[test]
fn command_of_a_run() {
    let run = until_execution(false);
    match run.action() {
        Action::Execute(command) => {
            assert_eq!(command.program, "setarch");
            assert_eq!(command.args[..4], ["x86_64", "-R", "valgrind", "--tool=callgrind"]);
            assert_eq!(command.args[11], format!("--callgrind-out-file={}", OUTPUT));
            assert_eq!(command.args[13..], ["exe", "--iai-run", "3", "m::f"]);
        }
        other => panic!("{:?}", other),
    }
}

#[test]
fn first_run() {
    let stats = CallgrindStats::from_counters(&[1; 9]);
    let mut run = until_execution(false);
    run.advance(exited(true));
    assert!(matches!(run.action(), Action::ReadStats(OUTPUT)));
    run.advance(Event::Stats(stats));
    assert!(matches!(run.action(), Action::CheckExists(OLD)));
    run.advance(Event::Exists(false));
    match run.action() {
        Action::Return { new, old } => assert_eq!((new, old), (stats, None)),
        other => panic!("{:?}", other),
    }
}

#[test]
fn later_run() {
    let stats = CallgrindStats::from_counters(&[1; 9]);
    let before = CallgrindStats::from_counters(&[2; 9]);
    let mut run = until_execution(true);
    assert!(matches!(run.action(), Action::Execute(_)));
    run.advance(exited(true));
    run.advance(Event::Stats(stats));
    run.advance(Event::Exists(true));
    assert!(matches!(run.action(), Action::ReadStats(OLD)));
    run.advance(Event::Stats(before));
    match run.action() {
        Action::Return { new, old } => assert_eq!((new, old), (stats, Some(before))),
        other => panic!("{:?}", other),
    }
}

#[test]
fn failed_run() {
    let mut run = until_execution(false);
    run.advance(exited(false));
    match run.action() {
        Action::Fail(message) => assert_eq!(
            message,
            "Failed to run benchmark in callgrind. Exit code: exit status: 7"
        ),
        other => panic!("{:?}", other),
    }
}

#[test]
fn unasked_events_change_nothing() {
    let mut run = start();
    run.advance(Event::Exists(true));
    run.advance(exited(true));
    assert!(matches!(run.action(), Action::CreateParentOf(OUTPUT)));
    run.advance(Event::Done);
    run.advance(Event::Done);
    assert!(matches!(run.action(), Action::CheckExists(OUTPUT)));
}

#[test]
fn planned_runs() {
    let arguments: Vec<String> = ["m", "--iai-bench=f", "--iai-bench=g", "exe", "--LL=1", "--bench"]
        .iter()
        .map(|argument| argument.to_string())
        .collect();
    let invocation = parse_command_line(&arguments).unwrap();
    let runs = plan_runs(&invocation, Platform::Other, "arm64", false);
    assert_eq!(runs.len(), 2);
    assert_eq!(runs[0].output_file, OUTPUT);
    assert_eq!(runs[0].old_file, OLD);
    assert_eq!(runs[1].output_file, "target/iai/m/callgrind.g.out");
    for (index, run) in runs.iter().enumerate() {
        assert_eq!(run.command.program, "valgrind");
        assert_eq!(run.command.args[0], "--tool=callgrind");
        assert_eq!(run.command.args[3], "--LL=1");
        assert_eq!(run.command.args[12], index.to_string());
        assert_eq!(run.command.args[13], ["m::f", "m::g"][index]);
        assert!(matches!(run.action(), Action::CreateParentOf(_)));
    }
}
