//! The course of one benchmark run, step by step.
//!
//! The run says what to do next and is told what came of it. Doing it, with files and processes,
//! is left to the caller.
use crate::args::{settings_for, CallgrindArgs, Invocation, Settings};
use crate::command::{callgrind_command, CommandLine, Platform};
use crate::paths::{old_file, output_file};
use crate::stats::CallgrindStats;
use vstd::prelude::*;

verus! {

/// How far a benchmark run has come.
#[derive(Debug)]
pub enum Phase {
    /// The directory for the results is to be created.
    Prepare,
    /// Whether there are results of an earlier run is to be found out.
    Look,
    /// The results of the earlier run are to be kept.
    Keep,
    /// The benchmark is to be run.
    Execute,
    /// The new results are to be read.
    ReadNew,
    /// Whether there are old results is to be found out.
    LookOld { new: CallgrindStats },
    /// The old results are to be read.
    ReadOld { new: CallgrindStats },
    /// The run is over.
    Done { new: CallgrindStats, old: Option<CallgrindStats> },
    /// Callgrind did not end well; with a description of its exit status.
    Failed { status: String },
}

/// What came of the last action.
#[derive(Debug)]
pub enum Event {
    /// It is done.
    Done,
    /// Whether the file exists.
    Exists(bool),
    /// The program ended; with a description of its exit status.
    Exited { success: bool, status: String },
    /// The counts in the file.
    Stats(CallgrindStats),
}

/// What to do next.
#[derive(Debug)]
pub enum Action<'a> {
    /// Create the directory that the file is in, with all directories above.
    CreateParentOf(&'a str),
    /// Find out whether the file exists.
    CheckExists(&'a str),
    /// Copy a file.
    Copy { from: &'a str, to: &'a str },
    /// Run the command, without its output, and wait for its end.
    Execute(&'a CommandLine),
    /// Read the counts in the file.
    ReadStats(&'a str),
    /// Nothing; these are the results.
    Return { new: CallgrindStats, old: Option<CallgrindStats> },
    /// Give up with this message.
    Fail(String),
}

/// Where a run goes from `phase` after `event`. An event that answers no question of the phase
/// changes nothing.
pub open spec fn next_phase(phase: Phase, event: Event) -> Phase {
    match (phase, event) {
        (Phase::Prepare, Event::Done) => Phase::Look,
        (Phase::Look, Event::Exists(exists)) => if exists {
            Phase::Keep
        } else {
            Phase::Execute
        },
        (Phase::Keep, Event::Done) => Phase::Execute,
        (Phase::Execute, Event::Exited { success, status }) => if success {
            Phase::ReadNew
        } else {
            Phase::Failed { status }
        },
        (Phase::ReadNew, Event::Stats(new)) => Phase::LookOld { new },
        (Phase::LookOld { new }, Event::Exists(exists)) => if exists {
            Phase::ReadOld { new }
        } else {
            Phase::Done { new, old: None }
        },
        (Phase::ReadOld { new }, Event::Stats(old)) => Phase::Done { new, old: Some(old) },
        (phase, _) => phase,
    }
}

/// A benchmark run.
#[derive(Debug)]
pub struct BenchRun {
    /// The file that callgrind writes to.
    pub output_file: String,
    /// The file with the results of the run before.
    pub old_file: String,
    /// The command that runs the benchmark.
    pub command: CommandLine,
    /// How far the run has come.
    pub phase: Phase,
}

impl BenchRun {
    /// Whether this is the run of the given benchmark: with its files and its command.
    pub open spec fn is_for(
        self,
        platform: Platform,
        module: Seq<char>,
        arch: Seq<char>,
        executable: Seq<char>,
        index: nat,
        function_name: Seq<char>,
        allow_aslr: bool,
        settings: Settings,
    ) -> bool {
        &&& crate::paths::is_result_file(self.output_file@, platform, module, function_name)
        &&& crate::paths::is_backup_file(self.old_file@, platform, self.output_file@)
        &&& self.command@ == crate::command::bench_command(
            crate::command::launcher(platform, arch, allow_aslr),
            crate::args::arguments_for(settings, self.output_file@, module, function_name),
            executable,
            index,
            module,
            function_name,
        )
    }

    /// The run of the benchmark with the given index, before its first step.
    pub fn new(
        platform: Platform,
        module: &str,
        arch: &str,
        executable: &str,
        index: usize,
        function_name: &str,
        allow_aslr: bool,
        callgrind_args: &CallgrindArgs,
    ) -> (run: Self)
        ensures
            run.phase is Prepare,
            run.is_for(
                platform,
                module@,
                arch@,
                executable@,
                index as nat,
                function_name@,
                allow_aslr,
                callgrind_args@,
            ),
    {
        let output_file = output_file(platform, module, function_name);
        let old_file = old_file(platform, output_file.as_str());
        let command = callgrind_command(
            platform,
            arch,
            allow_aslr,
            callgrind_args,
            output_file.as_str(),
            executable,
            index,
            module,
            function_name,
        );
        BenchRun { output_file, old_file, command, phase: Phase::Prepare }
    }

    /// What to do next.
    pub fn action(&self) -> (action: Action<'_>)
        ensures
            match self.phase {
                Phase::Prepare => action matches Action::CreateParentOf(path) && path@
                    == self.output_file@,
                Phase::Look => action matches Action::CheckExists(path) && path@
                    == self.output_file@,
                Phase::Keep => action matches Action::Copy { from, to } && from@
                    == self.output_file@ && to@ == self.old_file@,
                Phase::Execute => action matches Action::Execute(command) && *command
                    == self.command,
                Phase::ReadNew => action matches Action::ReadStats(path) && path@
                    == self.output_file@,
                Phase::LookOld { .. } => action matches Action::CheckExists(path) && path@
                    == self.old_file@,
                Phase::ReadOld { .. } => action matches Action::ReadStats(path) && path@
                    == self.old_file@,
                Phase::Done { new, old } => action == (Action::Return { new, old }),
                Phase::Failed { status } => action matches Action::Fail(message) && message@
                    == "Failed to run benchmark in callgrind. Exit code: "@ + status@,
            },
    {
        match &self.phase {
            Phase::Prepare => Action::CreateParentOf(self.output_file.as_str()),
            Phase::Look => Action::CheckExists(self.output_file.as_str()),
            Phase::Keep => Action::Copy {
                from: self.output_file.as_str(),
                to: self.old_file.as_str(),
            },
            Phase::Execute => Action::Execute(&self.command),
            Phase::ReadNew => Action::ReadStats(self.output_file.as_str()),
            Phase::LookOld { .. } => Action::CheckExists(self.old_file.as_str()),
            Phase::ReadOld { .. } => Action::ReadStats(self.old_file.as_str()),
            Phase::Done { new, old } => Action::Return { new: *new, old: *old },
            Phase::Failed { status } => {
                let mut message = "Failed to run benchmark in callgrind. Exit code: ".to_owned();
                message.append(status.as_str());
                Action::Fail(message)
            },
        }
    }

    /// Goes on after the last action.
    pub fn advance(&mut self, event: Event)
        ensures
            final(self).phase == next_phase(old(self).phase, event),
            final(self).output_file == old(self).output_file,
            final(self).old_file == old(self).old_file,
            final(self).command == old(self).command,
    {
        let next = match (&self.phase, event) {
            (Phase::Prepare, Event::Done) => Phase::Look,
            (Phase::Look, Event::Exists(exists)) => if exists {
                Phase::Keep
            } else {
                Phase::Execute
            },
            (Phase::Keep, Event::Done) => Phase::Execute,
            (Phase::Execute, Event::Exited { success, status }) => if success {
                Phase::ReadNew
            } else {
                Phase::Failed { status }
            },
            (Phase::ReadNew, Event::Stats(new)) => Phase::LookOld { new },
            (Phase::LookOld { new }, Event::Exists(exists)) => if exists {
                Phase::ReadOld { new: *new }
            } else {
                Phase::Done { new: *new, old: None }
            },
            (Phase::ReadOld { new }, Event::Stats(old)) => Phase::Done {
                new: *new,
                old: Some(old),
            },
            (_, _) => {
                return;
            },
        };
        self.phase = next;
    }
}

/// The runs that a command line asks for: one for each benchmark that it names, in the same order,
/// each with its place among them as its index.
pub fn plan_runs(
    invocation: &Invocation,
    platform: Platform,
    arch: &str,
    allow_aslr: bool,
) -> (runs: Vec<BenchRun>)
    ensures
        runs@.len() == invocation.benches@.len(),
        forall|i: int|
            0 <= i < runs@.len() ==> (#[trigger] runs@[i]).phase is Prepare && runs@[i].is_for(
                platform,
                invocation.args.module@,
                arch@,
                invocation.args.executable@,
                i as nat,
                invocation.benches@[i]@,
                allow_aslr,
                settings_for(invocation.args.options()),
            ),
{
    let callgrind_args = CallgrindArgs::from_args(&invocation.args);
    let mut runs: Vec<BenchRun> = Vec::new();
    for index in 0..invocation.benches.len()
        invariant
            callgrind_args@ == settings_for(invocation.args.options()),
            runs@.len() == index,
            forall|i: int|
                0 <= i < runs@.len() ==> (#[trigger] runs@[i]).phase is Prepare && runs@[i].is_for(
                    platform,
                    invocation.args.module@,
                    arch@,
                    invocation.args.executable@,
                    i as nat,
                    invocation.benches@[i]@,
                    allow_aslr,
                    settings_for(invocation.args.options()),
                ),
    {
        let run = BenchRun::new(
            platform,
            invocation.args.module.as_str(),
            arch,
            invocation.args.executable.as_str(),
            index,
            invocation.benches[index].as_str(),
            allow_aslr,
            &callgrind_args,
        );
        runs.push(run);
    }
    runs
}

/// Whether `event` answers what a run in `phase` waits for.
pub open spec fn answers(phase: Phase, event: Event) -> bool {
    match phase {
        Phase::Prepare | Phase::Keep => event is Done,
        Phase::Look | Phase::LookOld { .. } => event is Exists,
        Phase::Execute => event is Exited,
        Phase::ReadNew | Phase::ReadOld { .. } => event is Stats,
        Phase::Done { .. } | Phase::Failed { .. } => false,
    }
}

/// How many more answers a run in `phase` can wait for.
pub open spec fn answers_left(phase: Phase) -> nat {
    match phase {
        Phase::Prepare => 7,
        Phase::Look => 6,
        Phase::Keep => 5,
        Phase::Execute => 4,
        Phase::ReadNew => 3,
        Phase::LookOld { .. } => 2,
        Phase::ReadOld { .. } => 1,
        Phase::Done { .. } | Phase::Failed { .. } => 0,
    }
}

/// Every run ends: each answer brings it nearer to its end, any other event leaves it as it is,
/// and it waits for an answer until it is over.
pub proof fn lemma_run_ends(phase: Phase, event: Event)
    ensures
        answers(phase, event) ==> answers_left(next_phase(phase, event)) < answers_left(phase),
        !answers(phase, event) ==> next_phase(phase, event) == phase,
        answers_left(phase) == 0 <==> phase is Done || phase is Failed,
{
}

/// Results of an earlier run are never lost: the benchmark is run only once it is known that
/// there are none, or after they were kept.
pub proof fn lemma_results_kept_before_execution(phase: Phase, event: Event)
    requires
        !(phase is Execute),
        next_phase(phase, event) is Execute,
    ensures
        phase is Look && event == Event::Exists(false) || phase is Keep && event is Done,
{
}

/// Results are read only after callgrind ended well.
pub proof fn lemma_results_read_after_success(phase: Phase, event: Event)
    requires
        !(phase is ReadNew),
        next_phase(phase, event) is ReadNew,
    ensures
        phase is Execute,
        event matches Event::Exited { success, .. } && success,
{
}

/// What a run returns is what was read: the new counts from the output file, and the old counts
/// exactly where there is a file with old results.
pub proof fn lemma_results_are_what_was_read(
    new: CallgrindStats,
    old: CallgrindStats,
    exists: bool,
)
    ensures
        ({
            let looking = next_phase(Phase::ReadNew, Event::Stats(new));
            let looked = next_phase(looking, Event::Exists(exists));
            &&& exists ==> next_phase(looked, Event::Stats(old)) == (Phase::Done {
                new,
                old: Some(old),
            })
            &&& !exists ==> looked == (Phase::Done { new, old: None })
        }),
{
}

/// The whole course of a run in which everything goes well: the directory is created, earlier
/// results are kept where there are any, the benchmark is run, and its results are read and then
/// those that were kept.
pub proof fn lemma_course_of_run(
    existed: bool,
    status: String,
    new: CallgrindStats,
    kept: bool,
    old: CallgrindStats,
)
    ensures
        ({
            let looking = next_phase(Phase::Prepare, Event::Done);
            let looked = next_phase(looking, Event::Exists(existed));
            let ready = if existed {
                next_phase(looked, Event::Done)
            } else {
                looked
            };
            let ran = next_phase(ready, Event::Exited { success: true, status });
            let read = next_phase(ran, Event::Stats(new));
            let found = next_phase(read, Event::Exists(kept));
            let end = if kept {
                next_phase(found, Event::Stats(old))
            } else {
                found
            };
            &&& looking is Look
            &&& existed ==> looked is Keep
            &&& ready is Execute
            &&& ran is ReadNew
            &&& read == (Phase::LookOld { new })
            &&& kept ==> found == (Phase::ReadOld { new })
            &&& end == (Phase::Done {
                new,
                old: if kept {
                    Some(old)
                } else {
                    None
                },
            })
        }),
{
}

/// A run fails exactly where callgrind does not end well, and keeps what is known of its end.
pub proof fn lemma_run_fails_with_callgrind(phase: Phase, event: Event, status: String)
    requires
        !(phase is Failed),
    ensures
        next_phase(phase, event) == (Phase::Failed { status }) <==> phase is Execute && event == (
        Event::Exited { success: false, status }),
        next_phase(phase, event) is Failed ==> event is Exited,
{
}

/// A run is over once it is done or failed: nothing that happens afterwards changes its results.
pub proof fn lemma_results_are_final(phase: Phase, event: Event)
    requires
        phase is Done || phase is Failed,
    ensures
        next_phase(phase, event) == phase,
{
}

/// The run of a benchmark has the result file of that benchmark, and the file for the old results
/// that goes with it. Callgrind is told to write to that result file, whatever the options are.
pub proof fn lemma_run_writes_where_it_reads(
    run: BenchRun,
    platform: Platform,
    module: Seq<char>,
    arch: Seq<char>,
    executable: Seq<char>,
    index: u64,
    function_name: Seq<char>,
    allow_aslr: bool,
    options: Seq<Seq<char>>,
)
    requires
        run.is_for(
            platform,
            module,
            arch,
            executable,
            index as nat,
            function_name,
            allow_aslr,
            settings_for(options),
        ),
    ensures
        platform != Platform::NonUnix ==> run.output_file@ == crate::paths::result_file(
            module,
            function_name,
        ),
        platform != Platform::NonUnix ==> run.old_file@ == crate::paths::backup_file(
            run.output_file@,
        ),
        crate::paths::is_result_file(run.output_file@, platform, module, function_name),
        crate::paths::is_backup_file(run.old_file@, platform, run.output_file@),
        ({
            let args = run.command@.args;
            let n = args.len() as int;
            &&& n >= 14
            &&& args[n - 6] == "--callgrind-out-file="@ + run.output_file@
            &&& args[n - 4] == executable
            &&& args[n - 3] == "--iai-run"@
            &&& crate::text::number(args[n - 2]) == Some(index)
            &&& args[n - 1] == module + "::"@ + function_name
        }),
{
    let launcher = crate::command::launcher(platform, arch, allow_aslr);
    let arguments = crate::args::arguments_for(
        settings_for(options),
        run.output_file@,
        module,
        function_name,
    );
    crate::command::lemma_bench_command_ends_with_benchmark(
        launcher,
        arguments,
        executable,
        index,
        module,
        function_name,
    );
    crate::command::lemma_options_reach_callgrind(
        launcher,
        options,
        run.output_file@,
        executable,
        index as nat,
        module,
        function_name,
    );
}

/// The run of a benchmark with any settings has the whole command: how valgrind is started on the
/// platform, the tool, the settings one by one, and the benchmark.
pub proof fn lemma_run_has_whole_command(
    run: BenchRun,
    platform: Platform,
    module: Seq<char>,
    arch: Seq<char>,
    executable: Seq<char>,
    index: nat,
    function_name: Seq<char>,
    allow_aslr: bool,
    settings: Settings,
)
    requires
        run.is_for(
            platform,
            module,
            arch,
            executable,
            index,
            function_name,
            allow_aslr,
            settings,
        ),
    ensures
        ({
            let start = crate::command::launcher(platform, arch, allow_aslr);
            let arguments = crate::args::arguments_for(
                settings,
                run.output_file@,
                module,
                function_name,
            );
            let n = start.args.len() as int;
            let args = run.command@.args;
            &&& run.command@.program == start.program
            &&& args.len() == n + arguments.len() + 5
            &&& forall|i: int| 0 <= i < n ==> args[i] == #[trigger] start.args[i]
            &&& args[n] == "--tool=callgrind"@
            &&& forall|i: int|
                0 <= i < arguments.len() ==> args[n + 1 + i] == #[trigger] arguments[i]
        }),
{
    let start = crate::command::launcher(platform, arch, allow_aslr);
    let arguments = crate::args::arguments_for(
        settings,
        run.output_file@,
        module,
        function_name,
    );
    crate::command::lemma_every_argument_in_its_place(
        start,
        arguments,
        executable,
        index,
        module,
        function_name,
    );
}

/// What a run was not waiting for changes nothing: it waits for a directory to be created and for
/// results to be kept, for whether a file exists, for the end of the benchmark and for the counts
/// in a file, each at its own time.
pub proof fn lemma_unasked_events_change_nothing(phase: Phase, event: Event)
    ensures
        (phase is Prepare || phase is Keep) && !(event is Done) ==> next_phase(phase, event)
            == phase,
        (phase is Look || phase is LookOld) && !(event is Exists) ==> next_phase(phase, event)
            == phase,
        phase is Execute && !(event is Exited) ==> next_phase(phase, event) == phase,
        (phase is ReadNew || phase is ReadOld) && !(event is Stats) ==> next_phase(phase, event)
            == phase,
{
}

} // verus!
