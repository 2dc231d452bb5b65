//! The programs that the runner starts.
use crate::args::CallgrindArgs;
use crate::text::{texts, to_decimal, trim};
use vstd::prelude::*;

verus! {

/// The texts of a command line.
pub struct Command {
    pub program: Seq<char>,
    pub args: Seq<Seq<char>>,
}

/// A program and its arguments.
#[derive(Debug)]
pub struct CommandLine {
    pub program: String,
    pub args: Vec<String>,
}

impl View for CommandLine {
    type V = Command;

    open spec fn view(&self) -> Command {
        Command { program: self.program@, args: texts(self.args@) }
    }
}

impl CommandLine {
    /// A program without arguments.
    fn program(name: &str) -> (command: Self)
        ensures
            command@ == (Command { program: name@, args: Seq::empty() }),
    {
        let command = CommandLine { program: name.to_owned(), args: Vec::new() };
        assert(command@.args =~= Seq::empty());
        command
    }

    /// Adds an argument.
    fn arg(&mut self, argument: &str)
        ensures
            final(self)@ == (Command {
                program: old(self)@.program,
                args: old(self)@.args.push(argument@),
            }),
    {
        let ghost before = self@;
        self.args.push(argument.to_owned());
        assert(self@.args =~= before.args.push(argument@));
    }
}

/// The platforms that differ in how a program runs without address space layout randomization, or
/// in how paths are put together.
#[derive(Clone, Copy, Debug, PartialEq, Eq, Structural)]
pub enum Platform {
    Linux,
    FreeBsd,
    /// Another platform with paths as on Unix. The randomization cannot be switched off.
    Other,
    /// A platform with other paths. The randomization cannot be switched off.
    NonUnix,
}

/// What became of a program that was started.
#[derive(Debug)]
pub enum Outcome {
    /// It could not be started; with a description of the error.
    NotStarted { error: String },
    /// It ran; with its exit status and a description of that.
    Exited { success: bool, status: String },
}

/// The command that asks valgrind for its version.
pub fn valgrind_version() -> (command: CommandLine)
    ensures
        command@ == (Command {
            program: "valgrind"@,
            args: seq!["--tool=callgrind"@, "--version"@],
        }),
{
    let mut command = CommandLine::program("valgrind");
    command.arg("--tool=callgrind");
    command.arg("--version");
    assert(command@.args =~= seq!["--tool=callgrind"@, "--version"@]);
    command
}

/// What to say where valgrind is not at hand.
pub open spec fn valgrind_complaint(outcome: Outcome) -> Option<Seq<char>> {
    match outcome {
        Outcome::NotStarted { error } => Some(
            "Unexpected error while launching valgrind. Error: "@ + error@,
        ),
        Outcome::Exited { success, status } => if success {
            None
        } else {
            Some(
                "Failed to launch valgrind. Error: "@ + status@
                    + ". Please ensure that valgrind is installed and on the $PATH."@,
            )
        },
    }
}

/// Whether asking valgrind for its version went well; where not, with a complaint.
pub fn check_valgrind(outcome: &Outcome) -> (result: Result<(), String>)
    ensures
        match valgrind_complaint(*outcome) {
            None => result == Ok::<(), String>(()),
            Some(complaint) => result matches Err(message) && message@ == complaint,
        },
        result is Ok <==> (outcome matches Outcome::Exited { success, .. } && *success),
{
    match outcome {
        Outcome::NotStarted { error } => {
            let mut message = "Unexpected error while launching valgrind. Error: ".to_owned();
            message.append(error.as_str());
            Err(message)
        },
        Outcome::Exited { success, status } => {
            if *success {
                return Ok(());
            }
            let mut message = "Failed to launch valgrind. Error: ".to_owned();
            message.append(status.as_str());
            message.append(". Please ensure that valgrind is installed and on the $PATH.");
            Err(message)
        },
    }
}

/// The command that asks for the architecture of the processor.
pub fn uname() -> (command: CommandLine)
    ensures
        command@ == (Command { program: "uname"@, args: seq!["-m"@] }),
{
    let mut command = CommandLine::program("uname");
    command.arg("-m");
    assert(command@.args =~= seq!["-m"@]);
    command
}

/// `String::from_utf8`, which checks that bytes are UTF-8: the bytes become text exactly where
/// they are, and the text is what the bytes encode.
#[verifier::external_body]
fn text_from_utf8(bytes: Vec<u8>) -> (text: Option<String>)
    ensures
        text is Some <==> vstd::utf8::valid_utf8(bytes@),
        text matches Some(found) ==> found@ == vstd::utf8::decode_utf8(bytes@),
{
    String::from_utf8(bytes).ok()
}

/// The architecture that `uname` wrote, or nothing where what it wrote is not UTF-8.
pub fn get_arch(stdout: Vec<u8>) -> (arch: Option<String>)
    ensures
        arch is Some <==> vstd::utf8::valid_utf8(stdout@),
        arch matches Some(found) ==> found@ == crate::text::trimmed(
            vstd::utf8::decode_utf8(stdout@),
        ),
{
    match text_from_utf8(stdout) {
        Some(text) => Some(trim(text.as_str())),
        None => None,
    }
}

/// The command that starts valgrind.
pub fn basic_valgrind() -> (command: CommandLine)
    ensures
        command@ == (Command { program: "valgrind"@, args: Seq::empty() }),
{
    CommandLine::program("valgrind")
}

/// The command that starts valgrind without address space layout randomization, which could add
/// noise to the results, where the platform allows that.
pub open spec fn without_aslr(platform: Platform, arch: Seq<char>) -> Command {
    match platform {
        Platform::Linux => Command { program: "setarch"@, args: seq![arch, "-R"@, "valgrind"@] },
        Platform::FreeBsd => Command {
            program: "proccontrol"@,
            args: seq!["-m"@, "aslr"@, "-s"@, "disable"@, "valgrind"@],
        },
        Platform::Other | Platform::NonUnix => Command { program: "valgrind"@, args: Seq::empty() },
    }
}

/// The command that starts valgrind, without address space layout randomization where possible.
pub fn valgrind_without_aslr(platform: Platform, arch: &str) -> (command: CommandLine)
    ensures
        command@ == without_aslr(platform, arch@),
{
    match platform {
        Platform::Linux => {
            let mut command = CommandLine::program("setarch");
            command.arg(arch);
            command.arg("-R");
            command.arg("valgrind");
            assert(command@.args =~= seq![arch@, "-R"@, "valgrind"@]);
            command
        },
        Platform::FreeBsd => {
            let mut command = CommandLine::program("proccontrol");
            command.arg("-m");
            command.arg("aslr");
            command.arg("-s");
            command.arg("disable");
            command.arg("valgrind");
            assert(command@.args =~= seq!["-m"@, "aslr"@, "-s"@, "disable"@, "valgrind"@]);
            command
        },
        Platform::Other | Platform::NonUnix => basic_valgrind(),
    }
}

/// The command in front of the arguments for callgrind.
pub open spec fn launcher(platform: Platform, arch: Seq<char>, allow_aslr: bool) -> Command {
    if allow_aslr {
        Command { program: "valgrind"@, args: Seq::empty() }
    } else {
        without_aslr(platform, arch)
    }
}

/// The command that runs the benchmark with the given index under callgrind. The last argument is
/// there for the people who look at the output of `callgrind_annotate`.
pub open spec fn bench_command(
    launcher: Command,
    callgrind_args: Seq<Seq<char>>,
    executable: Seq<char>,
    index: nat,
    module: Seq<char>,
    function_name: Seq<char>,
) -> Command {
    Command {
        program: launcher.program,
        args: launcher.args + seq!["--tool=callgrind"@] + callgrind_args + seq![
            executable,
            "--iai-run"@,
            crate::text::decimal(index),
            module + "::"@ + function_name,
        ],
    }
}

/// The command that runs a benchmark and writes its results to `output_file`.
pub fn callgrind_command(
    platform: Platform,
    arch: &str,
    allow_aslr: bool,
    callgrind_args: &CallgrindArgs,
    output_file: &str,
    executable: &str,
    index: usize,
    module: &str,
    function_name: &str,
) -> (command: CommandLine)
    ensures
        command@ == bench_command(
            launcher(platform, arch@, allow_aslr),
            crate::args::arguments_for(callgrind_args@, output_file@, module@, function_name@),
            executable@,
            index as nat,
            module@,
            function_name@,
        ),
        command.args@.last()@ == module@ + "::"@ + function_name@,
        allow_aslr ==> command.program@ == "valgrind"@,
{
    let mut command = if allow_aslr {
        basic_valgrind()
    } else {
        valgrind_without_aslr(platform, arch)
    };
    let ghost start = command@;
    let arguments = callgrind_args.parse_with(output_file, module, function_name);
    let ghost all = texts(arguments@);
    command.arg("--tool=callgrind");
    let ghost before = command@.args;
    assert(before =~= start.args + seq!["--tool=callgrind"@]);
    for i in 0..arguments.len()
        invariant
            all == texts(arguments@),
            command@.program == start.program,
            command@.args == before + all.take(i as int),
    {
        command.arg(arguments[i].as_str());
        assert(all.take(i + 1) =~= all.take(i as int).push(all[i as int]));
    }
    assert(all.take(all.len() as int) =~= all);
    let mut name = module.to_owned();
    name.append("::");
    name.append(function_name);
    command.arg(executable);
    command.arg("--iai-run");
    command.arg(to_decimal(index as u64).as_str());
    command.arg(name.as_str());
    assert(command@.args =~= before + all + seq![
        executable@,
        "--iai-run"@,
        crate::text::decimal(index as nat),
        module@ + "::"@ + function_name@,
    ]);
    assert(command@.args[command.args@.len() - 1] == command.args@.last()@);
    command
}

/// Valgrind is what gets started, either as the program itself or as the last argument of the
/// program that switches the randomization off.
pub proof fn lemma_launcher_starts_valgrind(platform: Platform, arch: Seq<char>, allow_aslr: bool)
    ensures
        ({
            let command = launcher(platform, arch, allow_aslr);
            ||| command.program == "valgrind"@ && command.args.len() == 0
            ||| command.args.len() > 0 && command.args.last() == "valgrind"@
        }),
{
}

/// Callgrind is what valgrind gets to run: in the whole command the choice of the tool follows
/// directly after the name of valgrind.
pub proof fn lemma_tool_follows_valgrind(
    platform: Platform,
    arch: Seq<char>,
    allow_aslr: bool,
    callgrind_args: Seq<Seq<char>>,
    executable: Seq<char>,
    index: nat,
    module: Seq<char>,
    function_name: Seq<char>,
)
    ensures
        ({
            let start = launcher(platform, arch, allow_aslr);
            let command = bench_command(
                start,
                callgrind_args,
                executable,
                index,
                module,
                function_name,
            );
            let n = start.args.len() as int;
            &&& command.args[n] == "--tool=callgrind"@
            &&& n == 0 ==> command.program == "valgrind"@
            &&& n > 0 ==> command.args[n - 1] == "valgrind"@
        }),
{
    lemma_launcher_starts_valgrind(platform, arch, allow_aslr);
}

/// The last four arguments tell the program which benchmark to run, by its index.
pub proof fn lemma_bench_command_ends_with_benchmark(
    launcher: Command,
    callgrind_args: Seq<Seq<char>>,
    executable: Seq<char>,
    index: u64,
    module: Seq<char>,
    function_name: Seq<char>,
)
    ensures
        ({
            let args = bench_command(
                launcher,
                callgrind_args,
                executable,
                index as nat,
                module,
                function_name,
            ).args;
            let n = args.len() as int;
            &&& n == launcher.args.len() + callgrind_args.len() + 5
            &&& args[n - 4] == executable
            &&& args[n - 3] == "--iai-run"@
            &&& crate::text::number(args[n - 2]) == Some(index)
            &&& args[n - 1] == module + "::"@ + function_name
        }),
{
    crate::text::lemma_number_reads_decimal(index);
}

/// The command that runs a benchmark starts as the launcher does and goes on with the tool, then
/// with every argument for callgrind, each as it is and in its place, and then with the four that
/// tell the program which benchmark to run. There is nothing else in it.
pub proof fn lemma_every_argument_in_its_place(
    launcher: Command,
    callgrind_args: Seq<Seq<char>>,
    executable: Seq<char>,
    index: nat,
    module: Seq<char>,
    function_name: Seq<char>,
)
    ensures
        ({
            let command = bench_command(
                launcher,
                callgrind_args,
                executable,
                index,
                module,
                function_name,
            );
            let n = launcher.args.len() as int;
            let m = callgrind_args.len() as int;
            &&& command.program == launcher.program
            &&& command.args.len() == n + m + 5
            &&& forall|i: int| 0 <= i < n ==> command.args[i] == #[trigger] launcher.args[i]
            &&& command.args[n] == "--tool=callgrind"@
            &&& forall|i: int|
                0 <= i < m ==> command.args[n + 1 + i] == #[trigger] callgrind_args[i]
            &&& command.args[n + 1 + m] == executable
            &&& command.args[n + 2 + m] == "--iai-run"@
            &&& command.args[n + 3 + m] == crate::text::decimal(index)
            &&& command.args[n + 4 + m] == module + "::"@ + function_name
        }),
{
}

/// Every option about nothing in particular reaches callgrind: whatever options there are, those
/// stand in the command as they were given, in their order, between the fixed settings and the
/// output file.
pub proof fn lemma_options_reach_callgrind(
    launcher: Command,
    options: Seq<Seq<char>>,
    output_file: Seq<char>,
    executable: Seq<char>,
    index: nat,
    module: Seq<char>,
    function_name: Seq<char>,
)
    ensures
        ({
            let command = bench_command(
                launcher,
                crate::args::arguments_for(
                    crate::args::settings_for(options),
                    output_file,
                    module,
                    function_name,
                ),
                executable,
                index,
                module,
                function_name,
            );
            let n = launcher.args.len() as int;
            let plain = options.filter(
                |option: Seq<char>| crate::args::about_nothing_in_particular(option),
            );
            let m = plain.len() as int;
            &&& command.args.len() == n + m + 14
            &&& forall|i: int| 0 <= i < m ==> command.args[n + 8 + i] == #[trigger] plain[i]
            &&& command.args[n + 8 + m] == "--callgrind-out-file="@ + output_file
        }),
{
    let arguments = crate::args::arguments_for(
        crate::args::settings_for(options),
        output_file,
        module,
        function_name,
    );
    let other = crate::args::settings_for(options).other;
    lemma_every_argument_in_its_place(
        launcher,
        arguments,
        executable,
        index,
        module,
        function_name,
    );
    crate::args::lemma_arguments_in_order(
        crate::args::settings_for(options),
        output_file,
        module,
        function_name,
    );
    lemma_plain_options_are_the_others(options);
    let args = bench_command(launcher, arguments, executable, index, module, function_name).args;
    let n = launcher.args.len() as int;
    assert forall|i: int| 0 <= i < other.len() implies args[n + 8 + i] == #[trigger] other[i] by {
        assert(arguments[7 + i] == other[i]);
        assert(args[n + 1 + (7 + i)] == arguments[7 + i]);
    }
    let last = 7 + other.len() as int;
    assert(args[n + 1 + last] == arguments[last]);
}

proof fn lemma_plain_options_are_the_others(options: Seq<Seq<char>>)
    ensures
        crate::args::settings_for(options).other == options.filter(
            |option: Seq<char>| crate::args::about_nothing_in_particular(option),
        ),
    decreases options.len(),
{
    reveal(Seq::filter);
    if options.len() == 0 {
        crate::args::lemma_default_settings();
        assert(options =~= Seq::empty());
        assert(crate::args::settings_for(options).other =~= Seq::empty());
    } else {
        let front = options.drop_last();
        lemma_plain_options_are_the_others(front);
        crate::args::lemma_option_changes_its_setting(front, options.last());
        assert(front.push(options.last()) =~= options);
    }
}

/// How valgrind is started on each platform: as it is where the randomization is allowed or
/// cannot be switched off, and otherwise through the program of the platform that switches it off,
/// which on Linux is told the architecture.
pub proof fn lemma_launcher_of_platform(platform: Platform, arch: Seq<char>, allow_aslr: bool)
    ensures
        ({
            let command = launcher(platform, arch, allow_aslr);
            if allow_aslr || platform == Platform::Other || platform == Platform::NonUnix {
                command.program == "valgrind"@ && command.args.len() == 0
            } else if platform == Platform::Linux {
                &&& command.program == "setarch"@
                &&& command.args.len() == 3
                &&& command.args[0] == arch
                &&& command.args[1] == "-R"@
                &&& command.args[2] == "valgrind"@
            } else {
                &&& command.program == "proccontrol"@
                &&& command.args.len() == 5
                &&& command.args[0] == "-m"@
                &&& command.args[1] == "aslr"@
                &&& command.args[2] == "-s"@
                &&& command.args[3] == "disable"@
                &&& command.args[4] == "valgrind"@
            }
        }),
{
}

/// There is a complaint exactly where valgrind could not be started or did not end well, and it
/// ends or goes on with what was found out about that.
pub proof fn lemma_complaint_names_reason(error: String, status: String)
    ensures
        valgrind_complaint(Outcome::NotStarted { error }) == Some(
            "Unexpected error while launching valgrind. Error: "@ + error@,
        ),
        valgrind_complaint(Outcome::Exited { success: true, status }) is None,
        valgrind_complaint(Outcome::Exited { success: false, status }) == Some(
            "Failed to launch valgrind. Error: "@ + status@
                + ". Please ensure that valgrind is installed and on the $PATH."@,
        ),
{
}

/// The texts of a command line are those of its strings, one for one.
pub proof fn lemma_command_is_strings(command: CommandLine)
    ensures
        command@.program == command.program@,
        command@.args.len() == command.args@.len(),
        forall|i: int|
            0 <= i < command.args@.len() ==> #[trigger] command@.args[i] == command.args@[i]@,
{
}

} // verus!
