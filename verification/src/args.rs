//! The command line of the runner and the arguments for callgrind.
use crate::text::{chars_of, starts_with, texts};
use vstd::prelude::*;

verus! {

/// What the runner was asked to do.
#[derive(Debug)]
pub struct Args {
    /// The program with the benchmarks.
    pub executable: String,
    /// The path of the module that holds the benchmarks.
    pub module: String,
    /// Options for callgrind.
    pub callgrind_args: Option<Vec<String>>,
}

impl Args {
    /// The options for callgrind, in order.
    pub open spec fn options(self) -> Seq<Seq<char>> {
        match self.callgrind_args {
            Some(options) => texts(options@),
            None => Seq::empty(),
        }
    }

    /// Puts the parts together.
    pub fn new(executable: &str, module: &str, callgrind_args: Vec<String>) -> (args: Self)
        ensures
            args.executable@ == executable@,
            args.module@ == module@,
            args.callgrind_args == Some(callgrind_args),
    {
        Self {
            executable: executable.to_owned(),
            module: module.to_owned(),
            callgrind_args: Some(callgrind_args),
        }
    }
}

/// What an option for callgrind is about.
#[derive(Clone, Copy, Debug, PartialEq, Eq, Structural)]
pub enum OptionKind {
    /// The size of the first level instruction cache.
    I1,
    /// The size of the first level data cache.
    D1,
    /// The size of the last level cache.
    LL,
    /// Whether to simulate the caches. Such an option is ignored.
    CacheSim,
    /// Whether to collect events from the start.
    CollectAtstart,
    /// Whether to compress strings in the output.
    CompressStrings,
    /// Whether to compress positions in the output.
    CompressPos,
    /// The function that collects events. Such an option takes the place of the benchmark function
    /// and may produce wrong results.
    ToggleCollect,
    /// The file to write to. Such an option is ignored.
    CallgrindOutFile,
    /// Anything else.
    Other,
}

/// What an option is about: the text up to its `=` decides.
pub open spec fn option_kind(option: Seq<char>) -> OptionKind {
    if "--I1="@.is_prefix_of(option) {
        OptionKind::I1
    } else if "--D1="@.is_prefix_of(option) {
        OptionKind::D1
    } else if "--LL="@.is_prefix_of(option) {
        OptionKind::LL
    } else if "--cache-sim="@.is_prefix_of(option) {
        OptionKind::CacheSim
    } else if "--collect-atstart="@.is_prefix_of(option) {
        OptionKind::CollectAtstart
    } else if "--compress-strings="@.is_prefix_of(option) {
        OptionKind::CompressStrings
    } else if "--compress-pos="@.is_prefix_of(option) {
        OptionKind::CompressPos
    } else if "--toggle-collect="@.is_prefix_of(option) {
        OptionKind::ToggleCollect
    } else if "--callgrind-out-file="@.is_prefix_of(option) {
        OptionKind::CallgrindOutFile
    } else {
        OptionKind::Other
    }
}

/// Says what an option is about.
pub fn classify(option: &str) -> (kind: OptionKind)
    ensures
        kind == option_kind(option@),
{
    let chars = chars_of(option);
    if starts_with(&chars, "--I1=") {
        OptionKind::I1
    } else if starts_with(&chars, "--D1=") {
        OptionKind::D1
    } else if starts_with(&chars, "--LL=") {
        OptionKind::LL
    } else if starts_with(&chars, "--cache-sim=") {
        OptionKind::CacheSim
    } else if starts_with(&chars, "--collect-atstart=") {
        OptionKind::CollectAtstart
    } else if starts_with(&chars, "--compress-strings=") {
        OptionKind::CompressStrings
    } else if starts_with(&chars, "--compress-pos=") {
        OptionKind::CompressPos
    } else if starts_with(&chars, "--toggle-collect=") {
        OptionKind::ToggleCollect
    } else if starts_with(&chars, "--callgrind-out-file=") {
        OptionKind::CallgrindOutFile
    } else {
        OptionKind::Other
    }
}

/// What to warn about an option: that it is ignored, or that it takes the place of the benchmark
/// function.
pub open spec fn option_warning(option: Seq<char>) -> Option<Seq<char>> {
    match option_kind(option) {
        OptionKind::CacheSim | OptionKind::CallgrindOutFile => Some(
            "Ignoring callgrind argument: '"@ + option + "'"@,
        ),
        OptionKind::ToggleCollect => Some(
            "The callgrind argument '"@ + option
                + "' will overwrite the default setting and may produce wrong results."@,
        ),
        _ => None,
    }
}

/// The warning about an option, if there is one.
pub fn warning(option: &str) -> (message: Option<String>)
    ensures
        match option_warning(option@) {
            Some(text) => message matches Some(found) && found@ == text,
            None => message is None,
        },
{
    match classify(option) {
        OptionKind::CacheSim | OptionKind::CallgrindOutFile => {
            let mut message = "Ignoring callgrind argument: '".to_owned();
            message.append(option);
            message.append("'");
            Some(message)
        },
        OptionKind::ToggleCollect => {
            let mut message = "The callgrind argument '".to_owned();
            message.append(option);
            message.append(
                "' will overwrite the default setting and may produce wrong results.",
            );
            Some(message)
        },
        _ => None,
    }
}

/// The last of `options` that is about `kind`.
pub open spec fn last_of(kind: OptionKind, options: Seq<Seq<char>>) -> Option<Seq<char>>
    decreases options.len(),
{
    if options.len() == 0 {
        None
    } else if option_kind(options.last()) == kind {
        Some(options.last())
    } else {
        last_of(kind, options.drop_last())
    }
}

/// The last of `options` that is about `kind`, or else `default`.
pub open spec fn last_or(
    kind: OptionKind,
    options: Seq<Seq<char>>,
    default: Seq<char>,
) -> Seq<char> {
    match last_of(kind, options) {
        Some(option) => option,
        None => default,
    }
}

/// The options that are about nothing in particular, in order.
pub open spec fn other_options(options: Seq<Seq<char>>) -> Seq<Seq<char>> {
    options.filter(|option: Seq<char>| option_kind(option) == OptionKind::Other)
}

/// The texts of a set of arguments for callgrind.
pub struct Settings {
    pub i1: Seq<char>,
    pub d1: Seq<char>,
    pub ll: Seq<char>,
    pub cache_sim: Seq<char>,
    pub collect_atstart: Seq<char>,
    pub other: Seq<Seq<char>>,
    pub toggle_collect: Option<Seq<char>>,
    pub compress_strings: Seq<char>,
    pub compress_pos: Seq<char>,
    pub callgrind_out_file: Option<Seq<char>>,
}

/// The settings for the given options: of the options about one thing the last one counts, and
/// where there is none, a fixed default. Options about the cache simulation or the output file
/// are ignored; options about nothing in particular are kept.
pub open spec fn settings_for(options: Seq<Seq<char>>) -> Settings {
    Settings {
        i1: last_or(OptionKind::I1, options, "--I1=32768,8,64"@),
        d1: last_or(OptionKind::D1, options, "--D1=32768,8,64"@),
        ll: last_or(OptionKind::LL, options, "--LL=8388608,16,64"@),
        cache_sim: "--cache-sim=yes"@,
        collect_atstart: last_or(
            OptionKind::CollectAtstart,
            options,
            "--collect-atstart=no"@,
        ),
        other: other_options(options),
        toggle_collect: last_of(OptionKind::ToggleCollect, options),
        compress_strings: last_or(
            OptionKind::CompressStrings,
            options,
            "--compress-strings=no"@,
        ),
        compress_pos: last_or(OptionKind::CompressPos, options, "--compress-pos=no"@),
        callgrind_out_file: None,
    }
}

/// The arguments for callgrind that `settings` stand for.
pub open spec fn arguments_for(
    settings: Settings,
    output_file: Seq<char>,
    module: Seq<char>,
    function_name: Seq<char>,
) -> Seq<Seq<char>> {
    let out_file = match settings.callgrind_out_file {
        Some(argument) => argument,
        None => "--callgrind-out-file="@ + output_file,
    };
    let toggle_collect = match settings.toggle_collect {
        Some(argument) => argument,
        None => "--toggle-collect=*"@ + module + "::"@ + function_name,
    };
    seq![
        settings.i1,
        settings.d1,
        settings.ll,
        settings.cache_sim,
        settings.collect_atstart,
        settings.compress_strings,
        settings.compress_pos,
    ] + settings.other + seq![out_file, toggle_collect]
}

/// The text of an optional string.
pub open spec fn optional_text(string: Option<String>) -> Option<Seq<char>> {
    match string {
        Some(string) => Some(string@),
        None => None,
    }
}

/// The arguments that callgrind is started with. The exact cache sizes matter less than having
/// fixed sizes: callgrind would otherwise take them from the processor and make runs on different
/// machines even harder to compare.
#[derive(Debug)]
pub struct CallgrindArgs {
    pub i1: String,
    pub d1: String,
    pub ll: String,
    pub cache_sim: String,
    pub collect_atstart: String,
    pub other: Vec<String>,
    pub toggle_collect: Option<String>,
    pub compress_strings: String,
    pub compress_pos: String,
    pub callgrind_out_file: Option<String>,
}

impl View for CallgrindArgs {
    type V = Settings;

    open spec fn view(&self) -> Settings {
        Settings {
            i1: self.i1@,
            d1: self.d1@,
            ll: self.ll@,
            cache_sim: self.cache_sim@,
            collect_atstart: self.collect_atstart@,
            other: texts(self.other@),
            toggle_collect: optional_text(self.toggle_collect),
            compress_strings: self.compress_strings@,
            compress_pos: self.compress_pos@,
            callgrind_out_file: optional_text(self.callgrind_out_file),
        }
    }
}

impl Default for CallgrindArgs {
    fn default() -> (args: Self)
        ensures
            args@ == settings_for(Seq::empty()),
    {
        reveal(Seq::filter);
        let args = Self {
            i1: "--I1=32768,8,64".to_owned(),
            d1: "--D1=32768,8,64".to_owned(),
            ll: "--LL=8388608,16,64".to_owned(),
            cache_sim: "--cache-sim=yes".to_owned(),
            collect_atstart: "--collect-atstart=no".to_owned(),
            toggle_collect: None,
            compress_pos: "--compress-pos=no".to_owned(),
            compress_strings: "--compress-strings=no".to_owned(),
            callgrind_out_file: None,
            other: Vec::new(),
        };
        assert(args@.other =~= other_options(Seq::empty()));
        args
    }
}

impl CallgrindArgs {
    /// The arguments for the options in `args`.
    pub fn from_args(args: &Args) -> (callgrind_args: Self)
        ensures
            callgrind_args@ == settings_for(args.options()),
    {
        let mut settings = Self::default();
        let options = match &args.callgrind_args {
            Some(options) => options,
            None => {
                return settings;
            },
        };
        let ghost all = args.options();
        assert(all.take(0) =~= Seq::empty());
        for i in 0..options.len()
            invariant
                all == texts(options@),
                settings@ == settings_for(all.take(i as int)),
        {
            let option = &options[i];
            proof {
                reveal(Seq::filter);
                assert(all.take(i + 1).last() == option@);
                assert(all.take(i + 1).drop_last() =~= all.take(i as int));
            }
            let ghost before = settings.other@;
            match classify(option.as_str()) {
                OptionKind::I1 => {
                    settings.i1 = option.clone();
                },
                OptionKind::D1 => {
                    settings.d1 = option.clone();
                },
                OptionKind::LL => {
                    settings.ll = option.clone();
                },
                OptionKind::CollectAtstart => {
                    settings.collect_atstart = option.clone();
                },
                OptionKind::CompressStrings => {
                    settings.compress_strings = option.clone();
                },
                OptionKind::CompressPos => {
                    settings.compress_pos = option.clone();
                },
                OptionKind::ToggleCollect => {
                    settings.toggle_collect = Some(option.clone());
                },
                OptionKind::CacheSim | OptionKind::CallgrindOutFile => {},
                OptionKind::Other => {
                    settings.other.push(option.clone());
                    assert(texts(settings.other@) =~= texts(before).push(option@));
                },
            }
        }
        assert(all.take(all.len() as int) =~= all);
        settings
    }

    /// The full list of arguments for one benchmark.
    pub fn parse_with(&self, output_file: &str, module: &str, function_name: &str) -> (arguments:
        Vec<String>)
        ensures
            texts(arguments@) == arguments_for(self@, output_file@, module@, function_name@),
    {
        let mut arguments: Vec<String> = Vec::new();
        arguments.push(self.i1.clone());
        arguments.push(self.d1.clone());
        arguments.push(self.ll.clone());
        arguments.push(self.cache_sim.clone());
        arguments.push(self.collect_atstart.clone());
        arguments.push(self.compress_strings.clone());
        arguments.push(self.compress_pos.clone());
        let ghost fixed = texts(arguments@);
        assert(fixed =~= seq![
            self.i1@,
            self.d1@,
            self.ll@,
            self.cache_sim@,
            self.collect_atstart@,
            self.compress_strings@,
            self.compress_pos@,
        ]);
        for i in 0..self.other.len()
            invariant
                texts(arguments@) == fixed + texts(self.other@).take(i as int),
        {
            let ghost before = texts(arguments@);
            arguments.push(self.other[i].clone());
            assert(texts(arguments@) =~= before.push(self.other@[i as int]@));
            assert(texts(self.other@).take(i + 1) =~= texts(self.other@).take(i as int).push(
                self.other@[i as int]@,
            ));
        }
        assert(texts(self.other@).take(self.other@.len() as int) =~= texts(self.other@));
        let ghost listed = texts(arguments@);
        let out_file = match &self.callgrind_out_file {
            Some(argument) => argument.clone(),
            None => {
                let mut argument = "--callgrind-out-file=".to_owned();
                argument.append(output_file);
                argument
            },
        };
        arguments.push(out_file);
        let toggle_collect = match &self.toggle_collect {
            Some(argument) => argument.clone(),
            None => {
                let mut argument = "--toggle-collect=*".to_owned();
                argument.append(module);
                argument.append("::");
                argument.append(function_name);
                argument
            },
        };
        arguments.push(toggle_collect);
        assert(texts(arguments@) =~= listed + seq![out_file@, toggle_collect@]);
        assert(texts(arguments@) =~= arguments_for(
            self@,
            output_file@,
            module@,
            function_name@,
        ));
        arguments
    }
}

/// The text up to the `=` decides what an option is about: no such text is the start of another.
pub proof fn lemma_prefix_decides_kind(option: Seq<char>)
    ensures
        option_kind(option) == OptionKind::I1 <==> "--I1="@.is_prefix_of(option),
        option_kind(option) == OptionKind::D1 <==> "--D1="@.is_prefix_of(option),
        option_kind(option) == OptionKind::LL <==> "--LL="@.is_prefix_of(option),
        option_kind(option) == OptionKind::CacheSim <==> "--cache-sim="@.is_prefix_of(option),
        option_kind(option) == OptionKind::CollectAtstart <==> "--collect-atstart="@.is_prefix_of(
            option,
        ),
        option_kind(option) == OptionKind::CompressStrings
            <==> "--compress-strings="@.is_prefix_of(option),
        option_kind(option) == OptionKind::CompressPos <==> "--compress-pos="@.is_prefix_of(option),
        option_kind(option) == OptionKind::ToggleCollect <==> "--toggle-collect="@.is_prefix_of(
            option,
        ),
        option_kind(option) == OptionKind::CallgrindOutFile
            <==> "--callgrind-out-file="@.is_prefix_of(option),
{
    reveal_strlit("--I1=");
    reveal_strlit("--D1=");
    reveal_strlit("--LL=");
    reveal_strlit("--cache-sim=");
    reveal_strlit("--collect-atstart=");
    reveal_strlit("--compress-strings=");
    reveal_strlit("--compress-pos=");
    reveal_strlit("--toggle-collect=");
    reveal_strlit("--callgrind-out-file=");
    // The third character tells most of them apart, the fourth, fifth and twelfth the rest.
    if "--I1="@.is_prefix_of(option) {
        lemma_prefix_char("--I1="@, option, 2);
    }
    if "--D1="@.is_prefix_of(option) {
        lemma_prefix_char("--D1="@, option, 2);
    }
    if "--LL="@.is_prefix_of(option) {
        lemma_prefix_char("--LL="@, option, 2);
    }
    if "--cache-sim="@.is_prefix_of(option) {
        lemma_prefix_char("--cache-sim="@, option, 2);
        lemma_prefix_char("--cache-sim="@, option, 3);
        lemma_prefix_char("--cache-sim="@, option, 4);
    }
    if "--collect-atstart="@.is_prefix_of(option) {
        lemma_prefix_char("--collect-atstart="@, option, 2);
        lemma_prefix_char("--collect-atstart="@, option, 3);
        lemma_prefix_char("--collect-atstart="@, option, 4);
    }
    if "--compress-strings="@.is_prefix_of(option) {
        lemma_prefix_char("--compress-strings="@, option, 2);
        lemma_prefix_char("--compress-strings="@, option, 3);
        lemma_prefix_char("--compress-strings="@, option, 4);
        lemma_prefix_char("--compress-strings="@, option, 11);
    }
    if "--compress-pos="@.is_prefix_of(option) {
        lemma_prefix_char("--compress-pos="@, option, 2);
        lemma_prefix_char("--compress-pos="@, option, 3);
        lemma_prefix_char("--compress-pos="@, option, 4);
        lemma_prefix_char("--compress-pos="@, option, 11);
    }
    if "--toggle-collect="@.is_prefix_of(option) {
        lemma_prefix_char("--toggle-collect="@, option, 2);
    }
    if "--callgrind-out-file="@.is_prefix_of(option) {
        lemma_prefix_char("--callgrind-out-file="@, option, 2);
        lemma_prefix_char("--callgrind-out-file="@, option, 3);
        lemma_prefix_char("--callgrind-out-file="@, option, 4);
    }
}

proof fn lemma_prefix_char(prefix: Seq<char>, text: Seq<char>, i: int)
    requires
        prefix.is_prefix_of(text),
        0 <= i < prefix.len(),
    ensures
        text.len() > i,
        text[i] == prefix[i],
{
    assert(text.subrange(0, prefix.len() as int)[i] == prefix[i]);
}

/// One more option at the end takes the place of all earlier ones about the same thing, and
/// changes nothing else.
pub proof fn lemma_later_option_wins(options: Seq<Seq<char>>, option: Seq<char>, kind: OptionKind)
    ensures
        last_of(kind, options.push(option)) == if option_kind(option) == kind {
            Some(option)
        } else {
            last_of(kind, options)
        },
        other_options(options.push(option)) == if option_kind(option) == OptionKind::Other {
            other_options(options).push(option)
        } else {
            other_options(options)
        },
{
    reveal(Seq::filter);
    assert(options.push(option).drop_last() =~= options);
}

proof fn lemma_last_of_kind(kind: OptionKind, options: Seq<Seq<char>>)
    ensures
        last_of(kind, options) matches Some(option) ==> option_kind(option) == kind,
    decreases options.len(),
{
    if options.len() > 0 {
        lemma_last_of_kind(kind, options.drop_last());
    }
}

/// The kinds of the arguments in front of those about nothing in particular.
pub open spec fn leading_kinds() -> Seq<OptionKind> {
    seq![
        OptionKind::I1,
        OptionKind::D1,
        OptionKind::LL,
        OptionKind::CacheSim,
        OptionKind::CollectAtstart,
        OptionKind::CompressStrings,
        OptionKind::CompressPos,
    ]
}

proof fn lemma_starts_with_sum(start: Seq<char>, rest: Seq<char>)
    ensures
        start.is_prefix_of(start + rest),
{
    assert((start + rest).subrange(0, start.len() as int) =~= start);
}

proof fn lemma_default_kinds()
    ensures
        option_kind("--I1=32768,8,64"@) == OptionKind::I1,
        option_kind("--D1=32768,8,64"@) == OptionKind::D1,
        option_kind("--LL=8388608,16,64"@) == OptionKind::LL,
        option_kind("--cache-sim=yes"@) == OptionKind::CacheSim,
        option_kind("--collect-atstart=no"@) == OptionKind::CollectAtstart,
        option_kind("--compress-strings=no"@) == OptionKind::CompressStrings,
        option_kind("--compress-pos=no"@) == OptionKind::CompressPos,
{
    reveal_strlit("--I1=");
    reveal_strlit("--I1=32768,8,64");
    assert("--I1="@ =~= "--I1=32768,8,64"@.subrange(0, 5));
    lemma_prefix_decides_kind("--I1=32768,8,64"@);
    reveal_strlit("--D1=");
    reveal_strlit("--D1=32768,8,64");
    assert("--D1="@ =~= "--D1=32768,8,64"@.subrange(0, 5));
    lemma_prefix_decides_kind("--D1=32768,8,64"@);
    reveal_strlit("--LL=");
    reveal_strlit("--LL=8388608,16,64");
    assert("--LL="@ =~= "--LL=8388608,16,64"@.subrange(0, 5));
    lemma_prefix_decides_kind("--LL=8388608,16,64"@);
    reveal_strlit("--cache-sim=");
    reveal_strlit("--cache-sim=yes");
    assert("--cache-sim="@ =~= "--cache-sim=yes"@.subrange(0, 12));
    lemma_prefix_decides_kind("--cache-sim=yes"@);
    reveal_strlit("--collect-atstart=");
    reveal_strlit("--collect-atstart=no");
    assert("--collect-atstart="@ =~= "--collect-atstart=no"@.subrange(0, 18));
    lemma_prefix_decides_kind("--collect-atstart=no"@);
    reveal_strlit("--compress-strings=");
    reveal_strlit("--compress-strings=no");
    assert("--compress-strings="@ =~= "--compress-strings=no"@.subrange(0, 19));
    lemma_prefix_decides_kind("--compress-strings=no"@);
    reveal_strlit("--compress-pos=");
    reveal_strlit("--compress-pos=no");
    assert("--compress-pos="@ =~= "--compress-pos=no"@.subrange(0, 15));
    lemma_prefix_decides_kind("--compress-pos=no"@);
}

/// Whatever options the runner is given, callgrind gets exactly one argument of each kind: the
/// sizes and switches first, then the options about nothing in particular, then the output file
/// and the function that collects events. The cache simulation is always on and the output file
/// is always the one that the runner reads afterwards.
pub proof fn lemma_one_argument_of_each_kind(
    options: Seq<Seq<char>>,
    output_file: Seq<char>,
    module: Seq<char>,
    function_name: Seq<char>,
)
    ensures
        ({
            let arguments = arguments_for(
                settings_for(options),
                output_file,
                module,
                function_name,
            );
            let n = arguments.len() as int;
            &&& n == 9 + other_options(options).len()
            &&& forall|i: int|
                0 <= i < 7 ==> option_kind(#[trigger] arguments[i]) == leading_kinds()[i]
            &&& forall|i: int|
                7 <= i < n - 2 ==> option_kind(#[trigger] arguments[i]) == OptionKind::Other
            &&& arguments[3] == "--cache-sim=yes"@
            &&& arguments[n - 2] == "--callgrind-out-file="@ + output_file
            &&& option_kind(arguments[n - 2]) == OptionKind::CallgrindOutFile
            &&& option_kind(arguments[n - 1]) == OptionKind::ToggleCollect
        }),
{
    let settings = settings_for(options);
    let arguments = arguments_for(settings, output_file, module, function_name);
    let n = arguments.len() as int;
    lemma_default_kinds();
    lemma_last_of_kind(OptionKind::I1, options);
    lemma_last_of_kind(OptionKind::D1, options);
    lemma_last_of_kind(OptionKind::LL, options);
    lemma_last_of_kind(OptionKind::CollectAtstart, options);
    lemma_last_of_kind(OptionKind::CompressStrings, options);
    lemma_last_of_kind(OptionKind::CompressPos, options);
    lemma_last_of_kind(OptionKind::ToggleCollect, options);
    let out_file = "--callgrind-out-file="@ + output_file;
    lemma_starts_with_sum("--callgrind-out-file="@, output_file);
    lemma_prefix_decides_kind(out_file);
    let toggle = "--toggle-collect=*"@ + module + "::"@ + function_name;
    reveal_strlit("--toggle-collect=");
    reveal_strlit("--toggle-collect=*");
    assert(toggle.subrange(0, 17) =~= "--toggle-collect="@);
    lemma_prefix_decides_kind(toggle);
    assert forall|i: int| 7 <= i < n - 2 implies option_kind(#[trigger] arguments[i])
        == OptionKind::Other by {
        let other = |option: Seq<char>| option_kind(option) == OptionKind::Other;
        options.lemma_filter_pred(other, i - 7);
        assert(arguments[i] == other_options(options)[i - 7]);
    }
}

/// Why a command line cannot be run.
#[derive(Clone, Copy, Debug, PartialEq, Eq, Structural)]
pub enum CommandLineError {
    /// There are no arguments at all.
    MissingModule,
    /// Nothing but benchmarks follows the module.
    MissingExecutable,
}

/// What the command line of the runner stands for.
#[derive(Debug)]
pub struct Invocation {
    /// The program, the module and the options for callgrind.
    pub args: Args,
    /// The names of the benchmark functions, in order.
    pub benches: Vec<String>,
}

/// What an argument starts with that names a benchmark.
pub open spec fn bench_prefix() -> Seq<char> {
    "--iai-bench="@
}

/// How many arguments at the start name a benchmark each.
pub open spec fn bench_count(arguments: Seq<Seq<char>>) -> nat
    decreases arguments.len(),
{
    if arguments.len() == 0 || !bench_prefix().is_prefix_of(arguments[0]) {
        0
    } else {
        1 + bench_count(arguments.drop_first())
    }
}

/// The names in arguments that name a benchmark each.
pub open spec fn bench_names(arguments: Seq<Seq<char>>) -> Seq<Seq<char>> {
    arguments.map_values(|argument: Seq<char>| argument.skip(bench_prefix().len() as int))
}

/// The arguments with two dashes in front.
pub open spec fn dashed(arguments: Seq<Seq<char>>) -> Seq<Seq<char>> {
    arguments.filter(|argument: Seq<char>| "--"@.is_prefix_of(argument))
}

/// The options among `arguments`, without the `--bench` that cargo puts at the end.
pub open spec fn forwarded(arguments: Seq<Seq<char>>) -> Seq<Seq<char>> {
    let options = dashed(arguments);
    if options.len() > 0 && options.last() == "--bench"@ {
        options.drop_last()
    } else {
        options
    }
}

/// Reads the command line of the runner, without the name of the runner itself: the module, the
/// benchmarks, the program and options for callgrind.
pub fn parse_command_line(arguments: &Vec<String>) -> (result: Result<
    Invocation,
    CommandLineError,
>)
    ensures
        ({
            let all = texts(arguments@);
            let rest = all.skip(1);
            let count = bench_count(rest) as int;
            match result {
                Ok(invocation) => {
                    &&& all.len() > 0
                    &&& count < rest.len()
                    &&& invocation.args.module@ == all[0]
                    &&& texts(invocation.benches@) == bench_names(rest.take(count))
                    &&& invocation.args.executable@ == rest[count]
                    &&& invocation.args.callgrind_args is Some
                    &&& invocation.args.options() == forwarded(rest.skip(count + 1))
                },
                Err(CommandLineError::MissingModule) => all.len() == 0,
                Err(CommandLineError::MissingExecutable) => all.len() > 0 && count == rest.len(),
            }
        }),
{
    if arguments.len() == 0 {
        return Err(CommandLineError::MissingModule);
    }
    let ghost all = texts(arguments@);
    let ghost rest = all.skip(1);
    let mut benches: Vec<String> = Vec::new();
    let mut at: usize = 1;
    let mut is_bench: bool = true;
    proof {
        assert(rest.skip(0) =~= rest);
        assert(texts(benches@) =~= bench_names(rest.take(0)));
    }
    while at < arguments.len() && is_bench
        invariant
            all == texts(arguments@),
            rest == all.skip(1),
            1 <= at <= arguments@.len(),
            bench_count(rest) == at - 1 + bench_count(rest.skip(at - 1)),
            !is_bench ==> at < arguments@.len() && bench_count(rest.skip(at - 1)) == 0,
            texts(benches@) == bench_names(rest.take(at - 1)),
        decreases arguments@.len() - at, if is_bench { 1int } else { 0int },
    {
        let argument = arguments[at].as_str();
        let chars = chars_of(argument);
        assert(rest.skip(at - 1)[0] == argument@);
        if starts_with(&chars, "--iai-bench=") {
            let ghost before = texts(benches@);
            proof {
                reveal_strlit("--iai-bench=");
            }
            let name = argument.substring_char(12, chars.len()).to_owned();
            benches.push(name);
            proof {
                assert(name@ =~= argument@.skip(bench_prefix().len() as int));
                assert(texts(benches@) =~= before.push(name@));
                assert(rest.take(at as int) =~= rest.take(at - 1).push(argument@));
                assert(bench_names(rest.take(at as int)) =~= before.push(name@));
                assert(rest.skip(at - 1).drop_first() =~= rest.skip(at as int));
            }
            at = at + 1;
        } else {
            is_bench = false;
        }
    }
    if at == arguments.len() {
        return Err(CommandLineError::MissingExecutable);
    }
    let executable = at;
    let ghost tail = rest.skip(executable as int);
    let mut options: Vec<String> = Vec::new();
    proof {
        reveal(Seq::filter);
        assert(texts(options@) =~= dashed(tail.take(0)));
    }
    for i in executable + 1..arguments.len()
        invariant
            all == texts(arguments@),
            rest == all.skip(1),
            1 <= executable < arguments@.len(),
            tail == rest.skip(executable as int),
            texts(options@) == dashed(tail.take(i - executable - 1)),
    {
        let argument = &arguments[i];
        let chars = chars_of(argument.as_str());
        let ghost k = i - executable - 1;
        proof {
            reveal(Seq::filter);
            assert(tail.take(k + 1).last() == argument@);
            assert(tail.take(k + 1).drop_last() =~= tail.take(k));
        }
        if starts_with(&chars, "--") {
            let ghost before = texts(options@);
            options.push(argument.clone());
            assert(texts(options@) =~= before.push(argument@));
        }
    }
    assert(tail.take(tail.len() as int) =~= tail);
    let cargo_flag = "--bench".to_owned();
    if options.len() > 0 && options[options.len() - 1] == cargo_flag {
        let ghost before = texts(options@);
        options.pop();
        assert(texts(options@) =~= before.drop_last());
    }
    let args = Args::new(
        arguments[executable].as_str(),
        arguments[0].as_str(),
        options,
    );
    Ok(Invocation { args, benches })
}

/// The arguments after the module with which cargo has a set of benchmarks run.
pub open spec fn written_arguments(
    names: Seq<Seq<char>>,
    executable: Seq<char>,
    options: Seq<Seq<char>>,
) -> Seq<Seq<char>> {
    names.map_values(|name: Seq<char>| "--iai-bench="@ + name) + seq![executable] + options.push(
        "--bench"@,
    )
}

/// What is written on a command line is what is read from it: the names of the benchmarks, the
/// program, unless it looks like a benchmark itself, and the options with two dashes in front.
pub proof fn lemma_command_line_reads_back(
    names: Seq<Seq<char>>,
    executable: Seq<char>,
    options: Seq<Seq<char>>,
)
    requires
        !"--iai-bench="@.is_prefix_of(executable),
        forall|i: int| 0 <= i < options.len() ==> "--"@.is_prefix_of(#[trigger] options[i]),
    ensures
        ({
            let arguments = written_arguments(names, executable, options);
            let count = bench_count(arguments) as int;
            &&& count == names.len()
            &&& bench_names(arguments.take(count)) == names
            &&& arguments[count] == executable
            &&& forwarded(arguments.skip(count + 1)) == options
        }),
{
    let arguments = written_arguments(names, executable, options);
    let written = names.map_values(|name: Seq<char>| "--iai-bench="@ + name);
    let rest = seq![executable] + options.push("--bench"@);
    assert(arguments =~= written + rest);
    assert forall|i: int| 0 <= i < written.len() implies bench_prefix().is_prefix_of(
        #[trigger] written[i],
    ) by {
        lemma_starts_with_sum(bench_prefix(), names[i]);
    }
    lemma_bench_count(written, rest);
    let count = names.len() as int;
    let read = bench_names(arguments.take(count));
    assert forall|i: int| 0 <= i < count implies #[trigger] read[i] == names[i] by {
        assert(arguments.take(count)[i] == bench_prefix() + names[i]);
        assert((bench_prefix() + names[i]).skip(bench_prefix().len() as int) =~= names[i]);
    }
    assert(read =~= names);
    let tail = arguments.skip(count + 1);
    assert(tail =~= options.push("--bench"@));
    reveal_strlit("--");
    reveal_strlit("--bench");
    assert("--"@ =~= "--bench"@.subrange(0, 2));
    assert forall|i: int| 0 <= i < tail.len() implies "--"@.is_prefix_of(#[trigger] tail[i]) by {
        if i < options.len() {
            assert(tail[i] == options[i]);
        }
    }
    lemma_all_dashed(tail);
    assert(tail.drop_last() =~= options);
}

proof fn lemma_bench_count(benches: Seq<Seq<char>>, rest: Seq<Seq<char>>)
    requires
        forall|i: int| 0 <= i < benches.len() ==> bench_prefix().is_prefix_of(#[trigger] benches[i]),
        rest.len() > 0,
        !bench_prefix().is_prefix_of(rest[0]),
    ensures
        bench_count(benches + rest) == benches.len(),
    decreases benches.len(),
{
    if benches.len() == 0 {
        assert(benches + rest =~= rest);
    } else {
        let tail = benches.drop_first();
        assert forall|i: int| 0 <= i < tail.len() implies bench_prefix().is_prefix_of(
            #[trigger] tail[i],
        ) by {
            assert(tail[i] == benches[i + 1]);
        }
        lemma_bench_count(tail, rest);
        assert(bench_prefix().is_prefix_of(benches[0]));
        assert((benches + rest).drop_first() =~= tail + rest);
    }
}

proof fn lemma_all_dashed(arguments: Seq<Seq<char>>)
    requires
        forall|i: int| 0 <= i < arguments.len() ==> "--"@.is_prefix_of(#[trigger] arguments[i]),
    ensures
        dashed(arguments) == arguments,
    decreases arguments.len(),
{
    reveal(Seq::filter);
    if arguments.len() > 0 {
        let front = arguments.drop_last();
        assert forall|i: int| 0 <= i < front.len() implies "--"@.is_prefix_of(
            #[trigger] front[i],
        ) by {
            assert(front[i] == arguments[i]);
        }
        lemma_all_dashed(front);
        assert("--"@.is_prefix_of(arguments[arguments.len() - 1]));
        assert(front.push(arguments.last()) =~= arguments);
    }
}

/// Without options, callgrind gets fixed cache sizes, a cache simulation that is on, and the
/// switches that make its output readable.
pub proof fn lemma_default_settings()
    ensures
        ({
            let settings = settings_for(Seq::empty());
            &&& settings.i1 == "--I1=32768,8,64"@
            &&& settings.d1 == "--D1=32768,8,64"@
            &&& settings.ll == "--LL=8388608,16,64"@
            &&& settings.cache_sim == "--cache-sim=yes"@
            &&& settings.collect_atstart == "--collect-atstart=no"@
            &&& settings.compress_strings == "--compress-strings=no"@
            &&& settings.compress_pos == "--compress-pos=no"@
            &&& settings.other.len() == 0
            &&& settings.toggle_collect is None
            &&& settings.callgrind_out_file is None
        }),
{
    reveal(Seq::filter);
}

/// Whether an option starts like none of those that are about something in particular.
pub open spec fn about_nothing_in_particular(option: Seq<char>) -> bool {
    &&& !"--I1="@.is_prefix_of(option)
    &&& !"--D1="@.is_prefix_of(option)
    &&& !"--LL="@.is_prefix_of(option)
    &&& !"--cache-sim="@.is_prefix_of(option)
    &&& !"--collect-atstart="@.is_prefix_of(option)
    &&& !"--compress-strings="@.is_prefix_of(option)
    &&& !"--compress-pos="@.is_prefix_of(option)
    &&& !"--toggle-collect="@.is_prefix_of(option)
    &&& !"--callgrind-out-file="@.is_prefix_of(option)
}

/// One more option changes the one setting that it is about, and only that one: it becomes the
/// option as it was given. An option about the cache simulation or the output file changes
/// nothing, and one about nothing in particular is put behind those before it.
pub proof fn lemma_option_changes_its_setting(options: Seq<Seq<char>>, option: Seq<char>)
    ensures
        ({
            let before = settings_for(options);
            let after = settings_for(options.push(option));
            &&& after.i1 == if "--I1="@.is_prefix_of(option) {
                option
            } else {
                before.i1
            }
            &&& after.d1 == if "--D1="@.is_prefix_of(option) {
                option
            } else {
                before.d1
            }
            &&& after.ll == if "--LL="@.is_prefix_of(option) {
                option
            } else {
                before.ll
            }
            &&& after.cache_sim == before.cache_sim
            &&& after.collect_atstart == if "--collect-atstart="@.is_prefix_of(option) {
                option
            } else {
                before.collect_atstart
            }
            &&& after.compress_strings == if "--compress-strings="@.is_prefix_of(option) {
                option
            } else {
                before.compress_strings
            }
            &&& after.compress_pos == if "--compress-pos="@.is_prefix_of(option) {
                option
            } else {
                before.compress_pos
            }
            &&& after.other == if about_nothing_in_particular(option) {
                before.other.push(option)
            } else {
                before.other
            }
            &&& after.toggle_collect == if "--toggle-collect="@.is_prefix_of(option) {
                Some(option)
            } else {
                before.toggle_collect
            }
            &&& after.callgrind_out_file == before.callgrind_out_file
        }),
{
    lemma_prefix_decides_kind(option);
    lemma_later_option_wins(options, option, OptionKind::I1);
    lemma_later_option_wins(options, option, OptionKind::D1);
    lemma_later_option_wins(options, option, OptionKind::LL);
    lemma_later_option_wins(options, option, OptionKind::CollectAtstart);
    lemma_later_option_wins(options, option, OptionKind::CompressStrings);
    lemma_later_option_wins(options, option, OptionKind::CompressPos);
    lemma_later_option_wins(options, option, OptionKind::ToggleCollect);
    assert(option_kind(option) == OptionKind::Other <==> about_nothing_in_particular(option));
}

/// No option is about anything where there is none.
pub proof fn lemma_no_options(kind: OptionKind)
    ensures
        last_of(kind, Seq::empty()) is None,
        other_options(Seq::empty()).len() == 0,
{
    reveal(Seq::filter);
}

/// Options about nothing in particular are all kept, each as it was given and in the order in
/// which they were given.
pub proof fn lemma_plain_options_are_kept(options: Seq<Seq<char>>)
    requires
        forall|i: int|
            0 <= i < options.len() ==> about_nothing_in_particular(#[trigger] options[i]),
    ensures
        settings_for(options).other == options,
    decreases options.len(),
{
    if options.len() == 0 {
        lemma_no_options(OptionKind::Other);
        assert(settings_for(options).other =~= options);
    } else {
        let front = options.drop_last();
        assert forall|i: int| 0 <= i < front.len() implies about_nothing_in_particular(
            #[trigger] front[i],
        ) by {
            assert(front[i] == options[i]);
        }
        lemma_plain_options_are_kept(front);
        assert(about_nothing_in_particular(options[options.len() - 1]));
        assert(front.push(options.last()) =~= options);
        lemma_option_changes_its_setting(front, options.last());
    }
}

/// The arguments that callgrind gets are the settings, one by one and in a fixed order. Where the
/// settings leave them open, the output file and the function that collects events are those of
/// the benchmark.
pub proof fn lemma_arguments_in_order(
    settings: Settings,
    output_file: Seq<char>,
    module: Seq<char>,
    function_name: Seq<char>,
)
    ensures
        ({
            let arguments = arguments_for(settings, output_file, module, function_name);
            let n = settings.other.len() as int;
            &&& arguments.len() == n + 9
            &&& arguments[0] == settings.i1
            &&& arguments[1] == settings.d1
            &&& arguments[2] == settings.ll
            &&& arguments[3] == settings.cache_sim
            &&& arguments[4] == settings.collect_atstart
            &&& arguments[5] == settings.compress_strings
            &&& arguments[6] == settings.compress_pos
            &&& forall|i: int| 0 <= i < n ==> arguments[7 + i] == #[trigger] settings.other[i]
            &&& settings.callgrind_out_file matches Some(given) ==> arguments[n + 7] == given
            &&& settings.callgrind_out_file is None ==> arguments[n + 7]
                == "--callgrind-out-file="@ + output_file
            &&& settings.toggle_collect matches Some(given) ==> arguments[n + 8] == given
            &&& settings.toggle_collect is None ==> arguments[n + 8] == "--toggle-collect=*"@
                + module + "::"@ + function_name
        }),
{
}

/// A warning names the whole option that it is about. There is one about each option for the
/// cache simulation or the output file, which are ignored, and about each option for the function
/// that collects events, and about no other option.
pub proof fn lemma_warnings_name_option(option: Seq<char>)
    ensures
        option_warning(option) == if "--cache-sim="@.is_prefix_of(option)
            || "--callgrind-out-file="@.is_prefix_of(option) {
            Some("Ignoring callgrind argument: '"@ + option + "'"@)
        } else if "--toggle-collect="@.is_prefix_of(option) {
            Some(
                "The callgrind argument '"@ + option
                    + "' will overwrite the default setting and may produce wrong results."@,
            )
        } else {
            None
        },
{
    lemma_prefix_decides_kind(option);
}

/// An option for the cache simulation or the output file leaves all settings as they were, and
/// never does so without a warning.
pub proof fn lemma_ignored_options_change_nothing(options: Seq<Seq<char>>, option: Seq<char>)
    requires
        "--cache-sim="@.is_prefix_of(option) || "--callgrind-out-file="@.is_prefix_of(option),
    ensures
        settings_for(options.push(option)) == settings_for(options),
        option_warning(option) is Some,
{
    lemma_prefix_decides_kind(option);
    lemma_option_changes_its_setting(options, option);
}

/// The options of a command line are the strings that it holds, one for one.
pub proof fn lemma_options_are_strings(args: Args)
    ensures
        args.callgrind_args is None ==> args.options().len() == 0,
        args.callgrind_args matches Some(strings) ==> args.options().len() == strings@.len()
            && forall|i: int|
            0 <= i < strings@.len() ==> #[trigger] args.options()[i] == strings@[i]@,
{
}

/// The texts of a set of arguments are those of its strings.
pub proof fn lemma_settings_are_strings(args: CallgrindArgs)
    ensures
        args@.i1 == args.i1@,
        args@.d1 == args.d1@,
        args@.ll == args.ll@,
        args@.cache_sim == args.cache_sim@,
        args@.collect_atstart == args.collect_atstart@,
        args@.compress_strings == args.compress_strings@,
        args@.compress_pos == args.compress_pos@,
        args@.other.len() == args.other@.len(),
        forall|i: int| 0 <= i < args.other@.len() ==> #[trigger] args@.other[i] == args.other@[i]@,
        args.toggle_collect matches Some(given) ==> args@.toggle_collect == Some(given@),
        args.toggle_collect is None ==> args@.toggle_collect is None,
        args.callgrind_out_file matches Some(given) ==> args@.callgrind_out_file == Some(given@),
        args.callgrind_out_file is None ==> args@.callgrind_out_file is None,
{
}

/// The benchmarks on a command line are all that come first: every argument before the program
/// starts like one, and the program does not.
pub proof fn lemma_program_is_first_other_argument(arguments: Seq<Seq<char>>)
    ensures
        bench_count(arguments) <= arguments.len(),
        forall|i: int|
            0 <= i < bench_count(arguments) ==> "--iai-bench="@.is_prefix_of(
                #[trigger] arguments[i],
            ),
        bench_count(arguments) < arguments.len() ==> !"--iai-bench="@.is_prefix_of(
            arguments[bench_count(arguments) as int],
        ),
    decreases arguments.len(),
{
    if arguments.len() > 0 && "--iai-bench="@.is_prefix_of(arguments[0]) {
        let tail = arguments.drop_first();
        lemma_program_is_first_other_argument(tail);
        assert forall|i: int| 0 <= i < bench_count(arguments) implies "--iai-bench="@.is_prefix_of(
            #[trigger] arguments[i],
        ) by {
            if i > 0 {
                assert(tail[i - 1] == arguments[i]);
            }
        }
    }
}

/// The name of each benchmark is all that follows the equals sign of its argument.
pub proof fn lemma_names_follow_equals_sign(arguments: Seq<Seq<char>>)
    requires
        forall|i: int|
            0 <= i < arguments.len() ==> "--iai-bench="@.is_prefix_of(#[trigger] arguments[i]),
    ensures
        bench_names(arguments).len() == arguments.len(),
        forall|i: int|
            0 <= i < arguments.len() ==> "--iai-bench="@ + #[trigger] bench_names(arguments)[i]
                == arguments[i],
{
    reveal_strlit("--iai-bench=");
    assert forall|i: int| 0 <= i < arguments.len() implies "--iai-bench="@
        + #[trigger] bench_names(arguments)[i] == arguments[i] by {
        let argument = arguments[i];
        assert("--iai-bench="@.is_prefix_of(argument));
        assert(argument.subrange(0, 12) =~= "--iai-bench="@);
        assert(argument.subrange(0, 12) + argument.skip(12) =~= argument);
    }
}

/// One more argument is passed on exactly where there are two dashes in front of it. A `--bench`
/// is not passed on while it is the last such argument, and becomes one like any other once
/// another one follows.
pub proof fn lemma_dashed_arguments_are_forwarded(arguments: Seq<Seq<char>>, argument: Seq<char>)
    ensures
        dashed(Seq::empty()).len() == 0,
        forwarded(Seq::empty()).len() == 0,
        dashed(arguments.push(argument)) == if "--"@.is_prefix_of(argument) {
            dashed(arguments).push(argument)
        } else {
            dashed(arguments)
        },
        forwarded(arguments.push(argument)) == if argument == "--bench"@ {
            dashed(arguments)
        } else if "--"@.is_prefix_of(argument) {
            dashed(arguments).push(argument)
        } else {
            forwarded(arguments)
        },
{
    reveal(Seq::filter);
    reveal_strlit("--");
    reveal_strlit("--bench");
    assert("--"@ =~= "--bench"@.subrange(0, 2));
    assert(arguments.push(argument).drop_last() =~= arguments);
    assert(dashed(arguments).push(argument).drop_last() =~= dashed(arguments));
}

} // verus!
