use iai_callgrind_runner::args::{
    classify, parse_command_line, warning, Args, CallgrindArgs, CommandLineError, OptionKind,
};

fn strings(texts: &[&str]) -> Vec<String> {
    texts.iter().map(|text| text.to_string()).collect()
}

fn arguments(options: &[&str]) -> Vec<String> {
    let args = Args::new("bench", "my::module", strings(options));
    CallgrindArgs::from_args(&args).parse_with("out/file", "my::module", "function")
}

#[test]
fn new_args() {
    let args = Args::new("exe", "module", strings(&["--a"]));
    assert_eq!(args.executable, "exe");
    assert_eq!(args.module, "module");
    assert_eq!(args.callgrind_args, Some(strings(&["--a"])));
}

#[test]
fn default_arguments() {
    let expected = strings(&[
        "--I1=32768,8,64",
        "--D1=32768,8,64",
        "--LL=8388608,16,64",
        "--cache-sim=yes",
        "--collect-atstart=no",
        "--compress-strings=no",
        "--compress-pos=no",
        "--callgrind-out-file=out/file",
        "--toggle-collect=*my::module::function",
    ]);
    assert_eq!(arguments(&[]), expected);
    let defaults = CallgrindArgs::default();
    assert_eq!(defaults.parse_with("out/file", "my::module", "function"), expected);
    let mut args = Args::new("bench", "my::module", Vec::new());
    args.callgrind_args = None;
    let without = CallgrindArgs::from_args(&args);
    assert_eq!(without.parse_with("out/file", "my::module", "function"), expected);
}

#[test]
fn options_replace_defaults() {
    assert_eq!(
        arguments(&[
            "--dump-instr=yes",
            "--I1=1",
            "--toggle-collect=main",
            "--cache-sim=no",
            "--D1=2",
            "--callgrind-out-file=elsewhere",
            "--LL=3",
            "--I1=4",
            "--compress-pos=yes",
            "--other",
            "--compress-strings=yes",
            "--collect-atstart=yes",
            "--I1",
        ]),
        strings(&[
            "--I1=4",
            "--D1=2",
            "--LL=3",
            "--cache-sim=yes",
            "--collect-atstart=yes",
            "--compress-strings=yes",
            "--compress-pos=yes",
            "--dump-instr=yes",
            "--other",
            "--I1",
            "--callgrind-out-file=out/file",
            "--toggle-collect=main",
        ])
    );
}

#[test]
fn output_file_can_be_set_by_hand() {
    let mut settings = CallgrindArgs::default();
    settings.callgrind_out_file = Some("--callgrind-out-file=x".to_string());
    settings.cache_sim = "--cache-sim=no".to_string();
    let arguments = settings.parse_with("out/file", "m", "f");
    assert_eq!(arguments[3], "--cache-sim=no");
    assert_eq!(arguments[7], "--callgrind-out-file=x");
}

#[test]
fn kinds() {
    assert_eq!(classify("--I1="), OptionKind::I1);
    assert_eq!(classify("--D1=1"), OptionKind::D1);
    assert_eq!(classify("--LL=1"), OptionKind::LL);
    assert_eq!(classify("--cache-sim=no"), OptionKind::CacheSim);
    assert_eq!(classify("--collect-atstart=yes"), OptionKind::CollectAtstart);
    assert_eq!(classify("--compress-strings=yes"), OptionKind::CompressStrings);
    assert_eq!(classify("--compress-pos=yes"), OptionKind::CompressPos);
    assert_eq!(classify("--toggle-collect=f"), OptionKind::ToggleCollect);
    assert_eq!(classify("--callgrind-out-file=f"), OptionKind::CallgrindOutFile);
    assert_eq!(classify("--i1=1"), OptionKind::Other);
    assert_eq!(classify("--I1"), OptionKind::Other);
    assert_eq!(classify(""), OptionKind::Other);
}

#[test]
fn usual_command_line() {
    let invocation = parse_command_line(&strings(&[
        "my::module",
        "--iai-bench=one",
        "--iai-bench=two=2",
        "path/to/exe",
        "--iai-bench=late",
        "filter",
        "--dump-instr=yes",
        "-x",
        "--bench",
    ]))
    .unwrap();
    assert_eq!(invocation.args.module, "my::module");
    assert_eq!(invocation.args.executable, "path/to/exe");
    assert_eq!(invocation.benches, strings(&["one", "two=2"]));
    assert_eq!(
        invocation.args.callgrind_args,
        Some(strings(&["--iai-bench=late", "--dump-instr=yes"]))
    );
}

#[test]
fn only_the_last_bench_flag_is_dropped() {
    let invocation =
        parse_command_line(&strings(&["m", "--iai-benches=x", "--bench", "--bench", "name"]))
            .unwrap();
    assert_eq!(invocation.args.executable, "--iai-benches=x");
    assert_eq!(invocation.args.callgrind_args, Some(strings(&["--bench"])));
    let invocation = parse_command_line(&strings(&["m", "exe", "--bench", "--a"])).unwrap();
    assert_eq!(invocation.args.callgrind_args, Some(strings(&["--bench", "--a"])));
    let invocation = parse_command_line(&strings(&["m", "exe", "-a"])).unwrap();
    assert_eq!(invocation.args.callgrind_args, Some(Vec::new()));
}

#[test]
fn incomplete_command_lines() {
    assert_eq!(
        parse_command_line(&Vec::new()).unwrap_err(),
        CommandLineError::MissingModule
    );
    assert_eq!(
        parse_command_line(&strings(&["m"])).unwrap_err(),
        CommandLineError::MissingExecutable
    );
    assert_eq!(
        parse_command_line(&strings(&["m", "--iai-bench=a"])).unwrap_err(),
        CommandLineError::MissingExecutable
    );
}

#[test]
fn command_line_reads_back() {
    for names in [vec![], vec!["a"], vec!["a", "", "b=c"]] {
        for options in [vec![], vec!["--x"], vec!["--bench", "--I1=1"]] {
            let mut line = vec!["m".to_string()];
            line.extend(names.iter().map(|name| format!("--iai-bench={}", name)));
            line.push("exe".to_string());
            line.extend(strings(&options));
            line.push("--bench".to_string());
            let invocation = parse_command_line(&line).unwrap();
            assert_eq!(invocation.benches, strings(&names));
            assert_eq!(invocation.args.executable, "exe");
            assert_eq!(invocation.args.callgrind_args, Some(strings(&options)));
        }
    }
}

#[test]
fn warnings() {
    for option in ["--cache-sim=no", "--callgrind-out-file=x"] {
        assert_eq!(
            warning(option),
            Some(format!("Ignoring callgrind argument: '{}'", option))
        );
    }
    assert_eq!(
        warning("--toggle-collect=f"),
        Some("The callgrind argument '--toggle-collect=f' will overwrite the default setting and may produce wrong results.".to_string())
    );
    for option in ["--I1=1", "--D1=1", "--LL=1", "--compress-pos=no", "--other", ""] {
        assert_eq!(warning(option), None);
    }
}
