use iai_callgrind_runner::args::CallgrindArgs;
use iai_callgrind_runner::command::{
    basic_valgrind, callgrind_command, check_valgrind, get_arch, uname, valgrind_version,
    valgrind_without_aslr, Outcome, Platform,
};

fn strings(texts: &[&str]) -> Vec<String> {
    texts.iter().map(|text| text.to_string()).collect()
}

#[test]
fn version_check() {
    let command = valgrind_version();
    assert_eq!(command.program, "valgrind");
    assert_eq!(command.args, strings(&["--tool=callgrind", "--version"]));
    assert_eq!(
        check_valgrind(&Outcome::Exited { success: true, status: "exit status: 0".to_string() }),
        Ok(())
    );
    assert_eq!(
        check_valgrind(&Outcome::Exited { success: false, status: "exit status: 1".to_string() }),
        Err("Failed to launch valgrind. Error: exit status: 1. Please ensure that valgrind is installed and on the $PATH.".to_string())
    );
    assert_eq!(
        check_valgrind(&Outcome::NotStarted { error: "no such file".to_string() }),
        Err("Unexpected error while launching valgrind. Error: no such file".to_string())
    );
}

#[test]
fn architecture() {
    let command = uname();
    assert_eq!(command.program, "uname");
    assert_eq!(command.args, strings(&["-m"]));
    assert_eq!(get_arch(b"x86_64\n".to_vec()), Some("x86_64".to_string()));
    assert_eq!(get_arch(Vec::new()), Some(String::new()));
    assert_eq!(get_arch("\u{3000}\u{e4}".as_bytes().to_vec()), Some("\u{e4}".to_string()));
    assert_eq!(get_arch(vec![0x78, 0xff]), None);
    assert_eq!(get_arch(vec![0xed, 0xa0, 0x80]), None);
}

#[test]
fn launchers() {
    let plain = basic_valgrind();
    assert_eq!(plain.program, "valgrind");
    assert!(plain.args.is_empty());
    let linux = valgrind_without_aslr(Platform::Linux, "x86_64");
    assert_eq!(linux.program, "setarch");
    assert_eq!(linux.args, strings(&["x86_64", "-R", "valgrind"]));
    let freebsd = valgrind_without_aslr(Platform::FreeBsd, "amd64");
    assert_eq!(freebsd.program, "proccontrol");
    assert_eq!(freebsd.args, strings(&["-m", "aslr", "-s", "disable", "valgrind"]));
    for platform in [Platform::Other, Platform::NonUnix] {
        let other = valgrind_without_aslr(platform, "arm64");
        assert_eq!(other.program, "valgrind");
        assert!(other.args.is_empty());
    }
}

#[test]
fn whole_command() {
    let settings = CallgrindArgs::default();
    let command = callgrind_command(
        Platform::Linux,
        "x86_64",
        false,
        &settings,
        "out",
        "exe",
        12,
        "m",
        "f",
    );
    assert_eq!(command.program, "setarch");
    let mut expected = strings(&["x86_64", "-R", "valgrind", "--tool=callgrind"]);
    expected.extend(settings.parse_with("out", "m", "f"));
    expected.extend(strings(&["exe", "--iai-run", "12", "m::f"]));
    assert_eq!(command.args, expected);
    let command =
        callgrind_command(Platform::Linux, "x86_64", true, &settings, "out", "exe", 0, "m", "f");
    assert_eq!(command.program, "valgrind");
    assert_eq!(command.args, expected[3..].iter().map(|a| if a == "12" { "0".to_string() } else { a.clone() }).collect::<Vec<_>>());
}

#[test]
fn tool_follows_valgrind_on_every_platform() {
    for platform in [Platform::Linux, Platform::FreeBsd, Platform::Other, Platform::NonUnix] {
        for allow_aslr in [false, true] {
            let settings = CallgrindArgs::default();
            let command =
                callgrind_command(platform, "arch", allow_aslr, &settings, "o", "e", 0, "m", "f");
            let mut words = vec![command.program];
            words.extend(command.args);
            let tool = words.iter().position(|word| word == "--tool=callgrind").unwrap();
            assert_eq!(words[tool - 1], "valgrind");
        }
    }
}
