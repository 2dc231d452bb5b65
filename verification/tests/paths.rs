use iai_callgrind_runner::command::Platform;
use iai_callgrind_runner::paths::{old_file, output_file, split_module};
use std::path::PathBuf;

fn with_std(module: &str, function_name: &str) -> (String, String) {
    let directory: PathBuf = module.split("::").collect();
    let mut output = PathBuf::from("target/iai");
    output.push(directory);
    output.push(PathBuf::from(format!("callgrind.{}.out", function_name)));
    let old = output.with_extension("out.old");
    (output.display().to_string(), old.display().to_string())
}

#[test]
fn usual_files() {
    let output = output_file(Platform::Linux, "my_benches::group", "bench_one");
    assert_eq!(output, "target/iai/my_benches/group/callgrind.bench_one.out");
    assert_eq!(
        old_file(Platform::Linux, &output),
        "target/iai/my_benches/group/callgrind.bench_one.out.old"
    );
}

#[test]
fn files_are_those_of_std() {
    let modules = ["", "a", "a::b", "a:::b", "::a", "a::", "::", "a::/x::b", "/", "a/::b", ".", "a::..", "a.b::c"];
    let functions = ["", "f", "f.g", "f/", "f/g", ".", "..", "/", ".out", "a b", "f::g", "\u{e4}", "f//"];
    for module in modules {
        for function_name in functions {
            let (output, old) = with_std(module, function_name);
            for platform in
                [Platform::Linux, Platform::FreeBsd, Platform::Other, Platform::NonUnix]
            {
                assert_eq!(output_file(platform, module, function_name), output);
                assert_eq!(old_file(platform, &output), old, "{:?} {:?}", module, function_name);
            }
        }
    }
}

#[test]
fn modules_are_split_like_std_does() {
    for module in ["", "a", "a::b::c", ":::", "::::", "a:b", "a:::b", ":a::"] {
        let expected: Vec<String> = module.split("::").map(String::from).collect();
        let parts = split_module(module);
        assert_eq!(parts, expected);
        assert_eq!(parts.join("::"), module);
    }
}

#[test]
fn results_are_not_overwritten() {
    let names = ["a", "b", "a.out", "a.out.old", "old", ""];
    for name in names {
        for other in names {
            let output = output_file(Platform::Linux, "m", name);
            assert_ne!(old_file(Platform::Linux, &output), output_file(Platform::Linux, "m", other));
            assert_eq!(output == output_file(Platform::Linux, "m", other), name == other);
        }
    }
}

#[test]
fn results_stay_below_target() {
    assert!(output_file(Platform::Linux, "..::a", "f").starts_with("target/iai/"));
    assert!(!output_file(Platform::Linux, "/a", "f").starts_with("target/iai/"));
}
