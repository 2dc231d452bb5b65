//! Where the results of a benchmark are kept.
//!
//! On Unix, paths are text with `/` between their parts and everything about them is stated here.
//! On other platforms they are put together by the standard library.
use crate::command::Platform;
use crate::text::{chars_of, texts};
use vstd::prelude::*;

verus! {

/// Puts `text` in front of the first of `parts`.
pub open spec fn prepended(text: Seq<char>, parts: Seq<Seq<char>>) -> Seq<Seq<char>> {
    parts.update(0, text + parts[0])
}

/// The parts of a module path: what stands between its `::`, from left to right.
pub open spec fn segments(module: Seq<char>) -> Seq<Seq<char>>
    decreases module.len(),
{
    if module.len() == 0 {
        seq![Seq::empty()]
    } else if module.len() >= 2 && module[0] == ':' && module[1] == ':' {
        seq![Seq::empty()] + segments(module.skip(2))
    } else {
        prepended(seq![module[0]], segments(module.drop_first()))
    }
}

proof fn lemma_segments_not_empty(module: Seq<char>)
    ensures
        segments(module).len() > 0,
    decreases module.len(),
{
    if module.len() == 0 {
    } else if module.len() >= 2 && module[0] == ':' && module[1] == ':' {
    } else {
        lemma_segments_not_empty(module.drop_first());
    }
}

/// Splits a module path at its `::`.
pub fn split_module(module: &str) -> (parts: Vec<String>)
    ensures
        texts(parts@) == segments(module@),
{
    let chars = chars_of(module);
    let ghost whole = module@;
    let mut parts: Vec<String> = Vec::new();
    let mut start: usize = 0;
    let mut at: usize = 0;
    proof {
        lemma_segments_not_empty(whole);
        assert(whole.skip(0) =~= whole);
        assert(prepended(whole.subrange(0, 0), segments(whole)) =~= segments(whole));
        assert(texts(parts@) + segments(whole) =~= segments(whole));
    }
    while at < chars.len()
        invariant
            chars@ == whole,
            whole == module@,
            start <= at <= chars@.len(),
            texts(parts@) + prepended(
                whole.subrange(start as int, at as int),
                segments(whole.skip(at as int)),
            ) == segments(whole),
        decreases chars@.len() - at,
    {
        let ghost before = texts(parts@);
        let ghost open = whole.subrange(start as int, at as int);
        let ghost rest = whole.skip(at as int);
        if at + 1 < chars.len() && chars[at] == ':' && chars[at + 1] == ':' {
            let part = module.substring_char(start, at).to_owned();
            parts.push(part);
            at = at + 2;
            start = at;
            proof {
                let tail = segments(whole.skip(at as int));
                lemma_segments_not_empty(whole.skip(at as int));
                assert(rest.skip(2) =~= whole.skip(at as int));
                assert(texts(parts@) =~= before.push(open));
                assert(prepended(open, segments(rest)) =~= seq![open] + tail);
                assert(prepended(whole.subrange(at as int, at as int), tail) =~= tail);
                assert(before + (seq![open] + tail) =~= before.push(open) + tail);
            }
        } else {
            at = at + 1;
            proof {
                let tail = segments(whole.skip(at as int));
                lemma_segments_not_empty(whole.skip(at as int));
                assert(rest.drop_first() =~= whole.skip(at as int));
                assert(open + (seq![rest[0]] + tail[0]) =~= whole.subrange(
                    start as int,
                    at as int,
                ) + tail[0]);
                assert(prepended(open, segments(rest)) =~= prepended(
                    whole.subrange(start as int, at as int),
                    tail,
                ));
            }
        }
    }
    let ghost before = texts(parts@);
    let part = module.substring_char(start, at).to_owned();
    parts.push(part);
    proof {
        let open = whole.subrange(start as int, at as int);
        assert(prepended(open, segments(whole.skip(at as int))) =~= seq![open]);
        assert(texts(parts@) =~= before + seq![open]);
    }
    parts
}

/// `parts` with `::` between them.
pub open spec fn module_of(parts: Seq<Seq<char>>) -> Seq<char>
    decreases parts.len(),
{
    if parts.len() == 0 {
        Seq::empty()
    } else if parts.len() == 1 {
        parts[0]
    } else {
        parts[0] + seq![':', ':'] + module_of(parts.drop_first())
    }
}

/// Nothing of a module path is lost when it is split: with `::` between them its parts make up
/// the path again.
pub proof fn lemma_segments_make_up_module(module: Seq<char>)
    ensures
        module_of(segments(module)) == module,
    decreases module.len(),
{
    if module.len() == 0 {
    } else if module.len() >= 2 && module[0] == ':' && module[1] == ':' {
        let tail = segments(module.skip(2));
        lemma_segments_make_up_module(module.skip(2));
        lemma_segments_not_empty(module.skip(2));
        assert(segments(module).drop_first() =~= tail);
        assert(module_of(segments(module)) =~= module);
    } else {
        let tail = segments(module.drop_first());
        lemma_segments_make_up_module(module.drop_first());
        lemma_segments_not_empty(module.drop_first());
        assert(segments(module).drop_first() =~= tail.drop_first());
        assert(module_of(segments(module)) =~= seq![module[0]] + module_of(tail));
        assert(module_of(segments(module)) =~= module);
    }
}

/// The path `part`, seen from the path `base`: an absolute path stands for itself.
pub open spec fn joined(base: Seq<char>, part: Seq<char>) -> Seq<char> {
    if part.len() > 0 && part[0] == '/' {
        part
    } else if base.len() == 0 || base.last() == '/' {
        base + part
    } else {
        base + seq!['/'] + part
    }
}

/// The path that leads through `parts`, one after the other.
pub open spec fn path_through(parts: Seq<Seq<char>>) -> Seq<char>
    decreases parts.len(),
{
    if parts.len() == 0 {
        Seq::empty()
    } else {
        joined(path_through(parts.drop_last()), parts.last())
    }
}

/// Goes from the path `base` to the path `part`.
fn join(base: &str, part: &str) -> (path: String)
    ensures
        path@ == joined(base@, part@),
{
    let part_len: usize = part.unicode_len();
    if part_len > 0 && part.get_char(0) == '/' {
        return part.to_owned();
    }
    let mut path = base.to_owned();
    let base_len: usize = base.unicode_len();
    if base_len > 0 && base.get_char(base_len - 1) != '/' {
        proof {
            reveal_strlit("/");
            assert("/"@ =~= seq!['/']);
        }
        path.append("/");
    }
    path.append(part);
    path
}

/// Whether `c` separates the parts of a path on some platform.
pub open spec fn separator(c: char) -> bool {
    c == '/' || c == '\\'
}

/// Whether `path` is relative on every platform: there is something in it, no separator at either
/// end of it, and no colon anywhere.
pub open spec fn ordinary(path: Seq<char>) -> bool {
    &&& path.len() > 0
    &&& !separator(path[0])
    &&& !separator(path.last())
    &&& forall|i: int| 0 <= i < path.len() ==> #[trigger] path[i] != ':'
}

/// `path` with the one kind of separator in place of the other.
pub open spec fn with_slashes(path: Seq<char>) -> Seq<char> {
    Seq::new(
        path.len(),
        |i: int|
            if path[i] == '\\' {
                '/'
            } else {
                path[i]
            },
    )
}

/// Whether two paths are the same but for the kind of their separators.
pub open spec fn alike(path: Seq<char>, other: Seq<char>) -> bool {
    with_slashes(path) == with_slashes(other)
}

/// `PathBuf::push`: an ordinary path is put after another one, with a separator of the platform
/// between the two, and stands alone after an empty one. Nothing is said here of other paths,
/// which each platform treats in its own way.
#[verifier::external_body]
fn push_path(base: &str, part: &str) -> (path: String)
    ensures
        ordinary(part@) && (base@.len() == 0 || ordinary(base@)) ==> alike(
            path@,
            joined(base@, part@),
        ),
{
    let mut path = std::path::PathBuf::from(base);
    path.push(part);
    path.display().to_string()
}

/// `Path::with_extension`: where an ordinary path ends in `.out`, after at least one character of
/// the file name, the new extension takes the place of `out`. Nothing is said here of other paths.
#[verifier::external_body]
fn replace_extension(path: &str, extension: &str) -> (changed: String)
    requires
        forall|i: int| 0 <= i < extension@.len() ==> !separator(#[trigger] extension@[i]),
    ensures
        has_out_extension(path@) ==> changed@ == path@.take(path@.len() - 4) + "."@ + extension@,
{
    std::path::Path::new(path).with_extension(extension).display().to_string()
}

/// Whether `path` is ordinary and ends in `.out`, after at least one character of the file name.
pub open spec fn has_out_extension(path: Seq<char>) -> bool {
    &&& ordinary(path)
    &&& path.len() > 4
    &&& path.skip(path.len() - 4) == ".out"@
    &&& !separator(path[path.len() - 5])
}

/// Goes from the path `base` to the path `part`, by the rules of the platform.
fn join_on(platform: Platform, base: &str, part: &str) -> (path: String)
    ensures
        platform != Platform::NonUnix ==> path@ == joined(base@, part@),
        ordinary(part@) && (base@.len() == 0 || ordinary(base@)) ==> alike(
            path@,
            joined(base@, part@),
        ),
{
    if platform == Platform::NonUnix {
        push_path(base, part)
    } else {
        join(base, part)
    }
}

proof fn lemma_ordinary_alike(path: Seq<char>, other: Seq<char>)
    requires
        alike(path, other),
        ordinary(path),
    ensures
        ordinary(other),
{
    assert(with_slashes(path).len() == with_slashes(other).len());
    assert(with_slashes(path)[0] == with_slashes(other)[0]);
    let last = path.len() - 1;
    assert(with_slashes(path)[last] == with_slashes(other)[last]);
    assert forall|i: int| 0 <= i < other.len() implies #[trigger] other[i] != ':' by {
        assert(with_slashes(path)[i] == with_slashes(other)[i]);
        assert(path[i] != ':');
    }
}

proof fn lemma_joined_ordinary(base: Seq<char>, part: Seq<char>)
    requires
        base.len() == 0 || ordinary(base),
        ordinary(part),
    ensures
        ordinary(joined(base, part)),
{
    let path = joined(base, part);
    assert forall|i: int| 0 <= i < path.len() implies #[trigger] path[i] != ':' by {
        if i < base.len() {
            assert(path[i] == base[i]);
        } else if base.len() == 0 {
            assert(path[i] == part[i]);
        } else if i > base.len() {
            assert(path[i] == part[i - base.len() - 1]);
        }
    }
}

proof fn lemma_joined_alike(base: Seq<char>, other: Seq<char>, part: Seq<char>, rest: Seq<char>)
    requires
        alike(base, other),
        alike(part, rest),
        base.len() == 0 || ordinary(base),
        ordinary(part),
    ensures
        alike(joined(base, part), joined(other, rest)),
{
    lemma_ordinary_alike(part, rest);
    assert(with_slashes(base).len() == with_slashes(other).len());
    assert(with_slashes(part).len() == with_slashes(rest).len());
    if base.len() > 0 {
        lemma_ordinary_alike(base, other);
    }
    let path = joined(base, part);
    let second = joined(other, rest);
    assert forall|i: int| 0 <= i < path.len() implies with_slashes(path)[i] == with_slashes(
        second,
    )[i] by {
        if i < base.len() {
            assert(with_slashes(base)[i] == with_slashes(other)[i]);
        } else if base.len() == 0 {
            assert(with_slashes(part)[i] == with_slashes(rest)[i]);
        } else if i > base.len() {
            let k = i - base.len() - 1;
            assert(with_slashes(part)[k] == with_slashes(rest)[k]);
        }
    }
    assert(with_slashes(path) =~= with_slashes(second));
}

/// The directory below which all results are kept.
pub open spec fn target() -> Seq<char> {
    "target/iai"@
}

/// The name of the file with the results of a benchmark function.
pub open spec fn result_name(function_name: Seq<char>) -> Seq<char> {
    "callgrind."@ + function_name + ".out"@
}

/// The file with the results of a benchmark function, on Unix: `callgrind.<function>.out`, in a
/// directory below the target directory that follows the module path.
pub open spec fn result_file(module: Seq<char>, function_name: Seq<char>) -> Seq<char> {
    joined(joined(target(), path_through(segments(module))), result_name(function_name))
}

/// Whether the parts of a module path and a function name are ordinary on every platform.
pub open spec fn ordinary_names(module: Seq<char>, function_name: Seq<char>) -> bool {
    &&& forall|i: int| 0 <= i < segments(module).len() ==> ordinary(#[trigger] segments(module)[i])
    &&& forall|i: int| 0 <= i < function_name.len() ==> #[trigger] function_name[i] != ':'
}

/// Whether `path` is the file with the results of a benchmark function. Where paths are not those
/// of Unix, it is the same file for ordinary names, but for the kind of the separators.
pub open spec fn is_result_file(
    path: Seq<char>,
    platform: Platform,
    module: Seq<char>,
    function_name: Seq<char>,
) -> bool {
    if platform != Platform::NonUnix {
        path == result_file(module, function_name)
    } else {
        ordinary_names(module, function_name) ==> ordinary(path) && alike(
            path,
            result_file(module, function_name),
        )
    }
}

/// The file to which callgrind writes the results of a benchmark function. Where paths are not
/// those of Unix, nothing is stated of names that are not ordinary: the standard library puts
/// them together by rules of the platform.
pub fn output_file(platform: Platform, module: &str, function_name: &str) -> (path: String)
    ensures
        is_result_file(path@, platform, module@, function_name@),
{
    let parts = split_module(module);
    let mut directory = String::new();
    let ghost all = segments(module@);
    let ghost names = ordinary_names(module@, function_name@);
    assert(all.take(0) =~= Seq::empty());
    for i in 0..parts.len()
        invariant
            texts(parts@) == all,
            all == segments(module@),
            names == ordinary_names(module@, function_name@),
            platform != Platform::NonUnix ==> directory@ == path_through(all.take(i as int)),
            names ==> alike(directory@, path_through(all.take(i as int))),
            names ==> directory@.len() == 0 || ordinary(directory@),
            names && i > 0 ==> directory@.len() > 0,
    {
        assert(all[i as int] == parts@[i as int]@);
        assert(all.take(i + 1).drop_last() =~= all.take(i as int));
        let ghost before = directory@;
        directory = join_on(platform, directory.as_str(), parts[i].as_str());
        proof {
            if names {
                let part = all[i as int];
                assert(ordinary(part));
                lemma_joined_ordinary(before, part);
                lemma_ordinary_alike(joined(before, part), directory@);
                lemma_joined_alike(before, path_through(all.take(i as int)), part, part);
            }
        }
    }
    assert(all.take(all.len() as int) =~= all);
    let mut name = "callgrind.".to_owned();
    name.append(function_name);
    name.append(".out");
    let target = join_on(platform, "target/iai", directory.as_str());
    let path = join_on(platform, target.as_str(), name.as_str());
    proof {
        if names {
            lemma_segments_not_empty(module@);
            lemma_name_ordinary(function_name@);
            let through = path_through(all);
            let first = joined("target/iai"@, directory@);
            lemma_joined_ordinary("target/iai"@, directory@);
            lemma_ordinary_alike(first, target@);
            lemma_joined_alike("target/iai"@, "target/iai"@, directory@, through);
            lemma_joined_alike(target@, joined("target/iai"@, through), name@, name@);
            lemma_joined_ordinary(target@, name@);
            lemma_ordinary_alike(joined(target@, name@), path@);
        }
    }
    path
}

proof fn lemma_name_ordinary(function_name: Seq<char>)
    requires
        forall|i: int| 0 <= i < function_name.len() ==> #[trigger] function_name[i] != ':',
    ensures
        ordinary(result_name(function_name)),
        ordinary("target/iai"@),
{
    reveal_strlit("callgrind.");
    reveal_strlit(".out");
    reveal_strlit("target/iai");
    let name = result_name(function_name);
    assert forall|i: int| 0 <= i < name.len() implies #[trigger] name[i] != ':' by {
        if 10 <= i < 10 + function_name.len() {
            assert(name[i] == function_name[i - 10]);
        }
    }
}

/// The place of the last `wanted` in `text`, or -1 where there is none.
pub open spec fn last_place(text: Seq<char>, wanted: char) -> int
    decreases text.len(),
{
    if text.len() == 0 {
        -1
    } else if text.last() == wanted {
        text.len() - 1
    } else {
        last_place(text.drop_last(), wanted)
    }
}

/// Where the extension of the file name in `path` starts, with its dot. A dot at the very start
/// of the file name belongs to the name.
pub open spec fn extension_start(path: Seq<char>) -> int {
    if last_place(path, '.') > last_place(path, '/') + 1 {
        last_place(path, '.')
    } else {
        path.len() as int
    }
}

/// `path`, which ends in a file name, with another extension.
pub open spec fn with_extension(path: Seq<char>, extension: Seq<char>) -> Seq<char> {
    path.take(extension_start(path)) + "."@ + extension
}

/// The file that keeps the results of the run before, on Unix.
pub open spec fn backup_file(result_file: Seq<char>) -> Seq<char> {
    with_extension(result_file, "out.old"@)
}

/// Whether `path` is the file that keeps the results of the run before. Where paths are not those
/// of Unix, it is the result file with `.old` after it, if that one ends in an extension.
pub open spec fn is_backup_file(
    path: Seq<char>,
    platform: Platform,
    result_file: Seq<char>,
) -> bool {
    if platform != Platform::NonUnix {
        path == backup_file(result_file)
    } else {
        has_out_extension(result_file) ==> path == result_file + ".old"@
    }
}

/// The file to which the results in `output_file` are moved before the next run. Where paths are
/// not those of Unix, nothing is stated of a file that is not ordinary or without an extension.
pub fn old_file(platform: Platform, output_file: &str) -> (path: String)
    ensures
        is_backup_file(path@, platform, output_file@),
{
    if platform == Platform::NonUnix {
        proof {
            reveal_strlit("out.old");
        }
        let path = replace_extension(output_file, "out.old");
        proof {
            reveal_strlit(".out");
            reveal_strlit(".old");
            reveal_strlit(".");
            if has_out_extension(output_file@) {
                let n = output_file@.len() as int;
                let ending = output_file@.skip(n - 4);
                assert(ending[0] == '.' && ending[1] == 'o' && ending[2] == 'u' && ending[3]
                    == 't');
                assert(output_file@[n - 4] == '.' && output_file@[n - 3] == 'o'
                    && output_file@[n - 2] == 'u' && output_file@[n - 1] == 't');
                assert(path@ =~= output_file@ + ".old"@);
            }
        }
        return path;
    }
    let chars = chars_of(output_file);
    let ghost whole = output_file@;
    let mut end: usize = chars.len();
    let mut at: usize = chars.len();
    assert(whole.take(whole.len() as int) =~= whole);
    while at > 0 && chars[at - 1] != '.' && chars[at - 1] != '/'
        invariant
            chars@ == whole,
            at <= whole.len(),
            last_place(whole, '.') == last_place(whole.take(at as int), '.'),
            last_place(whole, '/') == last_place(whole.take(at as int), '/'),
        decreases at,
    {
        assert(whole.take(at as int).drop_last() =~= whole.take(at - 1));
        at = at - 1;
    }
    if at > 1 && chars[at - 1] == '.' && chars[at - 2] != '/' {
        end = at - 1;
        proof {
            assert(whole.take(at as int).drop_last() =~= whole.take(at - 1));
            assert(whole.take(at - 1).drop_last() =~= whole.take(at - 2));
            assert(last_place(whole.take(at as int), '.') == at - 1);
            assert(last_place(whole.take(at as int), '/') == last_place(whole.take(at - 1), '/'));
            assert(last_place(whole.take(at - 1), '/') == last_place(whole.take(at - 2), '/'));
            lemma_last_place_bound(whole.take(at - 2), '/');
        }
    } else {
        proof {
            lemma_last_place_bound(whole.take(at as int), '.');
            lemma_last_place_bound(whole.take(at as int), '/');
            if at > 0 && whole[at - 1] == '.' {
                assert(whole.take(at as int).drop_last() =~= whole.take(at - 1));
                assert(last_place(whole.take(at as int), '/') == last_place(
                    whole.take(at - 1),
                    '/',
                ));
                lemma_last_place_bound(whole.take(at - 1), '/');
                if at > 1 {
                    assert(last_place(whole.take(at - 1), '/') == at - 2);
                }
            } else if at > 0 {
                assert(last_place(whole.take(at as int), '/') == at - 1);
            }
            assert(extension_start(whole) == whole.len());
        }
    }
    let mut path = output_file.substring_char(0, end).to_owned();
    assert(path@ =~= whole.take(extension_start(whole)));
    path.append(".");
    path.append("out.old");
    path
}

proof fn lemma_last_place_bound(text: Seq<char>, wanted: char)
    ensures
        -1 <= last_place(text, wanted) < text.len(),
        last_place(text, wanted) >= 0 ==> text[last_place(text, wanted)] == wanted,
    decreases text.len(),
{
    if text.len() > 0 && text.last() != wanted {
        lemma_last_place_bound(text.drop_last(), wanted);
    }
}

/// What stands in front of the name of the result file, for every function of a module.
spec fn directory_prefix(module: Seq<char>) -> Seq<char> {
    let directory = joined(target(), path_through(segments(module)));
    if directory.len() == 0 || directory.last() == '/' {
        directory
    } else {
        directory + seq!['/']
    }
}

proof fn lemma_result_file_shape(module: Seq<char>, function_name: Seq<char>)
    ensures
        result_file(module, function_name) == directory_prefix(module) + result_name(function_name),
{
    reveal_strlit("callgrind.");
    assert(result_name(function_name)[0] == 'c');
}

/// Two functions of one module never share a result file.
pub proof fn lemma_result_files_differ(
    module: Seq<char>,
    function_name: Seq<char>,
    other: Seq<char>,
)
    requires
        function_name != other,
    ensures
        result_file(module, function_name) != result_file(module, other),
{
    lemma_result_file_shape(module, function_name);
    lemma_result_file_shape(module, other);
    let start = directory_prefix(module) + "callgrind."@;
    let path = result_file(module, function_name);
    let path_of_other = result_file(module, other);
    assert(path =~= start + function_name + ".out"@);
    assert(path_of_other =~= start + other + ".out"@);
    if path == path_of_other {
        let from = start.len() as int;
        assert(path.subrange(from, from + function_name.len()) =~= function_name);
        assert(path_of_other.subrange(from, from + other.len()) =~= other);
    }
}

/// The results of the run before are kept beside the results, under the same name with `.old`
/// after it. A function name that ends in `/` is the one exception: the name of the result file
/// is then `.out` alone, which is no extension.
pub proof fn lemma_backup_is_beside_results(module: Seq<char>, function_name: Seq<char>)
    ensures
        function_name.len() == 0 || function_name.last() != '/' ==> backup_file(
            result_file(module, function_name),
        ) == result_file(module, function_name) + ".old"@,
        function_name.len() > 0 && function_name.last() == '/' ==> backup_file(
            result_file(module, function_name),
        ) == result_file(module, function_name) + ".out.old"@,
{
    lemma_result_file_shape(module, function_name);
    reveal_strlit("callgrind.");
    reveal_strlit(".out");
    reveal_strlit(".old");
    reveal_strlit("out.old");
    reveal_strlit(".out.old");
    reveal_strlit(".");
    let path = result_file(module, function_name);
    let n = path.len() as int;
    assert(path[n - 4] == '.' && path[n - 3] == 'o' && path[n - 2] == 'u' && path[n - 1] == 't');
    lemma_last_place_at(path, '.', n - 4);
    if function_name.len() > 0 {
        assert(path[n - 5] == function_name.last());
    } else {
        assert(path[n - 5] == '.');
    }
    if path[n - 5] == '/' {
        lemma_last_place_at(path, '/', n - 5);
        assert(backup_file(path) =~= path + ".out.old"@);
    } else {
        lemma_last_place_before(path, '/', n - 5);
        assert(backup_file(path) =~= path + ".old"@);
    }
}

/// Where paths are not those of Unix, the results of the run before are kept beside the results
/// too, under the same name with `.old` after it: for ordinary names, with no separator at the end
/// of the function name.
pub proof fn lemma_backup_is_beside_results_elsewhere(
    path: Seq<char>,
    backup: Seq<char>,
    module: Seq<char>,
    function_name: Seq<char>,
)
    requires
        is_result_file(path, Platform::NonUnix, module, function_name),
        is_backup_file(backup, Platform::NonUnix, path),
        ordinary_names(module, function_name),
        function_name.len() == 0 || !separator(function_name.last()),
    ensures
        backup == path + ".old"@,
{
    lemma_result_file_shape(module, function_name);
    reveal_strlit("callgrind.");
    reveal_strlit(".out");
    let result = result_file(module, function_name);
    let n = path.len() as int;
    assert(with_slashes(path).len() == with_slashes(result).len());
    assert(result[n - 4] == '.' && result[n - 3] == 'o' && result[n - 2] == 'u' && result[n - 1]
        == 't');
    if function_name.len() > 0 {
        assert(result[n - 5] == function_name.last());
    } else {
        assert(result[n - 5] == '.');
    }
    assert forall|i: int| n - 5 <= i < n implies #[trigger] path[i] == result[i] by {
        assert(with_slashes(path)[i] == with_slashes(result)[i]);
        assert(!separator(result[i]));
    }
    assert(path.skip(n - 4) =~= ".out"@);
}

proof fn lemma_last_place_at(text: Seq<char>, wanted: char, place: int)
    requires
        0 <= place < text.len(),
        text[place] == wanted,
        forall|i: int| place < i < text.len() ==> text[i] != wanted,
    ensures
        last_place(text, wanted) == place,
    decreases text.len(),
{
    if place < text.len() - 1 {
        lemma_last_place_at(text.drop_last(), wanted, place);
    }
}

proof fn lemma_last_place_before(text: Seq<char>, wanted: char, place: int)
    requires
        0 <= place <= text.len(),
        forall|i: int| place <= i < text.len() ==> text[i] != wanted,
    ensures
        last_place(text, wanted) < place,
    decreases text.len(),
{
    lemma_last_place_bound(text, wanted);
    if place < text.len() {
        lemma_last_place_before(text.drop_last(), wanted, place);
    }
}

/// Keeping the results of a run never overwrites the results of any benchmark.
pub proof fn lemma_backup_is_no_result_file(
    result_path: Seq<char>,
    module: Seq<char>,
    function_name: Seq<char>,
)
    ensures
        backup_file(result_path) != result_file(module, function_name),
{
    lemma_result_file_shape(module, function_name);
    reveal_strlit(".out");
    reveal_strlit("out.old");
    assert(result_file(module, function_name).last() == 't');
    assert(backup_file(result_path).last() == 'd');
}

/// The results of a module path without an absolute path among its parts are kept below the
/// target directory.
pub proof fn lemma_results_below_target(module: Seq<char>, function_name: Seq<char>)
    requires
        forall|i: int|
            0 <= i < segments(module).len() ==> {
                let part = #[trigger] segments(module)[i];
                part.len() == 0 || part[0] != '/'
            },
    ensures
        (target() + seq!['/']).is_prefix_of(result_file(module, function_name)),
{
    lemma_relative_path(segments(module));
    lemma_result_file_shape(module, function_name);
    reveal_strlit("target/iai");
    let below = target() + seq!['/'];
    let directory = joined(target(), path_through(segments(module)));
    assert(directory =~= below + path_through(segments(module)));
    let path = result_file(module, function_name);
    assert(path.subrange(0, below.len() as int) =~= below);
}

proof fn lemma_relative_path(parts: Seq<Seq<char>>)
    requires
        forall|i: int|
            0 <= i < parts.len() ==> {
                let part = #[trigger] parts[i];
                part.len() == 0 || part[0] != '/'
            },
    ensures
        path_through(parts).len() == 0 || path_through(parts)[0] != '/',
    decreases parts.len(),
{
    if parts.len() > 0 {
        assert forall|i: int| 0 <= i < parts.drop_last().len() implies {
            let part = #[trigger] parts.drop_last()[i];
            part.len() == 0 || part[0] != '/'
        } by {
            assert(parts.drop_last()[i] == parts[i]);
        }
        lemma_relative_path(parts.drop_last());
        let part = parts[parts.len() - 1];
        assert(part.len() == 0 || part[0] != '/');
    }
}

/// A module path without `::` is its own only part.
pub proof fn lemma_part_alone(module: Seq<char>)
    requires
        forall|i: int| 0 <= i < module.len() - 1 && #[trigger] module[i] == ':' ==> module[i + 1] != ':',
    ensures
        segments(module) == seq![module],
    decreases module.len(),
{
    if module.len() == 0 {
        assert(module =~= Seq::empty());
        assert(segments(module) =~= seq![module]);
    } else {
        let tail = module.drop_first();
        assert(!(module.len() >= 2 && module[0] == ':' && module[1] == ':'));
        assert forall|i: int| 0 <= i < tail.len() - 1 && #[trigger] tail[i] == ':' implies tail[i
            + 1] != ':' by {
            assert(tail[i] == module[i + 1]);
        }
        lemma_part_alone(tail);
        assert(seq![module[0]] + tail =~= module);
        assert(segments(module) =~= seq![module]);
    }
}

/// A `::` separates: the parts of a module path are those before it and then those after it. What
/// stands before must not end in a colon, since the first two of three colons separate.
pub proof fn lemma_parts_on_both_sides(before: Seq<char>, after: Seq<char>)
    requires
        before.len() == 0 || before.last() != ':',
    ensures
        segments(before + seq![':', ':'] + after) == segments(before) + segments(after),
    decreases before.len(),
{
    let module = before + seq![':', ':'] + after;
    if before.len() == 0 {
        assert(module.skip(2) =~= after);
        assert(segments(module) =~= segments(before) + segments(after));
    } else if before.len() >= 2 && before[0] == ':' && before[1] == ':' {
        assert(module.skip(2) =~= before.skip(2) + seq![':', ':'] + after);
        lemma_parts_on_both_sides(before.skip(2), after);
        assert(segments(module) =~= segments(before) + segments(after));
    } else {
        let tail = before.drop_first();
        if before.len() >= 2 {
            assert(module[1] == before[1]);
        }
        assert(module.drop_first() =~= tail + seq![':', ':'] + after);
        lemma_parts_on_both_sides(tail, after);
        lemma_segments_not_empty(tail);
        assert(segments(module) =~= segments(before) + segments(after));
    }
}

/// Parts without colons are what is found in the module path that they make up.
pub proof fn lemma_module_has_its_parts(parts: Seq<Seq<char>>)
    requires
        parts.len() > 0,
        forall|i: int, j: int|
            0 <= i < parts.len() && 0 <= j < parts[i].len() ==> #[trigger] parts[i][j] != ':',
    ensures
        segments(module_of(parts)) == parts,
    decreases parts.len(),
{
    let first = parts[0];
    assert forall|j: int| 0 <= j < first.len() implies #[trigger] first[j] != ':' by {
        assert(parts[0][j] != ':');
    }
    lemma_part_alone(first);
    if parts.len() == 1 {
        assert(parts =~= seq![first]);
    } else {
        let tail = parts.drop_first();
        assert forall|i: int, j: int|
            0 <= i < tail.len() && 0 <= j < tail[i].len() implies #[trigger] tail[i][j] != ':' by {
            assert(parts[i + 1][j] != ':');
        }
        lemma_module_has_its_parts(tail);
        lemma_parts_on_both_sides(first, module_of(tail));
        assert(parts =~= seq![first] + tail);
    }
}

/// From nowhere a path leads nowhere, and one more part leads on from where the parts before it
/// lead.
pub proof fn lemma_path_goes_on(parts: Seq<Seq<char>>, part: Seq<char>)
    ensures
        path_through(Seq::empty()) == Seq::<char>::empty(),
        path_through(parts.push(part)) == joined(path_through(parts), part),
{
    assert(parts.push(part).drop_last() =~= parts);
}

/// A path that starts with `/` stands for itself. Any other one stands behind the path that it
/// is seen from, with exactly one `/` more between the two where that path is neither empty nor
/// ends in one.
pub proof fn lemma_joined_by_one_slash(base: Seq<char>, part: Seq<char>)
    ensures
        part.len() > 0 && part[0] == '/' ==> joined(base, part) == part,
        part.len() == 0 || part[0] != '/' ==> {
            &&& base.is_prefix_of(joined(base, part))
            &&& joined(base, part).skip(joined(base, part).len() - part.len()) == part
            &&& base.len() == 0 || base.last() == '/' ==> joined(base, part).len() == base.len()
                + part.len()
            &&& base.len() > 0 && base.last() != '/' ==> joined(base, part).len() == base.len() + 1
                + part.len() && joined(base, part)[base.len() as int] == '/'
        },
{
    let path = joined(base, part);
    if part.len() == 0 || part[0] != '/' {
        assert(path.subrange(0, base.len() as int) =~= base);
        assert(path.skip(path.len() - part.len()) =~= part);
    }
}

/// `parts` with a `/` after each of them.
pub open spec fn directories(parts: Seq<Seq<char>>) -> Seq<char>
    decreases parts.len(),
{
    if parts.len() == 0 {
        Seq::empty()
    } else {
        directories(parts.drop_last()) + parts.last() + seq!['/']
    }
}

/// Whether `part` names a directory: there is something in it, but no `/`.
pub open spec fn names_directory(part: Seq<char>) -> bool {
    part.len() > 0 && forall|j: int| 0 <= j < part.len() ==> #[trigger] part[j] != '/'
}

proof fn lemma_path_is_directories(parts: Seq<Seq<char>>)
    requires
        parts.len() > 0,
        forall|i: int| 0 <= i < parts.len() ==> names_directory(#[trigger] parts[i]),
    ensures
        path_through(parts) + seq!['/'] == directories(parts),
        path_through(parts).len() > 0,
        path_through(parts)[0] != '/',
        path_through(parts).last() != '/',
    decreases parts.len(),
{
    let front = parts.drop_last();
    let part = parts[parts.len() - 1];
    assert(names_directory(part));
    assert(part[0] != '/');
    assert(part[part.len() - 1] != '/');
    if front.len() > 0 {
        assert forall|i: int| 0 <= i < front.len() implies names_directory(#[trigger] front[i]) by {
            assert(front[i] == parts[i]);
        }
        lemma_path_is_directories(front);
        assert(path_through(parts) =~= directories(front) + part);
    } else {
        assert(path_through(front) =~= Seq::empty());
        assert(directories(front) =~= Seq::empty());
        assert(path_through(parts) =~= part);
    }
    assert(path_through(parts) + seq!['/'] =~= directories(parts));
}

/// The result file of a module whose parts name directories: below the target directory, through
/// every part in order, with the function in its name.
pub proof fn lemma_result_file_follows_module(module: Seq<char>, function_name: Seq<char>)
    requires
        forall|i: int|
            0 <= i < segments(module).len() ==> names_directory(#[trigger] segments(module)[i]),
    ensures
        result_file(module, function_name) == "target/iai/"@ + directories(segments(module))
            + "callgrind."@ + function_name + ".out"@,
{
    let parts = segments(module);
    lemma_segments_not_empty(module);
    lemma_path_is_directories(parts);
    lemma_result_file_shape(module, function_name);
    reveal_strlit("target/iai");
    reveal_strlit("target/iai/");
    let through = path_through(parts);
    assert("target/iai/"@ =~= "target/iai"@ + seq!['/']);
    assert(joined(target(), through) =~= "target/iai/"@ + through);
    assert(joined(target(), through).last() == through.last());
    assert(result_file(module, function_name) =~= "target/iai/"@ + (through + seq!['/'])
        + "callgrind."@ + function_name + ".out"@);
}

/// The result file of the module that parts without colons make up, in terms of those parts.
pub proof fn lemma_result_file_of_parts(parts: Seq<Seq<char>>, function_name: Seq<char>)
    requires
        parts.len() > 0,
        forall|i: int| 0 <= i < parts.len() ==> names_directory(#[trigger] parts[i]),
        forall|i: int, j: int|
            0 <= i < parts.len() && 0 <= j < parts[i].len() ==> #[trigger] parts[i][j] != ':',
    ensures
        result_file(module_of(parts), function_name) == "target/iai/"@ + directories(parts)
            + "callgrind."@ + function_name + ".out"@,
{
    lemma_module_has_its_parts(parts);
    lemma_result_file_follows_module(module_of(parts), function_name);
}

/// For every module path, the result file stands in the directory that its parts lead to from the
/// target directory.
pub proof fn lemma_result_file_in_directory(module: Seq<char>, function_name: Seq<char>)
    ensures
        result_file(module, function_name) == joined(
            joined("target/iai"@, path_through(segments(module))),
            "callgrind."@ + function_name + ".out"@,
        ),
{
}

proof fn lemma_split_at_last_slash(
    front: Seq<char>,
    name: Seq<char>,
    other: Seq<char>,
    other_name: Seq<char>,
)
    requires
        front + name == other + other_name,
        front.len() == 0 || front.last() == '/',
        other.len() == 0 || other.last() == '/',
        forall|j: int| 0 <= j < name.len() ==> #[trigger] name[j] != '/',
        forall|j: int| 0 <= j < other_name.len() ==> #[trigger] other_name[j] != '/',
    ensures
        front == other,
        name == other_name,
{
    let whole = front + name;
    if front.len() < other.len() {
        let j = other.len() - 1 - front.len();
        assert(whole[other.len() - 1] == other.last());
        assert(whole[other.len() - 1] == name[j]);
    } else if other.len() < front.len() {
        let j = front.len() - 1 - other.len();
        assert((other + other_name)[front.len() - 1] == other_name[j]);
        assert(whole[front.len() - 1] == front.last());
    }
    assert(front =~= whole.take(front.len() as int));
    assert(other =~= (other + other_name).take(front.len() as int));
    assert(name =~= whole.skip(front.len() as int));
    assert(other_name =~= (other + other_name).skip(front.len() as int));
}

proof fn lemma_directories_differ(parts: Seq<Seq<char>>, others: Seq<Seq<char>>)
    requires
        forall|i: int| 0 <= i < parts.len() ==> names_directory(#[trigger] parts[i]),
        forall|i: int| 0 <= i < others.len() ==> names_directory(#[trigger] others[i]),
        directories(parts) == directories(others),
    ensures
        parts == others,
    decreases parts.len(),
{
    if parts.len() == 0 {
        if others.len() > 0 {
            assert(directories(others).last() == '/');
        }
        assert(parts =~= others);
    } else if others.len() == 0 {
        assert(directories(parts).last() == '/');
    } else {
        let front = parts.drop_last();
        let rest = others.drop_last();
        let part = parts[parts.len() - 1];
        let other = others[others.len() - 1];
        assert(names_directory(part) && names_directory(other));
        assert forall|i: int| 0 <= i < front.len() implies names_directory(#[trigger] front[i]) by {
            assert(front[i] == parts[i]);
        }
        assert forall|i: int| 0 <= i < rest.len() implies names_directory(#[trigger] rest[i]) by {
            assert(rest[i] == others[i]);
        }
        let n = directories(parts).len() - 1;
        assert(directories(parts).take(n) =~= directories(front) + part);
        assert(directories(others).take(n) =~= directories(rest) + other);
        lemma_split_at_last_slash(directories(front), part, directories(rest), other);
        lemma_directories_differ(front, rest);
        assert(parts =~= front.push(part));
        assert(others =~= rest.push(other));
    }
}

/// Different benchmarks never share a result file: neither two functions of one module, nor
/// functions of two modules, as long as the parts of the modules name directories and there is no
/// `/` in the function names.
pub proof fn lemma_benchmarks_do_not_share_files(
    module: Seq<char>,
    function_name: Seq<char>,
    other_module: Seq<char>,
    other_name: Seq<char>,
)
    requires
        forall|i: int|
            0 <= i < segments(module).len() ==> names_directory(#[trigger] segments(module)[i]),
        forall|i: int|
            0 <= i < segments(other_module).len() ==> names_directory(
                #[trigger] segments(other_module)[i],
            ),
        forall|j: int| 0 <= j < function_name.len() ==> #[trigger] function_name[j] != '/',
        forall|j: int| 0 <= j < other_name.len() ==> #[trigger] other_name[j] != '/',
        module != other_module || function_name != other_name,
    ensures
        result_file(module, function_name) != result_file(other_module, other_name),
{
    if result_file(module, function_name) == result_file(other_module, other_name) {
        lemma_result_file_follows_module(module, function_name);
        lemma_result_file_follows_module(other_module, other_name);
        reveal_strlit("target/iai/");
        reveal_strlit("callgrind.");
        reveal_strlit(".out");
        let front = "target/iai/"@ + directories(segments(module));
        let other_front = "target/iai/"@ + directories(segments(other_module));
        let name = "callgrind."@ + function_name + ".out"@;
        let file = "callgrind."@ + other_name + ".out"@;
        assert(front + name =~= result_file(module, function_name));
        assert(other_front + file =~= result_file(other_module, other_name));
        lemma_no_slash_in_name(function_name);
        lemma_no_slash_in_name(other_name);
        lemma_segments_not_empty(module);
        lemma_segments_not_empty(other_module);
        assert(directories(segments(module)).last() == '/');
        assert(directories(segments(other_module)).last() == '/');
        lemma_split_at_last_slash(front, name, other_front, file);
        assert(directories(segments(module)) =~= front.skip(11));
        assert(directories(segments(other_module)) =~= other_front.skip(11));
        lemma_directories_differ(segments(module), segments(other_module));
        lemma_segments_make_up_module(module);
        lemma_segments_make_up_module(other_module);
        assert(function_name =~= name.subrange(10, name.len() - 4));
        assert(other_name =~= file.subrange(10, file.len() - 4));
    }
}

proof fn lemma_no_slash_in_name(function_name: Seq<char>)
    requires
        forall|j: int| 0 <= j < function_name.len() ==> #[trigger] function_name[j] != '/',
    ensures
        forall|j: int|
            0 <= j < ("callgrind."@ + function_name + ".out"@).len() ==> #[trigger] ("callgrind."@
                + function_name + ".out"@)[j] != '/',
{
    reveal_strlit("callgrind.");
    reveal_strlit(".out");
    let name = "callgrind."@ + function_name + ".out"@;
    assert forall|j: int| 0 <= j < name.len() implies #[trigger] name[j] != '/' by {
        if 10 <= j < 10 + function_name.len() {
            assert(name[j] == function_name[j - 10]);
        }
    }
}

/// The extension of a result file gives way to `out.old`: what stands in front of the last dot of
/// the file name, as long as that is not the start of the name, is kept.
pub proof fn lemma_backup_replaces_extension(
    directory: Seq<char>,
    stem: Seq<char>,
    extension: Seq<char>,
)
    requires
        directory.len() == 0 || directory.last() == '/',
        stem.len() > 0,
        forall|j: int| 0 <= j < stem.len() ==> #[trigger] stem[j] != '/',
        forall|j: int|
            0 <= j < extension.len() ==> #[trigger] extension[j] != '/' && extension[j] != '.',
    ensures
        backup_file(directory + stem + seq!['.'] + extension) == directory + stem + ".out.old"@,
{
    reveal_strlit(".");
    reveal_strlit("out.old");
    reveal_strlit(".out.old");
    let path = directory + stem + seq!['.'] + extension;
    let dot = directory.len() + stem.len() as int;
    assert(path[dot] == '.');
    assert forall|i: int| dot < i < path.len() implies path[i] != '.' by {
        assert(path[i] == extension[i - dot - 1]);
    }
    lemma_last_place_at(path, '.', dot);
    lemma_last_place_before(path, '/', directory.len() as int);
    assert(backup_file(path) =~= directory + stem + ".out.old"@);
}

/// A file name without a dot, other than one at its start, has no extension to replace: `out.old`
/// stands behind all of it.
pub proof fn lemma_backup_adds_extension(directory: Seq<char>, name: Seq<char>)
    requires
        directory.len() == 0 || directory.last() == '/',
        name.len() > 0,
        forall|j: int| 0 <= j < name.len() ==> #[trigger] name[j] != '/',
        forall|j: int| 0 < j < name.len() ==> #[trigger] name[j] != '.',
    ensures
        backup_file(directory + name) == directory + name + ".out.old"@,
{
    reveal_strlit(".");
    reveal_strlit("out.old");
    reveal_strlit(".out.old");
    let path = directory + name;
    let n = directory.len() as int;
    assert forall|i: int| n + 1 <= i < path.len() implies path[i] != '.' by {
        assert(path[i] == name[i - n]);
    }
    lemma_last_place_before(path, '.', n + 1);
    if n > 0 {
        assert(path[n - 1] == '/');
        assert forall|i: int| n - 1 < i < path.len() implies path[i] != '/' by {
            assert(path[i] == name[i - n]);
        }
        lemma_last_place_at(path, '/', n - 1);
    } else {
        lemma_last_place_bound(path, '/');
    }
    assert(path.take(path.len() as int) =~= path);
    assert(backup_file(path) =~= path + ".out.old"@);
}

/// On Unix there is one result file for each benchmark, and one backup for each result file.
pub proof fn lemma_files_on_unix(
    path: Seq<char>,
    platform: Platform,
    module: Seq<char>,
    function_name: Seq<char>,
)
    requires
        platform != Platform::NonUnix,
    ensures
        is_result_file(path, platform, module, function_name) <==> path == result_file(
            module,
            function_name,
        ),
        forall|backup: Seq<char>|
            #[trigger] is_backup_file(backup, platform, path) <==> backup == backup_file(path),
{
}

/// Two paths are the same but for their separators exactly where they are as long as each other
/// and, place by place, have the same character or a separator each.
pub proof fn lemma_alike_but_for_separators(path: Seq<char>, other: Seq<char>)
    ensures
        alike(path, other) <==> path.len() == other.len() && forall|i: int|
            0 <= i < path.len() ==> #[trigger] path[i] == other[i] || ((path[i] == '/' || path[i]
                == '\\') && (other[i] == '/' || other[i] == '\\')),
{
    if alike(path, other) {
        assert(with_slashes(path).len() == with_slashes(other).len());
        assert forall|i: int| 0 <= i < path.len() implies #[trigger] path[i] == other[i] || ((
        path[i] == '/' || path[i] == '\\') && (other[i] == '/' || other[i] == '\\')) by {
            assert(with_slashes(path)[i] == with_slashes(other)[i]);
        }
    }
    if path.len() == other.len() && forall|i: int|
        0 <= i < path.len() ==> #[trigger] path[i] == other[i] || ((path[i] == '/' || path[i]
            == '\\') && (other[i] == '/' || other[i] == '\\')) {
        assert(with_slashes(path) =~= with_slashes(other));
    }
}

/// Where paths are not those of Unix, the result file of parts without separators and colons is
/// the same as on Unix, but for the kind of its separators.
pub proof fn lemma_result_file_of_parts_elsewhere(
    path: Seq<char>,
    parts: Seq<Seq<char>>,
    function_name: Seq<char>,
)
    requires
        is_result_file(path, Platform::NonUnix, module_of(parts), function_name),
        parts.len() > 0,
        forall|i: int| 0 <= i < parts.len() ==> #[trigger] parts[i].len() > 0,
        forall|i: int, j: int|
            0 <= i < parts.len() && 0 <= j < parts[i].len() ==> #[trigger] parts[i][j] != ':'
                && parts[i][j] != '/' && parts[i][j] != '\\',
        forall|j: int| 0 <= j < function_name.len() ==> #[trigger] function_name[j] != ':',
    ensures
        alike(
            path,
            "target/iai/"@ + directories(parts) + "callgrind."@ + function_name + ".out"@,
        ),
{
    lemma_module_has_its_parts(parts);
    assert forall|i: int| 0 <= i < parts.len() implies names_directory(#[trigger] parts[i]) by {
        assert(parts[i].len() > 0);
        assert forall|j: int| 0 <= j < parts[i].len() implies #[trigger] parts[i][j] != '/' by {}
    }
    lemma_result_file_of_parts(parts, function_name);
    assert forall|i: int| 0 <= i < parts.len() implies ordinary(#[trigger] parts[i]) by {
        let part = parts[i];
        assert(part.len() > 0);
        assert(parts[i][0] != '/' && parts[i][0] != '\\');
        assert(parts[i][part.len() - 1] != '/' && parts[i][part.len() - 1] != '\\');
        assert forall|j: int| 0 <= j < part.len() implies #[trigger] part[j] != ':' by {
            assert(parts[i][j] != ':');
        }
    }
    assert(ordinary_names(module_of(parts), function_name));
}

} // verus!
