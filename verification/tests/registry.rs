use rgate::args::ArgMap;
use rgate::preprocessors::Preprocessor;
use rgate::preprocessors::PreprocessorErr;
use rgate::preprocessors::PreprocessorList;
use rgate::preprocessors::RunCapture;

#[test]
fn lower_priority_tried_first_in_dispatch() {
    // Registered high-priority-number first; the binding with the lower
    // number must still be scanned first.
    let mut list = PreprocessorList::new();
    list.add("x".to_string(), "printf A".to_string(), "pipe".to_string(), "none".to_string(), 2, 0);
    list.add(
        "tx".to_string(),
        "printf B".to_string(),
        "pipe".to_string(),
        "none".to_string(),
        1,
        0,
    );
    // Both extensions end "footx"; the first applicable one must be at
    // index 0, where the priority-1 binding now stands.
    assert_eq!(list.find_applicable(&"footx".to_string()), Some(0));
    let args = ArgMap::new();
    let out = list.process("footx".to_string(), &Some(b"ignored".to_vec()), &args);
    assert_eq!(out, Ok("B".to_string()));
}

#[test]
fn equal_priority_keeps_registration_order() {
    let mut list = PreprocessorList::new();
    list.add("x".to_string(), "printf C".to_string(), "pipe".to_string(), "none".to_string(), 1, 0);
    list.add(
        "tx".to_string(),
        "printf D".to_string(),
        "pipe".to_string(),
        "none".to_string(),
        1,
        0,
    );
    assert_eq!(list.find_applicable(&"footx".to_string()), Some(0));
    let args = ArgMap::new();
    let out = list.process("footx".to_string(), &Some(b"ignored".to_vec()), &args);
    assert_eq!(out, Ok("C".to_string()));
}

#[test]
fn first_present_scans_in_priority_order() {
    let mut list = PreprocessorList::new();
    list.add(".md".to_string(), "cat".to_string(), "pipe".to_string(), "none".to_string(), 3, 0);
    list.add(".rst".to_string(), "cat".to_string(), "pipe".to_string(), "none".to_string(), 1, 0);
    list.add(".adoc".to_string(), "cat".to_string(), "pipe".to_string(), "none".to_string(), 2, 0);
    // Sorted order is .rst (1), .adoc (2), .md (3).
    let base = "public/report".to_string();
    let all = vec![true, true, true];
    assert_eq!(list.first_present(&base, &all), Some("public/report.rst".to_string()));
    let second = vec![false, true, true];
    assert_eq!(list.first_present(&base, &second), Some("public/report.adoc".to_string()));
    let last = vec![false, false, true];
    assert_eq!(list.first_present(&base, &last), Some("public/report.md".to_string()));
    let none = vec![false, false, false];
    assert_eq!(list.first_present(&base, &none), None);
}

#[test]
fn check_file_returns_none_when_nothing_exists() {
    let mut list = PreprocessorList::new();
    list.add(".md".to_string(), "cat".to_string(), "pipe".to_string(), "none".to_string(), 1, 0);
    let r = list.check_file(&"/surely/not/a/real/base/path".to_string());
    assert_eq!(r, None);
}

#[test]
fn no_processor_when_nothing_applies() {
    let mut list = PreprocessorList::new();
    list.add(".md".to_string(), "cat".to_string(), "pipe".to_string(), "none".to_string(), 1, 0);
    let args = ArgMap::new();
    let out = list.process("public/index.html".to_string(), &Some(Vec::new()), &args);
    assert_eq!(out, Err(PreprocessorErr::NoProcessor));
    let empty = PreprocessorList::new();
    let out2 = empty.process("anything".to_string(), &None, &args);
    assert_eq!(out2, Err(PreprocessorErr::NoProcessor));
}

#[test]
fn file_error_exactly_when_file_unreadable() {
    let mut list = PreprocessorList::new();
    list.add(".md".to_string(), "cat".to_string(), "pipe".to_string(), "none".to_string(), 1, 0);
    let args = ArgMap::new();
    let out = list.process("public/report.md".to_string(), &None, &args);
    assert_eq!(out, Err(PreprocessorErr::FileError));
}

#[test]
fn does_apply_is_a_suffix_test() {
    let p = Preprocessor::new(
        ".md".to_string(),
        "cat".to_string(),
        "pipe".to_string(),
        "none".to_string(),
        1,
        0,
    );
    assert!(p.does_apply("public/report.md".to_string()));
    assert!(!p.does_apply("public/report.md.bak".to_string()));
    assert!(!p.does_apply("md".to_string()));
}

#[test]
fn strict_error_fails_even_on_success() {
    // The command exits successfully but writes to standard error.
    let strict = Preprocessor::new(
        ".md".to_string(),
        "printf out; printf err 1>&2".to_string(),
        "pipe".to_string(),
        "none".to_string(),
        1,
        1,
    );
    let args = ArgMap::new();
    let out = strict.process("report.md".to_string(), &Some(b"body".to_vec()), &args);
    assert_eq!(out, Err(PreprocessorErr::ProcessorFailed));
    let lax = Preprocessor::new(
        ".md".to_string(),
        "printf out; printf err 1>&2".to_string(),
        "pipe".to_string(),
        "none".to_string(),
        1,
        0,
    );
    let out2 = lax.process("report.md".to_string(), &Some(b"body".to_vec()), &args);
    assert_eq!(out2, Ok("out".to_string()));
}

#[test]
fn interpret_output_strict_law() {
    let strict = Preprocessor::new(
        ".md".to_string(),
        "cat".to_string(),
        "pipe".to_string(),
        "none".to_string(),
        1,
        1,
    );
    let cap = RunCapture { stdout: b"data".to_vec(), stderr: b"warning".to_vec() };
    assert_eq!(strict.interpret_output(&cap), Err(PreprocessorErr::ProcessorFailed));
    let quiet = RunCapture { stdout: b"data".to_vec(), stderr: Vec::new() };
    assert_eq!(strict.interpret_output(&quiet), Ok("data".to_string()));
    let lax = Preprocessor::new(
        ".md".to_string(),
        "cat".to_string(),
        "pipe".to_string(),
        "none".to_string(),
        1,
        0,
    );
    let cap2 = RunCapture { stdout: b"data".to_vec(), stderr: b"warning".to_vec() };
    assert_eq!(lax.interpret_output(&cap2), Ok("data".to_string()));
}

#[test]
fn pipe_mode_feeds_file_bytes_to_the_command() {
    // `cat` copies its standard input, so the preprocessed body is the
    // file's content — and not the bytes handed to the wrapper unchanged,
    // since a transforming command transforms them.
    let p = Preprocessor::new(
        ".md".to_string(),
        "cat".to_string(),
        "pipe".to_string(),
        "none".to_string(),
        1,
        0,
    );
    let args = ArgMap::new();
    let out = p.process("report.md".to_string(), &Some(b"# report\n".to_vec()), &args);
    assert_eq!(out, Ok("# report\n".to_string()));
    let upper = Preprocessor::new(
        ".md".to_string(),
        "tr a-z A-Z".to_string(),
        "pipe".to_string(),
        "none".to_string(),
        1,
        0,
    );
    let out2 = upper.process("report.md".to_string(), &Some(b"abc".to_vec()), &args);
    assert_eq!(out2, Ok("ABC".to_string()));
}

#[test]
fn arg_parse_serializes_under_the_two_separators() {
    let p = Preprocessor::new(
        ".md".to_string(),
        "cat".to_string(),
        "pipe".to_string(),
        "= ".to_string(),
        1,
        0,
    );
    let mut args = ArgMap::new();
    args.insert("a".to_string(), "1".to_string());
    args.insert("b".to_string(), "2".to_string());
    assert_eq!(p.arg_parse(&args), "a=1 b=2 ".to_string());
}

#[test]
fn build_invocation_file_mode_appends_path_and_args() {
    let p = Preprocessor::new(
        ".md".to_string(),
        "render".to_string(),
        "file".to_string(),
        "= ".to_string(),
        1,
        0,
    );
    let mut args = ArgMap::new();
    args.insert("a".to_string(), "1".to_string());
    let (line, stdin) = p.build_invocation(
        &"public/report.md".to_string(),
        &b"unused".to_vec(),
        &args,
    );
    assert_eq!(line, "render public/report.md a=1 ".to_string());
    assert_eq!(stdin, b"a=1 ".to_vec());
}

#[test]
fn build_invocation_both_mode_concatenates_file_and_args() {
    let p = Preprocessor::new(
        ".md".to_string(),
        "render".to_string(),
        "both".to_string(),
        "= ".to_string(),
        1,
        0,
    );
    let mut args = ArgMap::new();
    args.insert("a".to_string(), "1".to_string());
    let (line, stdin) = p.build_invocation(
        &"public/report.md".to_string(),
        &b"FILE".to_vec(),
        &args,
    );
    assert_eq!(line, "render".to_string());
    assert_eq!(stdin, b"FILEa=1 ".to_vec());
}
