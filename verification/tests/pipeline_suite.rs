use sonic262::cache::IncludeCache;
use sonic262::outcome::ExecOutcome;
use sonic262::outcome::FileOutcome;
use sonic262::outcome::SkipReason;
use sonic262::pipeline::generate_and_run;
use sonic262::pipeline::get_contents;
use sonic262::pipeline::process_file;
use sonic262::pipeline::run_all;
use sonic262::reporter::Diagnostics;
use std::sync::Mutex;
use std::sync::atomic::AtomicU32;
use std::sync::atomic::Ordering;

fn scripted_loader(name: String) -> Option<String> {
    match name.as_str() {
        "assert" => Some(String::from("assert lib;\n")),
        "sta" => Some(String::from("sta lib;\n")),
        "foo" => Some(String::from("foo lib;\n")),
        _ => None,
    }
}

fn always_passes(_program: String) -> ExecOutcome {
    ExecOutcome::Passed
}

#[test]
fn end_to_end_three_files() {
    let texts = vec![
        String::from("/*---\nincludes: [foo]\n---*/\ntest body one\n"),
        String::from("var x = 1;\n"),
        String::from("/*---\nincludes: [missing]\n---*/\ntest body three\n"),
    ];
    let mut cache = IncludeCache::new();
    let (d, outcomes) = run_all(&texts, &mut cache, scripted_loader, always_passes);
    assert_eq!(d.total_files, 3);
    assert_eq!(d.run, 1);
    assert_eq!(d.passed, 1);
    assert_eq!(d.failed, 0);
    assert_eq!(d.invalid, 2);
    assert_eq!(outcomes[0], FileOutcome::Executed(ExecOutcome::Passed));
    assert_eq!(outcomes[1], FileOutcome::Skipped(SkipReason::NoMetadata));
    assert_eq!(
        outcomes[2],
        FileOutcome::Skipped(SkipReason::MissingInclude(String::from("missing")))
    );
}

#[test]
fn no_metadata_never_executes() {
    let calls = AtomicU32::new(0);
    let exec = |_program: String| -> ExecOutcome {
        calls.fetch_add(1, Ordering::SeqCst);
        ExecOutcome::Passed
    };
    let mut cache = IncludeCache::new();
    let mut diag = Diagnostics::new();
    let text = String::from("var x = 1;\n");
    let outcome = process_file(&mut cache, &mut diag, &text, scripted_loader, exec);
    assert_eq!(outcome, FileOutcome::Skipped(SkipReason::NoMetadata));
    assert_eq!(calls.load(Ordering::SeqCst), 0);
    assert_eq!(diag.run, 0);
    assert_eq!(diag.invalid, 1);
    assert_eq!(diag.total_files, 1);
}

#[test]
fn missing_snippet_never_executes() {
    let calls = AtomicU32::new(0);
    let exec = |_program: String| -> ExecOutcome {
        calls.fetch_add(1, Ordering::SeqCst);
        ExecOutcome::Passed
    };
    let mut cache = IncludeCache::new();
    let mut diag = Diagnostics::new();
    let text = String::from("/*---\nincludes: [nope]\n---*/\nbody\n");
    let outcome = process_file(&mut cache, &mut diag, &text, scripted_loader, exec);
    assert_eq!(
        outcome,
        FileOutcome::Skipped(SkipReason::MissingInclude(String::from("nope")))
    );
    assert_eq!(calls.load(Ordering::SeqCst), 0);
    assert_eq!(diag.run, 0);
    assert_eq!(diag.invalid, 1);
}

#[test]
fn malformed_metadata_is_skipped() {
    let mut cache = IncludeCache::new();
    let mut diag = Diagnostics::new();
    let text = String::from("/*---\nincludes: [foo]\nbody with no close\n");
    let outcome = process_file(&mut cache, &mut diag, &text, scripted_loader, always_passes);
    assert_eq!(outcome, FileOutcome::Skipped(SkipReason::MalformedMetadata));
    assert_eq!(diag.invalid, 1);
    assert_eq!(diag.run, 0);
}

#[test]
fn unreadable_document_is_skipped() {
    let mut cache = IncludeCache::new();
    let mut diag = Diagnostics::new();
    let text = String::from("/*---\nincludes: [\n---*/\nbody\n");
    let outcome = process_file(&mut cache, &mut diag, &text, scripted_loader, always_passes);
    assert!(matches!(
        outcome,
        FileOutcome::Skipped(SkipReason::MetadataParseError(_))
    ));
    assert_eq!(diag.invalid, 1);
    assert_eq!(diag.run, 0);
}

#[test]
fn assembled_program_keeps_the_declared_order() {
    let seen = Mutex::new(Vec::new());
    let exec = |program: String| -> ExecOutcome {
        seen.lock().unwrap().push(program);
        ExecOutcome::Passed
    };
    let loader = |name: String| -> Option<String> {
        match name.as_str() {
            "assert" => Some(String::from("A")),
            "sta" => Some(String::from("B")),
            "c" => Some(String::from("C")),
            "d" => Some(String::from("D")),
            _ => None,
        }
    };
    let mut cache = IncludeCache::new();
    let mut diag = Diagnostics::new();
    let text = String::from("/*---\nincludes: [c, d]\n---*/\nT");
    let outcome = process_file(&mut cache, &mut diag, &text, loader, exec);
    assert_eq!(outcome, FileOutcome::Executed(ExecOutcome::Passed));
    let programs = seen.lock().unwrap();
    assert_eq!(programs.len(), 1);
    assert_eq!(
        programs[0],
        format!("A\nB\nC\nD\n{}", "/*---\nincludes: [c, d]\n---*/\nT")
    );
}

#[test]
fn repeated_request_reads_backing_once() {
    let foo_loads = AtomicU32::new(0);
    let loader = |name: String| -> Option<String> {
        if name == "foo" {
            foo_loads.fetch_add(1, Ordering::SeqCst);
        }
        scripted_loader(name)
    };
    let seen = Mutex::new(Vec::new());
    let exec = |program: String| -> ExecOutcome {
        seen.lock().unwrap().push(program);
        ExecOutcome::Passed
    };
    let mut cache = IncludeCache::new();
    let mut diag = Diagnostics::new();
    let text = String::from("/*---\nincludes: [foo, foo]\n---*/\nbody\n");
    let outcome = process_file(&mut cache, &mut diag, &text, loader, exec);
    assert_eq!(outcome, FileOutcome::Executed(ExecOutcome::Passed));
    assert_eq!(foo_loads.load(Ordering::SeqCst), 1);
    let programs = seen.lock().unwrap();
    assert_eq!(
        programs[0],
        format!(
            "assert lib;\n\nsta lib;\n\nfoo lib;\n\nfoo lib;\n\n{}",
            "/*---\nincludes: [foo, foo]\n---*/\nbody\n"
        )
    );
}

#[test]
fn mandatory_duplicate_is_kept() {
    let seen = Mutex::new(Vec::new());
    let exec = |program: String| -> ExecOutcome {
        seen.lock().unwrap().push(program);
        ExecOutcome::Passed
    };
    let mut cache = IncludeCache::new();
    let mut diag = Diagnostics::new();
    let text = String::from("/*---\nincludes: [sta]\n---*/\nbody\n");
    let outcome = process_file(&mut cache, &mut diag, &text, scripted_loader, exec);
    assert_eq!(outcome, FileOutcome::Executed(ExecOutcome::Passed));
    let programs = seen.lock().unwrap();
    assert_eq!(
        programs[0],
        format!(
            "assert lib;\n\nsta lib;\n\nsta lib;\n\n{}",
            "/*---\nincludes: [sta]\n---*/\nbody\n"
        )
    );
}

#[test]
fn timeout_counts_as_failed() {
    let exec = |_program: String| -> ExecOutcome { ExecOutcome::Timeout };
    let mut cache = IncludeCache::new();
    let mut diag = Diagnostics::new();
    let text = String::from("/*---\n---*/\nbody\n");
    let outcome = process_file(&mut cache, &mut diag, &text, scripted_loader, exec);
    assert_eq!(outcome, FileOutcome::Executed(ExecOutcome::Timeout));
    assert_eq!(diag.run, 1);
    assert_eq!(diag.failed, 1);
    assert_eq!(diag.passed, 0);
}

#[test]
fn backend_error_counts_as_invalid() {
    let exec =
        |_program: String| -> ExecOutcome { ExecOutcome::ExecutionError(String::from("no shell")) };
    let mut cache = IncludeCache::new();
    let mut diag = Diagnostics::new();
    let text = String::from("/*---\n---*/\nbody\n");
    let outcome = process_file(&mut cache, &mut diag, &text, scripted_loader, exec);
    assert!(matches!(
        outcome,
        FileOutcome::Executed(ExecOutcome::ExecutionError(_))
    ));
    assert_eq!(diag.run, 0);
    assert_eq!(diag.invalid, 1);
}

#[test]
fn reported_failure_counts_as_failed() {
    let exec =
        |_program: String| -> ExecOutcome { ExecOutcome::Failed(String::from("boom")) };
    let texts = vec![String::from("/*---\n---*/\nbody\n")];
    let mut cache = IncludeCache::new();
    let (d, _outcomes) = run_all(&texts, &mut cache, scripted_loader, exec);
    assert_eq!(d.run, 1);
    assert_eq!(d.failed, 1);
    assert_eq!(d.passed, 0);
    assert_eq!(d.invalid, 0);
}

#[test]
fn counters_balance_over_a_mixed_run() {
    let texts = vec![
        String::from("/*---\nincludes: [foo]\n---*/\none\n"),
        String::from("no marker here\n"),
        String::from("/*---\nincludes: [gone]\n---*/\nthree\n"),
        String::from("/*---\n---*/\nfour\n"),
        String::from("/*--- no close\n"),
    ];
    let mut cache = IncludeCache::new();
    let (d, outcomes) = run_all(&texts, &mut cache, scripted_loader, always_passes);
    assert_eq!(outcomes.len(), 5);
    assert_eq!(d.total_files, 5);
    assert_eq!(d.passed + d.failed, d.run);
    assert_eq!(d.run + d.invalid, d.total_files);
    assert_eq!(d.run, 2);
    assert_eq!(d.invalid, 3);
}

#[test]
fn prelude_is_resolved_before_the_body() {
    let mut cache = IncludeCache::new();
    let declared = vec![String::from("foo")];
    let r = get_contents(&mut cache, &declared, scripted_loader);
    assert_eq!(
        r,
        Ok(String::from("assert lib;\n\nsta lib;\n\nfoo lib;\n\n"))
    );
    assert!(cache.contains(&String::from("assert")));
    assert!(cache.contains(&String::from("sta")));
    assert!(cache.contains(&String::from("foo")));
}

#[test]
fn generate_and_run_tallies_one_verdict() {
    let mut diag = Diagnostics::new();
    let text = String::from("body");
    let out = generate_and_run(
        &mut diag,
        String::from("P\n"),
        &text,
        always_passes,
    );
    assert_eq!(out, FileOutcome::Executed(ExecOutcome::Passed));
    assert_eq!(diag.total_files, 1);
    assert_eq!(diag.run, 1);
    assert_eq!(diag.passed, 1);
}
