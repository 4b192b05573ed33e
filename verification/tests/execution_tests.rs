use command_runner::command::Capture;
use command_runner::command::Command;
use command_runner::command::CommandAddMode;
use command_runner::command::Identifier;
use command_runner::command::Output;
use command_runner::errors::ErrorKind;
use command_runner::placeholder::Substitutions;
use command_runner::routes::finish_run;
use command_runner::routes::handle_delete;
use command_runner::routes::plan_run;
use command_runner::routes::render_output;
use command_runner::routes::RunArgs;
use command_runner::routes::RunResponse;
use command_runner::store::Store;

/// Spawn the planned process and capture its result, as the surrounding
/// program would; a spawn failure yields the operating system's error
/// description.
fn spawn_capture(command: &Command, args: &[String]) -> Result<Capture, String> {
    let runtime = tokio::runtime::Builder::new_current_thread()
        .enable_all()
        .build()
        .expect("runtime");
    let spawned = runtime.block_on(async {
        tokio::process::Command::new(&command.command)
            .args(args)
            .output()
            .await
    });
    match spawned {
        Ok(o) => Ok(Capture {
            stdout: o.stdout,
            stderr: o.stderr,
            success: o.status.success(),
            code: o.status.code(),
        }),
        Err(e) => Err(e.to_string()),
    }
}

fn stored(store: &mut Store, name: &str, command: &str, args: &[&str]) -> u128 {
    store
        .add(
            Command::new(
                name.to_string(),
                command.to_string(),
                args.iter().map(|a| a.to_string()).collect(),
            ),
            CommandAddMode::Error,
        )
        .unwrap()
}

#[test]
fn lossy_decoding_replaces_invalid_bytes() {
    let out = Output::from_raw(Capture {
        stdout: vec![104, 105, 0xFF],
        stderr: vec![],
        success: false,
        code: Some(3),
    });
    assert_eq!(out.stdout, "hi\u{FFFD}");
    assert_eq!(out.stderr, "");
    assert!(!out.status.success);
    assert_eq!(out.status.code, Some(3));
}

#[test]
fn render_respects_the_response_flags() {
    let sample = || Output::from_raw(Capture {
        stdout: b"{\"n\": 1}".to_vec(),
        stderr: b"".to_vec(),
        success: true,
        code: Some(0),
    });
    let full = render_output(sample(), &RunArgs { history: false, full: true, json: false });
    assert!(matches!(full, Ok(RunResponse::Full(o)) if o.stdout == "{\"n\": 1}"));
    let json = render_output(sample(), &RunArgs { history: false, full: false, json: true });
    assert!(matches!(json, Ok(RunResponse::Json(s)) if s == "{\"n\": 1}"));
    let raw = render_output(sample(), &RunArgs::default());
    assert!(matches!(raw, Ok(RunResponse::Raw(s)) if s == "{\"n\": 1}"));
}

#[test]
fn render_rejects_output_that_is_not_json() {
    let out = Output::from_raw(Capture {
        stdout: b"not json at all".to_vec(),
        stderr: b"".to_vec(),
        success: true,
        code: Some(0),
    });
    let e = render_output(out, &RunArgs { history: false, full: false, json: true }).unwrap_err();
    assert_eq!(e.kind, ErrorKind::InvalidOutput);
    assert_eq!(e.status_code(), 500);
}

#[test]
fn default_run_args_record_history_and_return_raw_text() {
    let defaults = RunArgs::default();
    assert!(defaults.history);
    assert!(!defaults.full);
    assert!(!defaults.json);
}

#[test]
fn end_to_end_run_substitutes_executes_and_records() {
    let mut store = Store::new();
    let id = stored(&mut store, "greet", "echo", &["{name}"]);
    let mut subs = Substitutions::new();
    subs.insert("{name}".to_string(), "world".to_string());
    let (command, args) = plan_run(&store, &Identifier::Name("greet".to_string()), &subs).unwrap();
    assert_eq!(command.id, id);
    assert_eq!(args, vec!["world".to_string()]);
    let capture = spawn_capture(&command, &args);
    let response = finish_run(&mut store, &command, &args, capture, &RunArgs::default()).unwrap();
    match response {
        RunResponse::Raw(text) => assert_eq!(text, "world\n"),
        other => panic!("unexpected response shape: {:?}", other),
    }
    assert_eq!(store.history_len(), 1);
    let row = store.history_at(0);
    assert_eq!(row.command_id, id);
    assert_eq!(row.stdout, "world\n");
    assert_eq!(row.stderr, "");
    assert!(row.success);
    assert_eq!(row.code, Some(0));
}

#[test]
fn run_without_history_flag_records_nothing() {
    let mut store = Store::new();
    stored(&mut store, "greet", "echo", &["hi"]);
    let (command, args) =
        plan_run(&store, &Identifier::Name("greet".to_string()), &Substitutions::new()).unwrap();
    let capture = spawn_capture(&command, &args);
    let response = finish_run(
        &mut store,
        &command,
        &args,
        capture,
        &RunArgs { history: false, full: true, json: false },
    )
    .unwrap();
    assert!(matches!(response, RunResponse::Full(o) if o.stdout == "hi\n" && o.status.success));
    assert_eq!(store.history_len(), 0);
}

#[test]
fn missing_executable_fails_spawn_and_writes_no_history() {
    let mut store = Store::new();
    stored(&mut store, "ghost", "./missing-program-of-this-test", &["a", "b"]);
    let (command, args) =
        plan_run(&store, &Identifier::Name("ghost".to_string()), &Substitutions::new()).unwrap();
    let capture = spawn_capture(&command, &args);
    assert!(capture.is_err());
    let e = finish_run(&mut store, &command, &args, capture, &RunArgs::default()).unwrap_err();
    assert_eq!(e.kind, ErrorKind::SpawnFailed);
    assert_eq!(e.status_code(), 500);
    assert_eq!(e.context.len(), 2);
    assert!(!e.context[0].is_empty());
    assert_eq!(
        e.context[1],
        "Failed to run command: ./missing-program-of-this-test with args: a b"
    );
    assert_eq!(store.history_len(), 0);
}

#[test]
fn history_is_recorded_even_when_json_rendering_fails() {
    let mut store = Store::new();
    stored(&mut store, "greet", "echo", &["plain"]);
    let (command, args) =
        plan_run(&store, &Identifier::Name("greet".to_string()), &Substitutions::new()).unwrap();
    let capture = spawn_capture(&command, &args);
    let e = finish_run(
        &mut store,
        &command,
        &args,
        capture,
        &RunArgs { history: true, full: false, json: true },
    )
    .unwrap_err();
    assert_eq!(e.kind, ErrorKind::InvalidOutput);
    assert_eq!(store.history_len(), 1);
    assert_eq!(store.history_at(0).stdout, "plain\n");
}

#[test]
fn planning_fails_before_any_spawn_when_a_key_is_missing() {
    let mut store = Store::new();
    stored(&mut store, "greet", "echo", &["{name}"]);
    let mut wrong = Substitutions::new();
    wrong.insert("{other}".to_string(), "x".to_string());
    let e = plan_run(&store, &Identifier::Name("greet".to_string()), &wrong).unwrap_err();
    assert_eq!(e.kind, ErrorKind::MissingPlaceholder);
    let missing = plan_run(&store, &Identifier::Name("nope".to_string()), &Substitutions::new());
    assert_eq!(missing.unwrap_err().kind, ErrorKind::NotFound);
}

#[test]
fn concurrent_runs_produce_independent_outputs() {
    let runtime = tokio::runtime::Builder::new_current_thread()
        .enable_all()
        .build()
        .expect("runtime");
    let (one, two) = runtime.block_on(async {
        let first = tokio::spawn(
            tokio::process::Command::new("echo").arg("one").output(),
        );
        let second = tokio::spawn(
            tokio::process::Command::new("echo").arg("two").output(),
        );
        (
            first.await.expect("join").expect("spawn"),
            second.await.expect("join").expect("spawn"),
        )
    });
    let out_one = Output::from_raw(Capture {
        stdout: one.stdout,
        stderr: one.stderr,
        success: one.status.success(),
        code: one.status.code(),
    });
    let out_two = Output::from_raw(Capture {
        stdout: two.stdout,
        stderr: two.stderr,
        success: two.status.success(),
        code: two.status.code(),
    });
    assert_eq!(out_one.stdout, "one\n");
    assert_eq!(out_two.stdout, "two\n");
    assert!(out_one.status.success && out_two.status.success);
}

#[test]
fn delete_route_resolves_then_removes() {
    let mut store = Store::new();
    let id = stored(&mut store, "gone", "echo", &[]);
    stored(&mut store, "kept", "echo", &[]);
    handle_delete(&mut store, &Identifier::Id(id)).unwrap();
    let rest = store.list();
    assert_eq!(rest.len(), 1);
    assert_eq!(rest[0].name, "kept");
    let again = handle_delete(&mut store, &Identifier::Id(id));
    assert_eq!(again.unwrap_err().kind, ErrorKind::NotFound);
}
