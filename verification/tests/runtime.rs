use loggle::app::{App, Mode};
use loggle::keys::{KeyCode, KeyEvent, KeyModifiers};
use loggle::perf::{apply_filter, load_app, synthetic_line, BenchConfig, BenchFilter};
use loggle::recording::{enqueue, MAX_QUEUED_BYTES};
use loggle::runtime::input::{LineReader, StartupLineBuffer};
use loggle::runtime::keys::closing_key_quits;
use loggle::runtime::schedule::{
    exit_message, ProbeRun, ProbeStep, ReadinessStep, StartScheduler,
};
use loggle::runtime::shutdown::{
    all_exited, closing_message, quit_step, ChildShutdown, QuitStep, ShutdownSignal,
    ShutdownStatus, INTERRUPT_TIMEOUT, TERMINATE_TIMEOUT,
};
use loggle::runtime::start_plan::StartPlan;
use loggle::runtime::{NamedCommand, ReadySpec, RuntimeError, StartCommand};

fn command(name: &str, wait_for: &[&str]) -> StartCommand {
    StartCommand {
        name: name.to_string(),
        argv: vec!["true".to_string()],
        cwd: Some("/tmp".to_string()),
        env: Vec::new(),
        wait_for: wait_for
            .iter()
            .map(|dependency| dependency.to_string())
            .collect(),
        ready: None,
    }
}

fn probe_run(success: bool, timed_out: bool, stdout: &[u8], stderr: &[u8]) -> ProbeRun {
    ProbeRun {
        success,
        timed_out,
        stdout: stdout.to_vec(),
        stderr: stderr.to_vec(),
    }
}

#[test]
fn exposes_dependency_indexes_for_valid_plan() {
    let commands = vec![command("db", &[]), command("api", &["db"])];
    let plan = StartPlan::new(&commands).unwrap();

    assert_eq!(*plan.dependency_indexes(1), vec![0]);
}

#[test]
fn rejects_unknown_dependencies() {
    let commands = vec![command("api", &["db"])];
    let error = StartPlan::new(&commands).unwrap_err();

    assert_eq!(
        error.message(),
        "command 'api' waits for unknown command 'db'"
    );
}

#[test]
fn rejects_dependency_cycles() {
    let commands = vec![command("api", &["web"]), command("web", &["api"])];
    let error = StartPlan::new(&commands).unwrap_err();

    assert_eq!(
        error.message(),
        "command dependency cycle detected: api -> web -> api"
    );
}

#[test]
fn a_command_that_waits_for_itself_is_a_cycle() {
    let commands = vec![command("db", &[]), command("api", &["db", "api"])];

    assert_eq!(
        StartPlan::new(&commands).unwrap_err().message(),
        "command dependency cycle detected: api -> api"
    );
}

#[test]
fn read_lines_sends_each_line_until_eof() {
    let mut reader = LineReader::new(None, None);
    let lines: Vec<String> = "one\ntwo\n"
        .lines()
        .map(|line| reader.read_line(line.to_string()).0)
        .collect();

    assert_eq!(lines, vec!["one".to_string(), "two".to_string()]);
}

#[test]
fn prefixed_line_reader_marks_each_line_with_source_name() {
    let mut reader = LineReader::new(Some("api".to_string()), None);
    let lines: Vec<String> = "one\ntwo\n"
        .lines()
        .map(|line| reader.read_line(line.to_string()).0)
        .collect();

    assert_eq!(lines, vec!["[api] one".to_string(), "[api] two".to_string()]);
}

#[test]
fn readiness_is_told_once() {
    let mut reader = LineReader::new(Some("db".to_string()), Some("ready".to_string()));
    let told: Vec<bool> = ["booting", "database-ready", "ready again"]
        .iter()
        .map(|line| reader.read_line(line.to_string()).1)
        .collect();

    assert_eq!(told, [false, true, false]);
}

#[test]
fn start_commands_wait_for_ready_line_before_starting_dependents() {
    let mut db = command("db", &[]);
    db.ready = Some(ReadySpec::Line {
        text: "database-ready".to_string(),
        timeout: 2000,
    });
    let commands = vec![db, command("api", &["db"])];
    let mut scheduler = StartScheduler::new(StartPlan::new(&commands).unwrap());

    assert_eq!(scheduler.next_unblocked(0), Some(0));
    scheduler.spawn_command(0, 100);
    assert!(scheduler.is_started(0));
    assert_eq!(scheduler.next_unblocked(0), None);
    assert_eq!(scheduler.timeout_message(0, 2099), None);

    assert_eq!(scheduler.check_readiness(0, true, 150), ReadinessStep::Ready);
    assert_eq!(scheduler.next_unblocked(0), Some(1));
    assert!(!scheduler.all_ready());
    scheduler.spawn_command(1, 200);
    assert!(scheduler.all_ready());
}

#[test]
fn start_commands_wait_for_ready_command_before_starting_dependents() {
    let mut db = command("db", &[]);
    db.ready = Some(ReadySpec::Command {
        command: vec!["test".to_string()],
        interval: 10,
        timeout: 2000,
    });
    let commands = vec![db, command("api", &["db"])];
    let mut scheduler = StartScheduler::new(StartPlan::new(&commands).unwrap());

    scheduler.spawn_command(0, 100);
    assert_eq!(scheduler.check_readiness(0, false, 100), ReadinessStep::Probe);
    assert_eq!(
        scheduler.check_probe(0, &probe_run(false, false, b"", b"no"), 100),
        ReadinessStep::Wait
    );
    assert_eq!(scheduler.check_readiness(0, false, 109), ReadinessStep::Wait);
    assert_eq!(scheduler.check_readiness(0, false, 110), ReadinessStep::Probe);
    assert_eq!(
        scheduler.check_probe(0, &probe_run(true, false, b"", b""), 110),
        ReadinessStep::Ready
    );
    assert_eq!(scheduler.next_unblocked(0), Some(1));
}

#[test]
fn start_command_without_ready_unblocks_dependents_after_spawn() {
    let commands = vec![command("db", &[]), command("api", &["db"])];
    let mut scheduler = StartScheduler::new(StartPlan::new(&commands).unwrap());

    scheduler.spawn_command(0, 0);
    assert_eq!(scheduler.next_unblocked(0), Some(1));
}

#[test]
fn startup_line_buffer_drains_channel_and_keeps_tail() {
    let mut buffer = StartupLineBuffer::new(2);
    for index in 0..4 {
        buffer.push(format!("line {index}"));
    }

    assert_eq!(
        buffer.into_vec(),
        vec!["line 2".to_string(), "line 3".to_string()]
    );
}

#[test]
fn a_command_that_is_not_ready_in_time_fails_the_start() {
    let mut db = command("db", &[]);
    db.ready = Some(ReadySpec::Line {
        text: "never-ready".to_string(),
        timeout: 100,
    });
    let commands = vec![db];
    let mut scheduler = StartScheduler::new(StartPlan::new(&commands).unwrap());
    scheduler.spawn_command(0, 0);

    assert_eq!(
        scheduler.check_readiness(0, false, 100),
        ReadinessStep::Failed("command 'db' readiness timed out".to_string())
    );
}

#[test]
fn start_command_dependency_exit_before_ready_fails() {
    assert_eq!(
        exit_message("db", Some(7)),
        "command 'db' exited before readiness with status 7"
    );
    assert_eq!(
        exit_message("db", Some(-9)),
        "command 'db' exited before readiness with status -9"
    );
    assert_eq!(
        exit_message("db", None),
        "command 'db' exited before readiness"
    );
}

#[test]
fn outputs_of_probes_are_told_when_time_runs_out() {
    let mut db = command("db", &[]);
    db.ready = Some(ReadySpec::Command {
        command: vec!["test".to_string()],
        interval: 10,
        timeout: 100,
    });
    let commands = vec![db];
    let mut scheduler = StartScheduler::new(StartPlan::new(&commands).unwrap());
    scheduler.spawn_command(0, 0);
    scheduler.check_probe(0, &probe_run(false, false, b"out", b"err\xff"), 10);
    assert_eq!(
        scheduler.check_probe(0, &probe_run(false, true, b"", b""), 20),
        ReadinessStep::Failed(
            "readiness probe timed out\nrecent readiness probe output:\nstdout:\nout\nstderr:\nerr\u{fffd}".to_string()
        )
    );

    let message = scheduler.timeout_message(0, 100).unwrap();
    assert!(message.contains("recent readiness probe output:"));
    assert!(message.contains("stdout:\nout"));
    assert!(message.contains("stderr:\nerr\u{fffd}"));
}

#[test]
fn a_probe_is_late_unless_it_has_exited() {
    let mut db = command("db", &[]);
    db.ready = Some(ReadySpec::Command {
        command: vec!["test".to_string()],
        interval: 10,
        timeout: 100,
    });
    let commands = vec![db];
    let mut scheduler = StartScheduler::new(StartPlan::new(&commands).unwrap());
    scheduler.spawn_command(0, 5);

    assert_eq!(scheduler.probe_step(0, None, 104), ProbeStep::Wait);
    assert_eq!(scheduler.probe_step(0, None, 105), ProbeStep::TimedOut);
    assert_eq!(
        scheduler.probe_step(0, Some(true), 105),
        ProbeStep::Exited(true)
    );
    assert_eq!(
        scheduler.probe_step(0, Some(false), 6),
        ProbeStep::Exited(false)
    );
}

#[test]
fn output_that_is_not_utf8_is_read_as_the_standard_library_reads_it() {
    let bytes: &[u8] = b"a\xf0\x28\x8c\x28b\xc3";
    let run = probe_run(false, false, bytes, b"");

    assert!(run
        .output_summary()
        .contains(String::from_utf8_lossy(bytes).as_ref()));
}

#[test]
fn shutdown_escalates_by_timeout() {
    let now: u64 = 1000;
    let mut shutdown = ChildShutdown {
        signal: ShutdownSignal::Interrupt,
        next_escalation: (now + INTERRUPT_TIMEOUT) as u128,
        finished: false,
    };

    shutdown.escalate(now + INTERRUPT_TIMEOUT);
    assert_eq!(
        shutdown.status(),
        ShutdownStatus::Waiting(ShutdownSignal::Terminate)
    );

    shutdown.escalate(now + INTERRUPT_TIMEOUT + TERMINATE_TIMEOUT);
    assert_eq!(
        shutdown.status(),
        ShutdownStatus::Waiting(ShutdownSignal::Kill)
    );
}

#[test]
fn shutdown_second_quit_escalates_immediately() {
    let now: u64 = 1000;
    let mut shutdown = ChildShutdown {
        signal: ShutdownSignal::Interrupt,
        next_escalation: (now + INTERRUPT_TIMEOUT) as u128,
        finished: false,
    };

    shutdown.escalate_now(now);

    assert_eq!(
        shutdown.status(),
        ShutdownStatus::Waiting(ShutdownSignal::Terminate)
    );
}

#[test]
fn a_command_that_has_ended_is_sent_nothing() {
    let mut shutdown = ChildShutdown::start(0);
    assert_eq!(shutdown.tick(false, INTERRUPT_TIMEOUT - 1), None);
    assert_eq!(
        shutdown.tick(false, INTERRUPT_TIMEOUT),
        Some(ShutdownSignal::Terminate)
    );
    assert_ne!(
        closing_message(&[shutdown]),
        closing_message(&[ChildShutdown::start(0)])
    );
    assert_eq!(shutdown.tick(true, u64::MAX), None);
    assert_eq!(shutdown.status(), ShutdownStatus::Exited);
    assert!(all_exited(&[shutdown]));
    assert!(!all_exited(&[shutdown, ChildShutdown::start(0)]));
}

#[test]
fn leaving_ends_the_commands_first() {
    assert_eq!(quit_step(0, false), QuitStep::Leave);
    assert_eq!(quit_step(2, false), QuitStep::Begin);
    assert_eq!(quit_step(2, true), QuitStep::Escalate);
    let key = |code| KeyEvent::new(code, KeyModifiers::Plain);
    assert!(closing_key_quits(key(KeyCode::Char('q'))));
    assert!(!closing_key_quits(key(KeyCode::Esc)));
}

#[test]
fn byte_budget_bounds_a_stalled_writer_before_record_count_limit() {
    let line_bytes = 64 * 1024;
    let mut queued = 0;
    for _ in 0..128 {
        queued = enqueue(queued, line_bytes).unwrap();
    }
    assert_eq!(enqueue(queued, line_bytes), None);
    assert_eq!(queued, 8 * 1024 * 1024);
    assert_eq!(enqueue(usize::MAX, 1), None);
    assert_eq!(enqueue(0, MAX_QUEUED_BYTES), Some(MAX_QUEUED_BYTES));
}

#[test]
fn benchmark_harness_exercises_filtered_draw_path() {
    let mut app = load_app(256);
    apply_filter(&mut app, BenchFilter::Property);

    assert_eq!(app.retained_len(), 256);
    assert!(app.visible_count() > 0);
    assert!(app.visible_count() < app.retained_len());
}

#[test]
fn every_kind_of_filter_can_be_measured() {
    for filter in [
        BenchFilter::Unfiltered,
        BenchFilter::Text,
        BenchFilter::Source,
        BenchFilter::Level,
        BenchFilter::Property,
    ] {
        assert_eq!(BenchFilter::parse(filter.as_str()), Some(filter));
        let mut app = load_app(64);
        apply_filter(&mut app, filter);
        assert_eq!(app.mode(), &Mode::Normal);
        assert!(app.visible_count() > 0);
    }
    assert_eq!(BenchFilter::parse("other"), None);
    assert_eq!(BenchConfig::default().lines, 100_000);
    assert!(synthetic_line(0).starts_with("api"));
    assert_eq!(load_app(0).retained_len(), App::new(1).retained_len());
}

#[test]
fn a_named_command_is_started_without_waiting() {
    let started = NamedCommand {
        name: "api".to_string(),
        command: vec!["pnpm".to_string()],
        cwd: Some("/work".to_string()),
    }
    .into_start();
    assert_eq!(
        started,
        StartCommand {
            name: "api".to_string(),
            argv: vec!["pnpm".to_string()],
            cwd: Some("/work".to_string()),
            env: Vec::new(),
            wait_for: Vec::new(),
            ready: None,
        }
    );
    assert_eq!(
        RuntimeError::Io("broken".to_string()).message(),
        "broken".to_string()
    );
    assert!(!RuntimeError::MissingInput.message().is_empty());
}
