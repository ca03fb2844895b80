use mneme::cli::{
    already_exists, attach_report, client_flags, create_plan, created_message, default_command,
    default_ring_size, first_task, kill_plan, kill_targets, killed_message, list_sessions,
    next_task, no_sessions_message, not_found, notice, parse_args, parse_detach_key, parse_size,
    session_of_entry, session_ring_size, server_stays, server_unknown, startup_failed, startup_result,
    terminate_step,
    Action, CliOpts, CreatePlan, KillPlan, ListEntry, Task, TerminateStep, DEFAULT_DETACH_KEY, DEFAULT_RING_SIZE,
};
use mneme::client::{AttachResult, DisconnectReason};
use mneme::protocol::Welcome;
use mneme::socket::LockState;

fn strings(words: &[&str]) -> Vec<String> {
    words.iter().map(|w| w.to_string()).collect()
}

fn ok(words: &[&str]) -> CliOpts {
    parse_args(&strings(words)).unwrap()
}

fn err(words: &[&str]) -> String {
    parse_args(&strings(words)).err().unwrap()
}

fn entry(name: &str, pid: u32, running: bool, clients: u16) -> ListEntry {
    ListEntry {
        name: name.to_string(),
        welcome: Welcome {
            version: 1,
            server_pid: pid,
            child_pid: 0,
            child_running: running,
            exit_status: 0,
            client_count: clients,
            ring_size: 0,
            ring_used: 0,
        },
    }
}

#[test]
fn detach_key_caret_form_accepted() {
    let o = ok(&["create", "-e", "^q", "parse-key-1", "/usr/bin/true"]);
    assert_eq!(o.detach_key, 0x11);
    assert_eq!(o.session_name, "parse-key-1");
    assert_eq!(o.command, strings(&["/usr/bin/true"]));
}

#[test]
fn detach_key_single_byte_accepted() {
    let o = ok(&["create", "-e", "x", "parse-key-2", "/usr/bin/true"]);
    assert_eq!(o.detach_key, b'x');
}

#[test]
fn detach_key_too_long_rejected() {
    let e = err(&["create", "-e", "abc", "parse-key-3", "/usr/bin/true"]);
    assert!(e.contains("invalid detach key"), "expected detach-key error, got: {e}");
}

#[test]
fn detach_key_empty_rejected() {
    let e = err(&["create", "-e", "", "parse-key-4", "/usr/bin/true"]);
    assert!(e.contains("invalid detach key"), "expected detach-key error, got: {e}");
}

#[test]
fn ring_size_plain_integer_accepted() {
    let o = ok(&["create", "-s", "65536", "parse-size-1", "/usr/bin/true"]);
    assert_eq!(o.ring_size, 65536);
}

#[test]
fn ring_size_kilobyte_suffix_accepted() {
    let o = ok(&["create", "-s", "512K", "parse-size-2", "/usr/bin/true"]);
    assert_eq!(o.ring_size, 512 * 1024);
}

#[test]
fn ring_size_megabyte_suffix_accepted() {
    let o = ok(&["create", "-s", "2M", "parse-size-3", "/usr/bin/true"]);
    assert_eq!(o.ring_size, 2 * 1024 * 1024);
}

#[test]
fn ring_size_lowercase_suffix_accepted() {
    let o = ok(&["create", "-s", "4k", "parse-size-4", "/usr/bin/true"]);
    assert_eq!(o.ring_size, 4096);
}

#[test]
fn ring_size_garbage_rejected() {
    let e = err(&["create", "-s", "abc", "parse-size-5", "/usr/bin/true"]);
    assert!(e.contains("invalid size"), "expected size error, got: {e}");
}

#[test]
fn ring_size_negative_rejected() {
    let e = err(&["create", "-s", "-1", "parse-size-6", "/usr/bin/true"]);
    assert!(e.contains("invalid size"), "expected error for -1, got: {e}");
}

#[test]
fn unknown_subcommand_rejected() {
    let e = err(&["bogus"]);
    assert!(e.contains("invalid") || e.contains("unrecognized"), "wrong error: {e}");
    assert_eq!(
        e,
        "unrecognized subcommand 'bogus'; usage: mneme [-a|-A|-c|-n] [-r] [-q] [-f] [-e key] [-s size] name [command...]"
    );
}

#[test]
fn missing_session_name() {
    let e = err(&["create"]);
    assert!(e.contains("<NAME>") || e.contains("required"), "wrong error: {e}");
    assert_eq!(e, "session name required");
}

#[test]
fn invalid_session_name_rejected() {
    let e = err(&["create", "bad/name", "/bin/sh"]);
    assert!(e.contains("alphanumeric"), "wrong error: {e}");
}

#[test]
fn words_and_options_mean_the_same() {
    for (word, flag, action) in [
        ("create", "-c", Action::Create),
        ("new", "-n", Action::CreateOnly),
        ("attach", "-a", Action::Attach),
        ("auto", "-A", Action::AttachOrCreate),
    ] {
        for first in [word, flag] {
            let o = ok(&[first, "work", "-q", "/bin/sh", "-c", "sleep 60"]);
            assert_eq!(o.action, action);
            assert_eq!(o.session_name, "work");
            assert_eq!(o.command, strings(&["/bin/sh", "-c", "sleep 60"]));
            assert!(o.quiet);
        }
    }
    assert_eq!(ok(&["kill", "-q", "all"]).action, Action::Kill);
    assert_eq!(ok(&["list"]).action, Action::List);
}

#[test]
fn option_defaults_and_flags() {
    let o = ok(&["-c", "w"]);
    assert_eq!(o.detach_key, DEFAULT_DETACH_KEY);
    assert_eq!(o.ring_size, DEFAULT_RING_SIZE);
    assert!(!o.readonly && !o.low_priority && !o.quiet && !o.force);
    assert!(o.command.is_empty());
    let o = ok(&["-r", "-l", "-f", "-a", "w"]);
    assert!(o.readonly && o.low_priority && o.force && !o.quiet);
    let f = client_flags(&o);
    assert!(f.readonly && f.low_priority);
    // The last action counts.
    assert_eq!(ok(&["-c", "-a", "w"]).action, Action::Attach);
}

#[test]
fn command_line_errors() {
    assert_eq!(err(&["-c", "w", "-e"]), "-e requires an argument");
    assert_eq!(err(&["-c", "w", "-s"]), "-s requires an argument");
    assert_eq!(err(&["-c", "-e", "abc", "w"]), "invalid detach key: abc");
    assert_eq!(err(&["-c", "-s", " 5x ", "w"]), "invalid size: 5x");
    assert_eq!(err(&["-c", "-x"]), "session name must not start with '.' or '-'");
    assert_eq!(err(&["list", "w"]), "unexpected argument: w");
}

#[test]
fn detach_keys() {
    assert_eq!(parse_detach_key("^\\"), Ok(0x1c));
    assert_eq!(parse_detach_key("^A"), Ok(1));
    assert_eq!(parse_detach_key("^?"), Ok(0x1f));
    assert_eq!(parse_detach_key("^"), Ok(b'^'));
    assert_eq!(parse_detach_key("\u{e9}"), Err("invalid detach key: \u{e9}".to_string()));
    assert_eq!(parse_detach_key("ab"), Err("invalid detach key: ab".to_string()));
}

#[test]
fn sizes() {
    assert_eq!(parse_size("0"), Ok(0));
    assert_eq!(parse_size(" 12k\n"), Ok(12288));
    assert_eq!(parse_size("3m"), Ok(3145728));
    assert_eq!(parse_size("+7"), Ok(7));
    for bad in ["", "K", "M", "1G", "1 K", "1.5M", "-1"] {
        assert_eq!(parse_size(bad), Err(format!("invalid size: {bad}")));
    }
    assert!(parse_size("99999999999999999999").is_err());
    assert!(parse_size("18446744073709551615M").is_err());
    assert_eq!(default_ring_size(None), Ok(DEFAULT_RING_SIZE));
    assert_eq!(default_ring_size(Some("2M".to_string())), Ok(2097152));
    assert!(default_ring_size(Some("lots".to_string())).is_err());
}

#[test]
fn size_of_a_new_session() {
    let silent = ok(&["-c", "w"]);
    assert!(!silent.ring_given);
    assert_eq!(silent.ring_size, DEFAULT_RING_SIZE);
    assert_eq!(session_ring_size(&silent, None), Ok(DEFAULT_RING_SIZE));
    assert_eq!(session_ring_size(&silent, Some("512".to_string())), Ok(512));
    let e = session_ring_size(&silent, Some("lots".to_string()));
    assert_eq!(e, Err("invalid size: lots".to_string()));
    let said = ok(&["-c", "-s", "2K", "w"]);
    assert!(said.ring_given);
    assert_eq!(session_ring_size(&said, Some("lots".to_string())), Ok(2048));
}

#[test]
fn tasks_of_each_action() {
    let run = |action: Action, exists: bool| -> Vec<Task> {
        let mut out = vec![first_task(action)];
        while let Some(t) = next_task(action, *out.last().unwrap(), exists) {
            out.push(t);
        }
        out
    };
    assert_eq!(run(Action::List, false), vec![Task::List]);
    assert_eq!(run(Action::Kill, false), vec![Task::Kill]);
    assert_eq!(run(Action::Create, false), vec![Task::Create, Task::Attach]);
    assert_eq!(run(Action::CreateOnly, false), vec![Task::Create]);
    assert_eq!(run(Action::Attach, false), vec![Task::Attach]);
    assert_eq!(run(Action::AttachOrCreate, true), vec![Task::CheckExists, Task::Attach]);
    assert_eq!(
        run(Action::AttachOrCreate, false),
        vec![Task::CheckExists, Task::Create, Task::Attach]
    );
}

#[test]
fn creating_over_what_is_there() {
    assert_eq!(create_plan(LockState::Missing, false, false), CreatePlan::Start);
    assert_eq!(create_plan(LockState::Missing, true, false), CreatePlan::CleanThenStart);
    assert_eq!(create_plan(LockState::Free, false, false), CreatePlan::CleanThenStart);
    assert_eq!(create_plan(LockState::Free, true, true), CreatePlan::CleanThenStart);
    assert_eq!(create_plan(LockState::Held, true, false), CreatePlan::Refuse);
    assert_eq!(create_plan(LockState::Held, true, true), CreatePlan::ReplaceLive);
    assert_eq!(create_plan(LockState::Unknown, true, false), CreatePlan::Refuse);
    assert_eq!(already_exists("w"), "w: session already exists");
}

#[test]
fn live_sessions_are_terminated() {
    assert_eq!(kill_plan(LockState::Held, true), KillPlan::Terminate);
    let err = killed_message("kill-live", false);
    assert!(err.contains("killed"), "expected 'killed' in stderr: {err}");
    assert_eq!(err, "mneme: kill-live: killed");
}

#[test]
fn missing_sessions_are_not_found() {
    assert_eq!(kill_plan(LockState::Missing, false), KillPlan::NotFound);
    let err = not_found("no-such-session-xyz");
    assert!(err.contains("not found"), "expected 'not found', got: {err}");
}

#[test]
fn stale_sessions_are_cleaned_up() {
    assert_eq!(kill_plan(LockState::Free, true), KillPlan::CleanStale);
    assert_eq!(kill_plan(LockState::Missing, true), KillPlan::CleanStale);
    assert_eq!(kill_plan(LockState::Free, false), KillPlan::CleanStale);
    let err = killed_message("kill-stale", true);
    assert!(
        err.contains("stale") || err.contains("killed"),
        "expected stale/killed message, got: {err}"
    );
}

#[test]
fn entries_of_the_socket_directory() {
    assert_eq!(session_of_entry("work", true), Some("work".to_string()));
    assert_eq!(session_of_entry("work.lock", false), Some("work".to_string()));
    assert_eq!(session_of_entry("work.lock", true), Some("work.lock".to_string()));
    assert_eq!(session_of_entry("work", false), None);
    assert_eq!(session_of_entry(".lock", false), None);
    assert_eq!(session_of_entry("server.log", false), None);
}

#[test]
fn targets_of_kill() {
    let entries: Vec<(String, bool)> = [
        ("work", true),
        ("build", true),
        ("work.lock", false),
        ("server.log", false),
        ("orphan.lock", false),
        ("build.lock", false),
        ("build2", true),
    ]
    .iter()
    .map(|(n, sock)| (n.to_string(), *sock))
    .collect();
    assert_eq!(kill_targets("work", &entries), strings(&["work"]));
    assert_eq!(kill_targets("elsewhere", &entries), strings(&["elsewhere"]));
    assert_eq!(
        kill_targets("all", &entries),
        strings(&["build", "build2", "orphan", "work"])
    );
    assert!(kill_targets("all", &Vec::new()).is_empty());
    assert_eq!(no_sessions_message(), "mneme: no sessions");
}

#[test]
fn default_commands() {
    let cmd = Some("make -j".to_string());
    let shell = Some("/bin/zsh".to_string());
    assert_eq!(default_command(cmd, shell.clone()), strings(&["/bin/sh", "-c", "make -j"]));
    assert_eq!(default_command(None, shell), strings(&["/bin/zsh"]));
    assert_eq!(default_command(None, None), strings(&["/bin/sh"]));
}

#[test]
fn exit_status_zero_is_reported() {
    let (text, code) = attach_report("fast", &AttachResult::Exited(0), false);
    assert_eq!(code, 0);
    assert!(text.unwrap().contains("exit status 0"));
}

#[test]
fn exit_status_one_is_reported() {
    let (text, code) = attach_report("fast", &AttachResult::Exited(1), false);
    assert_eq!(code, 1);
    assert_eq!(text.unwrap(), "mneme: fast: session terminated with exit status 1");
}

#[test]
fn other_ends_of_an_attachment() {
    assert_eq!(
        attach_report("w", &AttachResult::Detached, false),
        (Some("mneme: w: detached".to_string()), 0)
    );
    let broken = AttachResult::IoError(DisconnectReason::ServerHungUp);
    assert_eq!(
        attach_report("w", &broken, false),
        (Some("mneme: w: exited due to I/O errors".to_string()), 1)
    );
    assert_eq!(attach_report("w", &AttachResult::Exited(u32::MAX), false).1, -1);
    assert_eq!(created_message("w"), "mneme: w: session created");
}

#[test]
fn quiet_runs_say_nothing() {
    assert_eq!(notice(true, created_message("w")), None);
    assert_eq!(notice(true, killed_message("w", false)), None);
    assert_eq!(notice(true, no_sessions_message().to_string()), None);
    assert_eq!(
        notice(false, created_message("w")),
        Some("mneme: w: session created".to_string())
    );
    assert_eq!(attach_report("w", &AttachResult::Detached, true), (None, 0));
    assert_eq!(attach_report("w", &AttachResult::Exited(7), true), (None, 7));
    let broken = AttachResult::IoError(DisconnectReason::ServerHungUp);
    assert_eq!(attach_report("w", &broken, true), (None, 1));
}

#[test]
fn waiting_for_a_server_to_end() {
    assert_eq!(terminate_step(true, 0), TerminateStep::Done);
    assert_eq!(terminate_step(true, 60000), TerminateStep::Done);
    assert_eq!(terminate_step(false, 0), TerminateStep::Wait(20));
    assert_eq!(terminate_step(false, 5000), TerminateStep::Wait(20));
    assert_eq!(terminate_step(false, 5001), TerminateStep::GiveUp);
    assert_eq!(server_stays("w"), "w: server does not end");
    assert_eq!(server_unknown("w"), "w: server unknown");
}

#[test]
fn answers_of_a_started_server() {
    assert_eq!(startup_result(b""), Ok(()));
    assert_eq!(
        startup_result(b"bind /x: denied"),
        Err("server startup failed: bind /x: denied".to_string())
    );
    assert_eq!(
        startup_result(&[b'n', 0xff, b'o']),
        Err("server startup failed: n\u{fffd}o".to_string())
    );
    assert_eq!(startup_failed("x"), "server startup failed: x");
}

#[test]
fn listing_of_nothing_is_empty() {
    assert_eq!(ok(&["list"]).action, Action::List);
    let out = list_sessions(Vec::new());
    assert!(out.is_empty(), "expected empty stdout, got: {out:?}");
}

#[test]
fn no_arguments_mean_a_listing() {
    assert_eq!(ok(&[]).action, Action::List);
    let out = list_sessions(vec![entry("ls-default", 10, true, 0)]);
    assert!(out.contains("ls-default"), "session missing from list: {out}");
    assert!(out.contains("Active sessions"), "missing header: {out}");
}

#[test]
fn list_sorts_sessions_alphabetically() {
    let out = list_sessions(vec![
        entry("zzz-a", 1, true, 0),
        entry("aaa-a", 2, true, 0),
        entry("mmm-a", 3, true, 0),
    ]);
    let pos_a = out.find("zzz-a").expect("zzz line");
    let pos_b = out.find("aaa-a").expect("aaa line");
    let pos_c = out.find("mmm-a").expect("mmm line");
    assert!(pos_b < pos_c, "aaa should come before mmm: {out}");
    assert!(pos_c < pos_a, "mmm should come before zzz: {out}");
}

#[test]
fn list_marks_idle_session_with_blank() {
    let out = list_sessions(vec![entry("ls-idle", 12345, true, 0)]);
    let line = out.lines().find(|l| l.contains("ls-idle")).expect("session line");
    assert!(
        !line.starts_with('+') && !line.starts_with('*'),
        "idle session should not be marked + or *: {line:?}"
    );
}

#[test]
fn listing_by_the_letter() {
    let out = list_sessions(vec![
        entry("b", 7, true, 2),
        entry("a", 1234567, false, 1),
        entry("Z", 42, true, 0),
        entry("aa", 999999, true, 0),
    ]);
    assert_eq!(
        out,
        "Active sessions\n      42  Z\n+ 1234567  a\n  999999  aa\n*      7  b\n"
    );
}
