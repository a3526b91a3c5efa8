use mc_manager::buffer::{console_step, ConsoleStep, InstanceVector};
use mc_manager::errors::ApiError;
use mc_manager::instances::{
    bytes_contains, get_java_path, is_shutdown, set_java_path, set_shutdown, working_dir, CommandAction,
    InstanceStatus, ReadyAction, Registry,
};

fn started(names: &[(&str, u16)]) -> Registry {
    let mut r = Registry::new();
    for (n, p) in names {
        assert_eq!(r.admit_start(n, *p), Ok(()));
        r.record_start(n, *p);
    }
    r
}

#[test]
fn missing_entry_is_cold() {
    let r = Registry::new();
    assert_eq!(r.query("w1"), InstanceStatus::Cold);
    assert_ne!(started(&[("w1", 1)]).query("w1"), InstanceStatus::Cold);
    assert_eq!(r.stop_action("w1"), Err(ApiError::BadInstanceStatus(InstanceStatus::Cold)));
    assert_eq!(r.status_summary(), "{}");
}

#[test]
fn second_start_of_same_save_is_refused() {
    let r = started(&[("w1", 25565)]);
    assert_eq!(r.query("w1"), InstanceStatus::Loading);
    assert_eq!(r.admit_start("w1", 25565), Err(ApiError::BadInstanceStatus(InstanceStatus::Loading)));
    assert_eq!(r.admit_start("w1", 1), Err(ApiError::BadInstanceStatus(InstanceStatus::Loading)));
}

#[test]
fn port_conflict_between_saves() {
    let r = started(&[("w1", 25565)]);
    assert_eq!(r.admit_start("w2", 25565), Err(ApiError::PortInUse));
    assert_eq!(r.admit_start("w2", 25566), Ok(()));
    let body = ApiError::PortInUse.body("java").unwrap();
    assert!(body.starts_with("{\"err\":\"PortInUse\""));
    assert_eq!(ApiError::PortInUse.status_code(), 400);
}

#[test]
fn port_is_free_once_offline() {
    let mut r = started(&[("w1", 25565)]);
    r.record_exit("w1");
    assert_eq!(r.query("w1"), InstanceStatus::Offline);
    assert_eq!(r.admit_start("w2", 25565), Ok(()));
    assert_eq!(r.admit_start("w1", 25565), Ok(()));
    r.record_start("w1", 25565);
    assert_eq!(r.query("w1"), InstanceStatus::Loading);
}

#[test]
fn readiness_then_commands() {
    let line = b"[12:00:00] [Server thread/INFO]: Done (5.2s)!\n";
    assert!(bytes_contains(line, b" Done "));
    assert!(!bytes_contains(b"[12:00:00] Loading\n", b" Done "));
    let mut r = started(&[("w1", 25565)]);
    assert_eq!(r.command_action("w1", "list"), Err(ApiError::BadInstanceStatus(InstanceStatus::Loading)));
    assert_eq!(r.record_ready("w1"), ReadyAction::Ignore);
    assert_eq!(r.query("w1"), InstanceStatus::Online);
    assert_eq!(r.command_action("w1", "list"), Ok(CommandAction::Send("say list\r\n".to_string())));
    assert_eq!(r.command_action("w1", "/say hi"), Ok(CommandAction::Send("say hi\r\n".to_string())));
    assert_eq!(r.command_action("w1", "  /time set day  "), Ok(CommandAction::Send("time set day\r\n".to_string())));
    assert_eq!(r.command_action("w1", " /stop "), Ok(CommandAction::Stop));
    assert_eq!(r.stop_action("w1"), Ok(true));
    r.record_stop("w1");
    assert_eq!(r.query("w1"), InstanceStatus::Shutdown);
    assert_eq!(r.stop_action("w1"), Ok(false));
    assert_eq!(r.command_action("w1", "list"), Err(ApiError::BadInstanceStatus(InstanceStatus::Shutdown)));
}

#[test]
fn commands_with_control_characters_are_refused() {
    let r = started(&[("w1", 25565)]);
    assert_eq!(r.command_action("w1", "say\nop me"), Err(ApiError::BadRequest));
    assert_eq!(r.command_action("w1", "x\u{7f}"), Err(ApiError::BadRequest));
    assert_eq!(r.command_action("nobody", "list"), Err(ApiError::BadInstanceStatus(InstanceStatus::Cold)));
    assert_eq!(ApiError::BadRequest.body("java"), None);
}

#[test]
fn stop_refused_while_loading_or_offline() {
    let mut r = started(&[("w1", 25565)]);
    assert_eq!(r.stop_action("w1"), Err(ApiError::BadInstanceStatus(InstanceStatus::Loading)));
    r.record_exit("w1");
    assert_eq!(r.stop_action("w1"), Err(ApiError::BadInstanceStatus(InstanceStatus::Offline)));
}

#[test]
fn ready_during_shutdown_asks_for_stop() {
    let mut r = started(&[("w1", 25565)]);
    set_shutdown(&mut r);
    assert!(is_shutdown(&r));
    assert_eq!(r.record_ready("w1"), ReadyAction::SendStop);
    assert_eq!(r.query("w1"), InstanceStatus::Online);
    assert_eq!(r.record_ready("w2"), ReadyAction::EntryGone);
    assert_eq!(r.record_ready("w1"), ReadyAction::Ignore);
}

#[test]
fn shutdown_all_stops_online_instances() {
    let mut r = started(&[("w1", 1), ("w2", 2), ("w3", 3)]);
    r.record_ready("w1");
    r.record_exit("w3");
    assert!(!is_shutdown(&r));
    let stopped = r.shutdown_all();
    assert_eq!(stopped, vec!["w1".to_string()]);
    assert!(is_shutdown(&r));
    assert_eq!(r.query("w1"), InstanceStatus::Shutdown);
    assert_eq!(r.query("w2"), InstanceStatus::Loading);
    assert_eq!(r.query("w3"), InstanceStatus::Offline);
    assert_eq!(r.shutdown_all(), Vec::<String>::new());
    for n in ["w1", "w2", "w3"] {
        r.record_exit(n);
        assert_eq!(r.query(n), InstanceStatus::Offline);
    }
}

#[test]
fn status_summary_lists_entries() {
    let mut r = started(&[("w1", 1), ("w2", 2)]);
    r.record_ready("w2");
    assert_eq!(r.status_summary(), "{\"w1\":\"loading\",\"w2\":\"online\"}");
}

#[test]
fn change_admitted_only_when_idle() {
    let mut r = started(&[("w1", 1)]);
    assert_eq!(r.admit_change("w2"), Ok(()));
    assert_eq!(r.admit_change("w1"), Err(ApiError::BadInstanceStatus(InstanceStatus::Loading)));
    r.record_exit("w1");
    assert_eq!(r.admit_change("w1"), Ok(()));
}

#[test]
fn java_path_setting() {
    let mut r = Registry::new();
    assert_eq!(get_java_path(&r), "java");
    set_java_path(&mut r, "/opt/jdk/bin/java".to_string());
    assert_eq!(get_java_path(&r), "/opt/jdk/bin/java");
}

#[test]
fn working_dir_strips_verbatim_prefix() {
    assert_eq!(working_dir("\\\\?\\C:\\srv\\saves\\w1"), "C:\\srv\\saves\\w1");
    assert_eq!(working_dir("/srv/saves/w1"), "/srv/saves/w1");
}

#[test]
fn console_tail_from_offsets() {
    let mut v = InstanceVector::new();
    v.write(b"A\nB\n");
    assert_eq!(console_step(&v, 0, false), ConsoleStep::Send(b"A\nB\n".to_vec(), 4));
    assert_eq!(console_step(&v, 2, false), ConsoleStep::Send(b"B\n".to_vec(), 4));
    assert_eq!(console_step(&v, 4, false), ConsoleStep::Wait);
    assert_eq!(console_step(&v, 9, false), ConsoleStep::Wait);
}

#[test]
fn subscriber_receives_whole_log() {
    let mut v = InstanceVector::new();
    let mut offset = 0usize;
    let mut got: Vec<u8> = Vec::new();
    let chunks: [&[u8]; 3] = [b"one\n", b"", b"two\nthree\n"];
    for c in chunks {
        v.write(c);
        if let ConsoleStep::Send(b, n) = console_step(&v, offset, false) {
            got.extend_from_slice(&b);
            offset = n;
        }
    }
    v.finish();
    assert!(!v.alive());
    loop {
        match console_step(&v, offset, false) {
            ConsoleStep::Send(b, n) => {
                got.extend_from_slice(&b);
                offset = n;
            }
            ConsoleStep::Wait => panic!("finished log must not wait"),
            ConsoleStep::Close => break,
        }
    }
    assert_eq!(got, b"one\ntwo\nthree\n".to_vec());
}

#[test]
fn shutdown_closes_subscribers() {
    let mut v = InstanceVector::new();
    v.write(b"x\n");
    assert_eq!(console_step(&v, 0, true), ConsoleStep::Close);
    v.finish();
    assert_eq!(console_step(&v, 2, false), ConsoleStep::Close);
    assert_eq!(v.len(), 2);
    assert_eq!(v.tail(1), b"\n".to_vec());
}

#[test]
fn graceful_shutdown_scenario() {
    let mut r = started(&[("w1", 25565)]);
    r.record_ready("w1");
    let mut log = InstanceVector::new();
    log.write(b"hello\n");
    let stopped = r.shutdown_all();
    assert_eq!(stopped, vec!["w1".to_string()]);
    assert_eq!(r.query("w1"), InstanceStatus::Shutdown);
    assert_eq!(console_step(&log, 3, is_shutdown(&r)), ConsoleStep::Close);
    log.finish();
    r.record_exit("w1");
    assert_eq!(r.query("w1"), InstanceStatus::Offline);
    assert!(!log.alive());
}
