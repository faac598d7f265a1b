use openports::action::dedupe_processes;
use openports::action::run_command_gate;
use openports::action::substitute_template;
use openports::port::select_by_port;
use openports::port::PortInfo;
use openports::port::Protocol;
use openports::process::ProcessInfo;
use openports::process::UserRecord;

fn proc_with_pid(pid: u32, name: &str) -> ProcessInfo {
    ProcessInfo {
        pid,
        name: name.to_owned(),
        command: vec![name.to_owned()],
        owner: UserRecord { uid: 1000, name: "someone".to_owned() },
        is_current_user: false,
    }
}

fn port_with(port: u16, protocol: Protocol, pids: &[u32]) -> PortInfo {
    PortInfo {
        address: "127.0.0.1".to_owned(),
        port,
        protocol,
        process_info: pids.iter().map(|p| proc_with_pid(*p, "proc")).collect(),
    }
}

#[test]
fn select_by_port_keeps_exact_matches_in_order() {
    let ports = vec![
        port_with(5000, Protocol::Tcp, &[1]),
        port_with(6000, Protocol::Udp, &[2]),
        port_with(5000, Protocol::Udp, &[3]),
    ];
    let selected = select_by_port(ports, 5000);
    assert_eq!(selected.len(), 2);
    assert_eq!(selected[0].port, 5000);
    assert_eq!(selected[1].port, 5000);
    assert_eq!(selected[0].process_info[0].pid, 1);
    assert_eq!(selected[1].process_info[0].pid, 3);
}

#[test]
fn select_by_port_is_idempotent_on_concrete_input() {
    let ports = vec![
        port_with(80, Protocol::Tcp, &[7]),
        port_with(443, Protocol::Tcp, &[8]),
        port_with(80, Protocol::Udp, &[9]),
    ];
    let once = select_by_port(ports, 80);
    let once_pids: Vec<u32> = once.iter().map(|p| p.process_info[0].pid).collect();
    let twice = select_by_port(once, 80);
    let twice_pids: Vec<u32> = twice.iter().map(|p| p.process_info[0].pid).collect();
    assert_eq!(once_pids, twice_pids);
    assert_eq!(twice_pids, vec![7, 9]);
}

#[test]
fn select_by_port_without_match_is_empty() {
    let ports = vec![port_with(80, Protocol::Tcp, &[7])];
    let selected = select_by_port(ports, 81);
    assert!(selected.is_empty());
}

#[test]
fn dedupe_keeps_first_occurrence_order() {
    let ports = vec![
        port_with(1000, Protocol::Tcp, &[10]),
        port_with(1001, Protocol::Tcp, &[20]),
        port_with(1002, Protocol::Udp, &[10]),
    ];
    let procs = dedupe_processes(ports);
    let pids: Vec<u32> = procs.iter().map(|p| p.pid).collect();
    assert_eq!(pids, vec![10, 20]);
}

#[test]
fn dedupe_passes_over_port_without_processes() {
    let ports = vec![
        port_with(1000, Protocol::Tcp, &[]),
        port_with(1001, Protocol::Tcp, &[30]),
    ];
    let procs = dedupe_processes(ports);
    let pids: Vec<u32> = procs.iter().map(|p| p.pid).collect();
    assert_eq!(pids, vec![30]);
}

#[test]
fn dedupe_takes_only_first_process_of_a_port() {
    let ports = vec![port_with(1000, Protocol::Tcp, &[40, 41])];
    let procs = dedupe_processes(ports);
    let pids: Vec<u32> = procs.iter().map(|p| p.pid).collect();
    assert_eq!(pids, vec![40]);
}

#[test]
fn gate_single_process_passes_without_force() {
    let procs = vec![proc_with_pid(1, "a")];
    assert!(run_command_gate(&procs, false).is_ok());
}

#[test]
fn gate_two_processes_blocked_without_force() {
    let procs = vec![proc_with_pid(1, "a"), proc_with_pid(2, "b")];
    let r = run_command_gate(&procs, false);
    assert!(r.is_err());
    assert!(r.err().unwrap().message().contains("--force"));
}

#[test]
fn gate_force_always_passes() {
    let none: Vec<ProcessInfo> = Vec::new();
    assert!(run_command_gate(&none, true).is_ok());
    let two = vec![proc_with_pid(1, "a"), proc_with_pid(2, "b")];
    assert!(run_command_gate(&two, true).is_ok());
    let five: Vec<ProcessInfo> = (0..5).map(|i| proc_with_pid(i, "x")).collect();
    assert!(run_command_gate(&five, true).is_ok());
}

#[test]
fn substitute_replaces_placeholder() {
    let template = vec!["kill".to_owned(), "{}".to_owned()];
    let argv = substitute_template(&template, 4321);
    assert_eq!(argv, vec!["kill".to_owned(), "4321".to_owned()]);
}

#[test]
fn substitute_appends_pid_without_placeholder() {
    let template = vec!["echo".to_owned(), "hello".to_owned()];
    let argv = substitute_template(&template, 4321);
    assert_eq!(argv, vec!["echo".to_owned(), "hello".to_owned(), "4321".to_owned()]);
}

#[test]
fn substitute_replaces_every_occurrence() {
    let template = vec!["a".to_owned(), "{}".to_owned(), "{}".to_owned()];
    let argv = substitute_template(&template, 7);
    assert_eq!(argv, vec!["a".to_owned(), "7".to_owned(), "7".to_owned()]);
}

#[test]
fn scenario_single_listener_is_selected_and_killed() {
    let mut port = port_with(5000, Protocol::Tcp, &[100]);
    port.process_info[0].name = "nginx".to_owned();
    port.process_info[0].command = vec!["nginx".to_owned()];
    let selected = select_by_port(vec![port], 5000);
    assert_eq!(selected.len(), 1);
    let procs = dedupe_processes(selected);
    assert_eq!(procs.len(), 1);
    assert_eq!(procs[0].pid, 100);
    assert_eq!(procs[0].command.join(" "), "nginx");
    assert!(run_command_gate(&procs, false).is_ok());
    let argv = substitute_template(&vec!["kill".to_owned()], procs[0].pid);
    assert_eq!(argv, vec!["kill".to_owned(), "100".to_owned()]);
}

#[test]
fn scenario_two_processes_without_force_are_blocked() {
    let ports = vec![
        port_with(5000, Protocol::Tcp, &[100]),
        port_with(6000, Protocol::Tcp, &[200]),
    ];
    let procs = dedupe_processes(ports);
    assert_eq!(procs.len(), 2);
    let gate = run_command_gate(&procs, false);
    assert!(gate.is_err());
}
