use pinnacle::process::{fd_socket_name, spawn_command, ExitInfo, SpawnHistory, SpawnRefusal};

fn strings(words: &[&str]) -> Vec<String> {
    words.iter().map(|w| w.to_string()).collect()
}

#[test]
fn fd_socket_name_formats_the_pid() {
    assert_eq!(fd_socket_name(0), "pinnacle-fd-0.sock");
    assert_eq!(fd_socket_name(1234), "pinnacle-fd-1234.sock");
    assert_eq!(fd_socket_name(u32::MAX), "pinnacle-fd-4294967295.sock");
    assert_ne!(fd_socket_name(12), fd_socket_name(21));
}

#[test]
fn empty_command_is_refused() {
    let history = SpawnHistory::new();
    let r = spawn_command(&history, &Vec::new(), &strings(&["sh", "-c"]), false, false, false);
    assert_eq!(r.unwrap_err(), SpawnRefusal::EmptyCommand);
}

#[test]
fn shell_command_comes_first() {
    let history = SpawnHistory::new();
    let c = spawn_command(&history, &strings(&["alacritty", "-e", "htop"]), &strings(&["sh", "-c"]), false, false, false).unwrap();
    assert_eq!(c.arg0, "alacritty");
    assert_eq!(c.program, "sh");
    assert_eq!(c.args, strings(&["-c", "alacritty", "-e", "htop"]));
}

#[test]
fn plain_command_runs_its_first_word() {
    let history = SpawnHistory::new();
    let c = spawn_command(&history, &strings(&["foot"]), &Vec::new(), false, false, false).unwrap();
    assert_eq!(c.program, "foot");
    assert!(c.args.is_empty());
}

#[test]
fn once_spawns_at_most_once() {
    let mut history = SpawnHistory::new();
    let cmd = strings(&["waybar"]);
    let c = spawn_command(&history, &cmd, &Vec::new(), false, true, false).unwrap();
    history.record(c.arg0);
    assert!(history.contains(&"waybar".to_string()));
    let again = spawn_command(&history, &cmd, &Vec::new(), false, true, false);
    assert_eq!(again.unwrap_err(), SpawnRefusal::AlreadySpawned);
    // Without `once` the history does not matter.
    assert!(spawn_command(&history, &cmd, &Vec::new(), false, false, false).is_ok());
}

#[test]
fn record_is_idempotent() {
    let mut history = SpawnHistory::new();
    history.record("a".to_string());
    history.record("a".to_string());
    assert!(history.contains(&"a".to_string()));
    assert!(!history.contains(&"b".to_string()));
}

#[test]
fn unique_refuses_a_running_program() {
    let history = SpawnHistory::new();
    let cmd = strings(&["nm-applet"]);
    let r = spawn_command(&history, &cmd, &Vec::new(), true, false, true);
    assert_eq!(r.unwrap_err(), SpawnRefusal::AlreadyRunning);
    assert!(spawn_command(&history, &cmd, &Vec::new(), true, false, false).is_ok());
    // `already_running` only counts with `unique`.
    assert!(spawn_command(&history, &cmd, &Vec::new(), false, false, true).is_ok());
}

#[test]
fn exit_info_defaults_to_nothing() {
    let info = ExitInfo::default();
    assert_eq!(info.exit_code, None);
    assert_eq!(info.exit_msg, None);
}

#[test]
fn finished_spawn_is_recorded_only_when_started() {
    let mut history = SpawnHistory::new();
    let cmd = vec!["foot".to_string()];
    let command = spawn_command(&history, &cmd, &vec![], false, true, false).unwrap();
    history.spawn_finished(&command, false);
    assert!(!history.contains(&"foot".to_string()));
    let command = spawn_command(&history, &cmd, &vec![], false, true, false).unwrap();
    history.spawn_finished(&command, true);
    assert!(history.contains(&"foot".to_string()));
    assert!(spawn_command(&history, &cmd, &vec![], false, true, false).is_err());
}
