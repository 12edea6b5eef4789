use rmux::runtime::{join_path, log_path, pty_path, runtime_dir, socket_path, state_path};
use std::path::Path;

fn dir() -> String {
    runtime_dir(Some("/run/user/1000"), 1000)
}

#[test]
fn socket_path_contains_name() {
    let path = socket_path(&dir(), "test");
    assert!(path.contains("test.sock"));
}

#[test]
fn state_path_contains_name() {
    let path = state_path(&dir(), "myserver");
    assert!(path.contains("myserver.json"));
}

#[test]
fn log_path_contains_name() {
    let path = log_path(&dir(), "dev1");
    assert!(path.contains("dev1.log"));
}

#[test]
fn all_paths_share_parent() {
    let sock = socket_path(&dir(), "x");
    let state = state_path(&dir(), "x");
    let log = log_path(&dir(), "x");
    assert_eq!(Path::new(&sock).parent(), Path::new(&state).parent());
    assert_eq!(Path::new(&state).parent(), Path::new(&log).parent());
}

#[test]
fn runtime_dir_is_absolute() {
    assert!(Path::new(&dir()).is_absolute());
    assert!(Path::new(&runtime_dir(None, 0)).is_absolute());
}

#[test]
fn runtime_dir_values() {
    assert_eq!(runtime_dir(Some("/run/user/1000"), 7), "/run/user/1000/rmux");
    assert_eq!(runtime_dir(Some("/run/user/1000/"), 7), "/run/user/1000/rmux");
    assert_eq!(runtime_dir(Some(""), 7), "rmux");
    assert_eq!(runtime_dir(None, 0), "/tmp/rmux-0");
    assert_eq!(runtime_dir(None, 1000), "/tmp/rmux-1000");
    assert_eq!(runtime_dir(None, u32::MAX), "/tmp/rmux-4294967295");
}

#[test]
fn paths_join_as_the_system_joins_them() {
    for (dir, file) in [
        ("/tmp/rmux-1", "a.sock"),
        ("/tmp/rmux-1/", "a.sock"),
        ("", "a.sock"),
        ("/", "a.sock"),
        ("dir", "/abs.sock"),
        ("dir", ""),
    ] {
        let joined = Path::new(dir).join(file);
        assert_eq!(join_path(dir, file), joined.to_str().unwrap());
    }
}

#[test]
fn pty_path_value() {
    assert_eq!(pty_path("/tmp/rmux-1", "dev"), "/tmp/rmux-1/dev.pty");
}
