use launcher::program::{candidate_paths, is_desktop_file, split_words, DesktopEntry};

fn entry(name: Option<&str>, command: Option<&str>, try_exec: Option<&str>, terminal: Option<&str>) -> DesktopEntry {
    DesktopEntry {
        name: name.map(|s| s.to_string()),
        command: command.map(|s| s.to_string()),
        try_exec: try_exec.map(|s| s.to_string()),
        terminal: terminal.map(|s| s.to_string()),
    }
}

#[test]
fn split_words_drops_white_space() {
    assert_eq!(split_words("  firefox  --new-window\t%u "), vec!["firefox", "--new-window", "%u"]);
    assert!(split_words("").is_empty());
    assert!(split_words(" \t ").is_empty());
}

#[test]
fn entry_with_name_and_exec() {
    let p = entry(Some("Firefox"), Some("firefox %u"), None, None).to_program(false).unwrap();
    assert_eq!(p.name, "Firefox");
    assert_eq!(p.cmd, vec!["firefox", "%u"]);
}

#[test]
fn entry_without_name_is_named_by_exec() {
    let p = entry(None, Some("htop -d 10"), None, Some("false")).to_program(false).unwrap();
    assert_eq!(p.name, "htop -d 10");
    assert_eq!(p.cmd, vec!["htop", "-d", "10"]);
}

#[test]
fn terminal_entry_runs_in_kitty() {
    let p = entry(Some("Htop"), Some("htop"), None, Some("true")).to_program(false).unwrap();
    assert_eq!(p.cmd, vec!["kitty", "htop"]);
}

#[test]
fn entry_without_exec_is_skipped() {
    assert!(entry(Some("Nothing"), None, None, None).to_program(true).is_none());
}

#[test]
fn entry_with_missing_try_exec_is_skipped() {
    let e = entry(Some("Steam"), Some("steam"), Some("steam"), None);
    assert!(e.to_program(false).is_none());
    assert_eq!(e.to_program(true).unwrap().cmd, vec!["steam"]);
}

#[test]
fn candidate_paths_follow_path_order() {
    assert_eq!(candidate_paths("/usr/bin:/bin", "ls"), vec!["/usr/bin/ls", "/bin/ls"]);
    assert_eq!(candidate_paths("", "ls"), vec!["/ls"]);
    assert_eq!(candidate_paths("/a::/b:", "x"), vec!["/a/x", "/x", "/b/x", "/x"]);
}

#[test]
fn entry_with_blank_exec_is_skipped() {
    assert!(entry(Some("Blank"), Some(""), None, None).to_program(true).is_none());
    assert!(entry(Some("Blank"), Some("  \t"), None, Some("true")).to_program(true).is_none());
}

#[test]
fn desktop_file_names() {
    assert!(is_desktop_file("firefox.desktop"));
    assert!(is_desktop_file("..desktop"));
    assert!(!is_desktop_file(".desktop"));
    assert!(!is_desktop_file("firefox.desktop.bak"));
    assert!(!is_desktop_file("firefox.Desktop"));
    assert!(!is_desktop_file("desktop"));
    assert!(!is_desktop_file(""));
}
