use neocash::completer::Candidate;
use neocash::completer::FsEntry;
use neocash::completer::ShellCompleter;

fn strings(v: &[&str]) -> Vec<String> {
    v.iter().map(|s| s.to_string()).collect()
}

fn displays(cands: &[Candidate]) -> Vec<String> {
    cands.iter().map(|c| c.display.clone()).collect()
}

#[test]
fn classify_path_contexts() {
    let c = ShellCompleter::new();
    assert!(!c.should_complete_path(""));
    assert!(!c.should_complete_path("   "));
    assert!(c.should_complete_path("ls /usr/loc"));
    assert!(c.should_complete_path("cat"));
    assert!(!c.should_complete_path("ls /usr/loc "));
    assert!(c.should_complete_path("a | b"));
    assert!(!c.should_complete_path("a |"));
    assert!(!c.should_complete_path("echo hi;"));
    assert!(!c.should_complete_path("x&y"));
}

#[test]
fn prefix_extraction() {
    let c = ShellCompleter::new();
    assert_eq!(c.complete_prefix("ls /usr/loc"), "/usr/loc");
    assert_eq!(c.complete_prefix("ca"), "ca");
    // a metacharacter in the last token falls back to the whole line
    assert_eq!(c.complete_prefix("a | b "), "a | b ");
    assert_eq!(c.complete_prefix(""), "");
}

#[test]
fn commands_dedup_and_sort() {
    let c = ShellCompleter::new();
    let listings = vec![strings(&["cat", "cargo"]), strings(&["car", "cat"])];
    assert_eq!(c.get_all_commands(&listings), vec!["car", "cargo", "cat"]);
    assert_eq!(c.get_all_commands(&Vec::new()), Vec::<String>::new());
}

#[test]
fn executables_filtered_by_prefix() {
    // names present on the search path and starting with the prefix,
    // each once, ascending
    let c = ShellCompleter::new();
    let listings = vec![strings(&["zsh", "cat", "cargo"]), strings(&["car", "cat", "cmp"])];
    let commands = c.get_all_commands(&listings);
    let cands = c.filter_commands(&commands, "ca");
    assert_eq!(displays(&cands), vec!["car", "cargo", "cat"]);
    for cand in &cands {
        assert_eq!(cand.display, cand.replacement);
    }
    let none = c.filter_commands(&commands, "xyz");
    assert!(none.is_empty());
}

#[test]
fn complete_twice_same_result() {
    // unchanged line and listings give identical candidate sets
    let c = ShellCompleter::new();
    let listings = vec![strings(&["b", "a"]), strings(&["c", "a"])];
    let first = c.filter_commands(&c.get_all_commands(&listings), "");
    let second = c.filter_commands(&c.get_all_commands(&listings), "");
    assert_eq!(displays(&first), displays(&second));
}

#[test]
fn path_prefix_split() {
    let c = ShellCompleter::new();
    assert_eq!(c.split_path_prefix("/usr/loc"), ("/usr/".to_string(), "loc".to_string()));
    assert_eq!(c.split_path_prefix("loc"), ("".to_string(), "loc".to_string()));
    assert_eq!(c.split_path_prefix("a/b/"), ("a/b/".to_string(), "".to_string()));
    assert_eq!(c.split_path_prefix(""), ("".to_string(), "".to_string()));
}

#[test]
fn path_candidates_marked_and_sorted() {
    let c = ShellCompleter::new();
    let entries = vec![
        FsEntry { name: "share".to_string(), is_dir: true },
        FsEntry { name: "local".to_string(), is_dir: true },
        FsEntry { name: "lib".to_string(), is_dir: false },
    ];
    let cands = c.complete_paths(&entries, "l");
    assert_eq!(displays(&cands), vec!["lib", "local/"]);
    for cand in &cands {
        assert_eq!(cand.display, cand.replacement);
    }
}

#[test]
fn engine_single_path_candidate() {
    // one match returns directly, without the menu
    let c = ShellCompleter::new();
    let line = "ls /usr/loc";
    assert!(c.should_complete_path(line));
    let prefix = c.complete_prefix(line);
    assert_eq!(prefix, "/usr/loc");
    let (dir, stem) = c.split_path_prefix(prefix.as_str());
    assert_eq!(dir, "/usr/");
    assert_eq!(stem, "loc");
    let entries = vec![
        FsEntry { name: "local".to_string(), is_dir: true },
        FsEntry { name: "bin".to_string(), is_dir: true },
    ];
    let cands = c.complete_paths(&entries, stem.as_str());
    assert_eq!(displays(&cands), vec!["local/"]);
    assert!(!c.menu_wanted(&cands));
    let (start, resolved) = c.resolve(line.len(), prefix.len(), cands, None);
    assert_eq!(start, 3);
    assert_eq!(displays(&resolved), vec!["local/"]);
}

#[test]
fn resolve_collapses_on_choice() {
    let c = ShellCompleter::new();
    let cands = vec![
        Candidate { display: "car".to_string(), replacement: "car".to_string() },
        Candidate { display: "cat".to_string(), replacement: "cat".to_string() },
    ];
    assert!(c.menu_wanted(&cands));
    let (start, resolved) = c.resolve(2, 2, cands, Some("cat".to_string()));
    assert_eq!(start, 0);
    assert_eq!(resolved.len(), 1);
    assert_eq!(resolved[0].display, "cat");
    assert_eq!(resolved[0].replacement, "cat");
}

#[test]
fn resolve_keeps_set_on_cancel() {
    let c = ShellCompleter::new();
    let cands = vec![
        Candidate { display: "car".to_string(), replacement: "car".to_string() },
        Candidate { display: "cat".to_string(), replacement: "cat".to_string() },
    ];
    let (start, resolved) = c.resolve(10, 2, cands, None);
    assert_eq!(start, 8);
    assert_eq!(displays(&resolved), vec!["car", "cat"]);
}
