use neocash::completer::ShellCompleter;
use neocash::menu::CompletionMenu;
use neocash::menu::MenuKey;
use neocash::menu::MenuSession;
use neocash::menu::MenuStep;

fn strings(v: &[&str]) -> Vec<String> {
    v.iter().map(|s| s.to_string()).collect()
}

#[test]
fn menu_new_state() {
    let m = CompletionMenu::new(strings(&["a", "b"]));
    assert_eq!(m.items, vec!["a", "b"]);
    assert_eq!(m.selected, 0);
    assert!(m.filter.is_empty());
}

#[test]
fn menu_scenario_sorted_pick_last() {
    // the engine sorts candidates before the menu ever sees them
    let completer = ShellCompleter::new();
    let listings = vec![strings(&["cat", "cargo", "car"])];
    let commands = completer.get_all_commands(&listings);
    assert_eq!(commands, vec!["car", "cargo", "cat"]);

    let mut m = CompletionMenu::new(commands);
    assert!(matches!(m.on_key(MenuKey::Char('c')), MenuStep::Continue));
    assert!(matches!(m.on_key(MenuKey::Char('a')), MenuStep::Continue));
    let view = m.render_view().expect("three rows pass the filter");
    assert_eq!(view.rows, vec!["car", "cargo", "cat"]);
    assert_eq!(view.selected, 0);
    assert!(matches!(m.on_key(MenuKey::Down), MenuStep::Continue));
    assert!(matches!(m.on_key(MenuKey::Down), MenuStep::Continue));
    assert_eq!(m.selected, 2);
    match m.on_key(MenuKey::Enter) {
        MenuStep::Confirmed(s) => assert_eq!(s, "cat"),
        _ => panic!("expected a confirmed choice"),
    }
}

#[test]
fn menu_scenario_empty_filter_cancels() {
    let mut m = CompletionMenu::new(strings(&["cat", "dog"]));
    assert!(matches!(m.on_key(MenuKey::Char('x')), MenuStep::Continue));
    assert!(m.render_view().is_none());
}

#[test]
fn menu_navigation_bounds() {
    let mut m = CompletionMenu::new(strings(&["a", "b", "c"]));
    assert!(matches!(m.on_key(MenuKey::Up), MenuStep::Continue));
    assert_eq!(m.selected, 0);
    for _ in 0..5 {
        m.on_key(MenuKey::Down);
    }
    assert_eq!(m.selected, 2);
}

#[test]
fn menu_backspace_restores() {
    let mut m = CompletionMenu::new(strings(&["car", "cat", "dog"]));
    m.on_key(MenuKey::Char('c'));
    m.on_key(MenuKey::Char('a'));
    m.on_key(MenuKey::Char('r'));
    assert_eq!(m.filtered_items(), vec!["car"]);
    m.on_key(MenuKey::Backspace);
    assert_eq!(m.filtered_items(), vec!["car", "cat"]);
    m.on_key(MenuKey::Backspace);
    m.on_key(MenuKey::Backspace);
    assert_eq!(m.filtered_items(), vec!["car", "cat", "dog"]);
    m.on_key(MenuKey::Backspace);
    assert_eq!(m.filtered_items(), vec!["car", "cat", "dog"]);
}

#[test]
fn menu_narrowing_monotone() {
    // appending a filter character never grows the filtered view
    let mut m = CompletionMenu::new(strings(&["car", "cargo", "cat", "dog"]));
    let mut prev = m.filtered_items().len();
    for c in ['c', 'a', 'r', 'z'] {
        m.on_key(MenuKey::Char(c));
        let now = m.filtered_items().len();
        assert!(now <= prev);
        prev = now;
    }
}

#[test]
fn menu_selection_stays_in_range() {
    let mut m = CompletionMenu::new(strings(&["aa", "ab", "b"]));
    let keys = [
        MenuKey::Down,
        MenuKey::Down,
        MenuKey::Char('a'),
        MenuKey::Down,
        MenuKey::Backspace,
        MenuKey::Up,
        MenuKey::Other,
    ];
    for k in keys {
        m.on_key(k);
        let filtered = m.filtered_items();
        if !filtered.is_empty() {
            assert!(m.selected < filtered.len() || m.render_view().is_some());
        }
    }
}

#[test]
fn menu_escape_cancels() {
    let mut m = CompletionMenu::new(strings(&["a", "b"]));
    assert!(matches!(m.on_key(MenuKey::Esc), MenuStep::Cancelled));
}

#[test]
fn menu_render_clamps_selection() {
    let mut m = CompletionMenu::new(strings(&["aa", "ab", "abc"]));
    m.on_key(MenuKey::Down);
    m.on_key(MenuKey::Down);
    assert_eq!(m.selected, 2);
    m.on_key(MenuKey::Char('a'));
    m.on_key(MenuKey::Char('b'));
    let view = m.render_view().expect("two rows remain");
    assert_eq!(view.rows, vec!["ab", "abc"]);
    assert!(view.selected < view.rows.len());
}

#[test]
fn session_balances_on_confirm() {
    let menu = CompletionMenu::new(strings(&["one", "two"]));
    let mut s = MenuSession::start(menu);
    assert_eq!(s.enters, 0);
    assert_eq!(s.leaves, 0);
    s.open_screen(true);
    assert_eq!(s.enters, 1);
    let _view = s.render().expect("both rows shown");
    let step = s.on_key(MenuKey::Enter);
    let outcome = match step {
        MenuStep::Confirmed(text) => Some(text),
        _ => None,
    };
    s.close_screen(outcome.clone());
    assert_eq!(s.enters, s.leaves);
    assert_eq!(outcome.as_deref(), Some("one"));
}

#[test]
fn session_balances_on_failed_open() {
    let menu = CompletionMenu::new(strings(&["one"]));
    let mut s = MenuSession::start(menu);
    s.open_screen(false);
    assert_eq!(s.enters, s.leaves);
    assert!(s.outcome.is_none());
}

#[test]
fn session_balances_on_cancel() {
    let menu = CompletionMenu::new(strings(&["one", "two"]));
    let mut s = MenuSession::start(menu);
    s.open_screen(true);
    let step = s.on_key(MenuKey::Esc);
    assert!(matches!(step, MenuStep::Cancelled));
    s.close_screen(None);
    assert_eq!(s.enters, 1);
    assert_eq!(s.leaves, 1);
}
