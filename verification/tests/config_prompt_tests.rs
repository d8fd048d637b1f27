use neocash::config::PathDisplayMode;
use neocash::config::PromptConfig;
use neocash::config::ShellConfig;
use neocash::prompt::format_path;
use neocash::prompt::get_prompt_context;
use neocash::prompt::render_prompt;
use neocash::prompt::PromptContext;

fn custom_config() -> ShellConfig {
    ShellConfig {
        prompt: PromptConfig {
            template: "$path>".to_string(),
            path_mode: PathDisplayMode::Full,
            status_icon_success: "+".to_string(),
            status_icon_error: "-".to_string(),
            show_time: false,
            show_user: false,
            show_host: false,
            default_editor: "vi".to_string(),
        },
        colors: vec![("red".to_string(), "R".to_string())],
        history_size: 10,
        history_file: "h.txt".to_string(),
        config_path: String::new(),
    }
}

#[test]
fn default_config_values() {
    let c = ShellConfig::default();
    assert_eq!(c.prompt.template, "[$time] $user@$host:$path $status_icon ");
    assert!(matches!(c.prompt.path_mode, PathDisplayMode::Short));
    assert_eq!(c.prompt.status_icon_success, "$green\u{2713}$reset");
    assert_eq!(c.prompt.status_icon_error, "$red\u{2717}$reset");
    assert!(c.prompt.show_time && c.prompt.show_user && c.prompt.show_host);
    assert_eq!(c.prompt.default_editor, "nano");
    assert_eq!(c.history_size, 1000);
    assert_eq!(c.history_file, "~/.local/share/ncash/history.txt");
    assert_eq!(c.colors.len(), 21);
    assert_eq!(c.colors[0], ("reset".to_string(), "\x1b[0m".to_string()));
    assert_eq!(c.colors[20], ("strikethrough".to_string(), "\x1b[9m".to_string()));
}

#[test]
fn load_without_file_takes_defaults() {
    let c = ShellConfig::load(None, "/etc/ncashrc".to_string());
    assert_eq!(c.config_path, "/etc/ncashrc");
    assert_eq!(c.prompt.default_editor, "nano");
    assert_eq!(c.colors.len(), 21);
    assert_eq!(c.get_active_config_path(), "/etc/ncashrc");
}

#[test]
fn load_merges_missing_colors() {
    let parsed = custom_config();
    let c = ShellConfig::load(Some(parsed), "/tmp/rc".to_string());
    assert_eq!(c.config_path, "/tmp/rc");
    assert_eq!(c.prompt.default_editor, "vi");
    // the file's own entry stays first and keeps its value
    assert_eq!(c.colors[0], ("red".to_string(), "R".to_string()));
    // the missing defaults follow in default order, skipping "red"
    assert_eq!(c.colors[1].0, "reset");
    assert_eq!(c.colors[2].0, "black");
    assert_eq!(c.colors[3].0, "green");
    assert_eq!(c.colors.len(), 21);
    assert!(c.colors.iter().filter(|p| p.0 == "red").count() == 1);
}

#[test]
fn config_paths() {
    let c = ShellConfig::default();
    assert_eq!(
        ShellConfig::get_default_config_path("/home/u/.config"),
        "/home/u/.config/neocash/ncashrc"
    );
    let home = String::from("/home/u");
    assert_eq!(c.get_history_path(Some(&home)), "/home/u/.local/share/ncash/history.txt");
    assert_eq!(c.get_history_path(None), "~/.local/share/ncash/history.txt");
}

#[test]
fn format_path_modes() {
    let home = "/home/u";
    assert_eq!(format_path("/home/u/x", &PathDisplayMode::Full, home), "/home/u/x");
    assert_eq!(format_path("/home/u/x", &PathDisplayMode::Short, home), "~/x");
    assert_eq!(format_path("/home/user2/x", &PathDisplayMode::Short, home), "/home/user2/x");
    assert_eq!(
        format_path("/home/u/projects/app", &PathDisplayMode::ShortAll, home),
        "~/p/app"
    );
    assert_eq!(
        format_path("/usr/local/share", &PathDisplayMode::ShortAll, home),
        "/u/l/share"
    );
    assert_eq!(format_path("/a/b", &PathDisplayMode::Current, home), "b");
    assert_eq!(format_path("/", &PathDisplayMode::Current, home), "?");
}

#[test]
fn prompt_context_flags_and_icon() {
    let mut config = ShellConfig::default();
    let ctx = get_prompt_context(0, &config, "12:00:00", "user", "host", "/home/u/x", "/home/u");
    assert_eq!(ctx.time, "12:00:00");
    assert_eq!(ctx.username, "user");
    assert_eq!(ctx.hostname, "host");
    assert_eq!(ctx.path, "~/x");
    assert_eq!(ctx.status_icon, "$green\u{2713}$reset");
    assert_eq!(ctx.last_error, 0);

    config.prompt.show_time = false;
    config.prompt.show_user = false;
    config.prompt.show_host = false;
    let ctx2 = get_prompt_context(2, &config, "12:00:00", "user", "host", "/home/u", "/home/u");
    assert_eq!(ctx2.time, "");
    assert_eq!(ctx2.username, "");
    assert_eq!(ctx2.hostname, "");
    assert_eq!(ctx2.status_icon, "$red\u{2717}$reset");
    assert_eq!(ctx2.last_error, 2);
}

#[test]
fn render_prompt_substitutes_everything() {
    let config = ShellConfig::default();
    let ctx = PromptContext {
        time: "12:00:00".to_string(),
        last_error: 0,
        hostname: "host".to_string(),
        username: "user".to_string(),
        path: "~".to_string(),
        status_icon: "$green\u{2713}$reset".to_string(),
    };
    let rendered = render_prompt(&config, &ctx);
    assert_eq!(rendered, "[12:00:00] user@host:~ \x1b[32m\u{2713}\x1b[0m ");
}

#[test]
fn render_prompt_error_code() {
    let mut config = custom_config();
    config.prompt.template = "$err|$path".to_string();
    let ctx = PromptContext {
        time: String::new(),
        last_error: -3,
        hostname: String::new(),
        username: String::new(),
        path: "/tmp".to_string(),
        status_icon: String::new(),
    };
    assert_eq!(render_prompt(&config, &ctx), "-3|/tmp");
}
