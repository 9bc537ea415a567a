use claude_sync_watch::config::{
    dropbox_candidates, parse_config_line, tilde, tilde_with, Config, ConflictStrategy, LogLevel,
    Setting, DEFAULT_DEBOUNCE_NANOS, DEFAULT_MAX_BATCH_NANOS,
};

#[test]
fn default_strategy_is_newest() {
    assert_eq!(ConflictStrategy::default(), ConflictStrategy::Newest);
}

#[test]
fn machine_id_is_the_host_name_or_unknown() {
    assert_eq!(Config::machine_id_from(Some("host-a".to_string())), "host-a");
    assert_eq!(Config::machine_id_from(None), "unknown");
    assert!(!Config::machine_id().is_empty());
}

#[test]
fn tilde_is_replaced_by_the_home_directory() {
    assert_eq!(tilde_with("~/Dropbox", Some("/home/u")), "/home/u/Dropbox");
    assert_eq!(tilde_with("~", Some("/home/u")), "/home/u/");
    assert_eq!(tilde_with("~Dropbox", Some("/home/u")), "/home/u/Dropbox");
    assert_eq!(tilde_with("~//x", Some("/home/u")), "/home/u//x");
    assert_eq!(tilde_with("/abs/~", Some("/home/u")), "/abs/~");
    assert_eq!(tilde_with("", Some("/home/u")), "");
    assert_eq!(tilde_with("~/Dropbox", None), "~/Dropbox");
    assert_eq!(tilde("/plain/path"), "/plain/path");
    match Config::home_dir() {
        Some(home) => assert!(tilde("~/x").starts_with(home.as_str())),
        None => assert_eq!(tilde("~/x"), "~/x"),
    }
}

fn assembled() -> Config {
    Config::assemble(
        "/home/u/local".to_string(),
        "/home/u/Dropbox".to_string(),
        3,
        4,
        ConflictStrategy::Remote,
        LogLevel::Warn,
        vec!["settings.json".to_string(), "mcp.json".to_string()],
        vec!["skills".to_string(), "plugins".to_string()],
    )
}

#[test]
fn state_is_kept_in_the_local_directory() {
    assert_eq!(assembled().local_state_path(), "/home/u/local/.sync_state.json");
}

#[test]
fn assemble_places_the_mirror_in_the_shared_folder() {
    let config = assembled();
    assert_eq!(config.dropbox_base, "/home/u/Dropbox");
    assert_eq!(config.dropbox_claude_dir, "/home/u/Dropbox/ClaudeCodeSync");
    assert_eq!(config.claude_dir, "/home/u/local");
    assert_eq!(config.debounce_nanos, 3);
    assert_eq!(config.max_batch_nanos, 4);
    assert_eq!(config.conflict_strategy, ConflictStrategy::Remote);
    assert_eq!(config.log_level, LogLevel::Warn);
    assert_eq!(config.clone().log_level, LogLevel::Warn);
    assert_eq!(config.sync_files, vec!["settings.json", "mcp.json"]);
    assert_eq!(config.sync_dirs, vec!["skills", "plugins"]);
    let copy = config.clone();
    assert_eq!(copy.sync_files, config.sync_files);
    assert_eq!(copy.claude_dir, config.claude_dir);
    assert_eq!(DEFAULT_DEBOUNCE_NANOS, 3_000_000_000);
    assert_eq!(DEFAULT_MAX_BATCH_NANOS, 10_000_000_000);
}

#[test]
fn shared_folder_is_looked_for_in_three_places() {
    assert_eq!(
        dropbox_candidates("/Users/a"),
        vec![
            "/Users/a/Dropbox",
            "/Users/a/Library/CloudStorage/Dropbox",
            "/Users/Shared/Dropbox"
        ]
    );
}

fn value_of(setting: Option<Setting>) -> String {
    match setting {
        Some(Setting::DropboxBase(v)) => format!("base:{}", v),
        Some(Setting::DebounceSecs(v)) => format!("debounce:{}", v),
        Some(Setting::MaxBatchSecs(v)) => format!("batch:{}", v),
        Some(Setting::Strategy(s)) => format!("strategy:{:?}", s),
        Some(Setting::Level(l)) => format!("level:{:?}", l),
        None => "none".to_string(),
    }
}

#[test]
fn config_lines_give_key_and_value() {
    assert_eq!(value_of(parse_config_line("DROPBOX_BASE=\"~/Dropbox\"")), "base:~/Dropbox");
    assert_eq!(value_of(parse_config_line("  DROPBOX_BASE = '/a b/c'  ")), "base:/a b/c");
    assert_eq!(value_of(parse_config_line("DEBOUNCE_SECS=2.5")), "debounce:2.5");
    assert_eq!(value_of(parse_config_line("MAX_BATCH_SECS= 30 ")), "batch:30");
    assert_eq!(value_of(parse_config_line("DROPBOX_BASE=a=b")), "base:a=b");
    assert_eq!(value_of(parse_config_line("DROPBOX_BASE=")), "base:");
    assert_eq!(value_of(parse_config_line("DROPBOX_BASE=\"'x'\"")), "base:x");
    assert_eq!(value_of(parse_config_line("DROPBOX_BASE='\"x\"'")), "base:\"x\"");
    assert_eq!(value_of(parse_config_line("DROPBOX_BASE=\" x \"")), "base: x ");
}

#[test]
fn config_lines_that_say_nothing() {
    assert_eq!(value_of(parse_config_line("")), "none");
    assert_eq!(value_of(parse_config_line("   \t ")), "none");
    assert_eq!(value_of(parse_config_line("# DROPBOX_BASE=x")), "none");
    assert_eq!(value_of(parse_config_line("   #comment")), "none");
    assert_eq!(value_of(parse_config_line("DROPBOX_BASE")), "none");
    assert_eq!(value_of(parse_config_line("UNKNOWN=1")), "none");
    assert_eq!(value_of(parse_config_line("dropbox_base=x")), "none");
    assert_eq!(value_of(parse_config_line("=x")), "none");
}

#[test]
fn strategy_and_level_go_by_name_in_any_case() {
    assert_eq!(value_of(parse_config_line("CONFLICT_STRATEGY=local")), "strategy:Local");
    assert_eq!(value_of(parse_config_line("CONFLICT_STRATEGY=\"REMOTE\"")), "strategy:Remote");
    assert_eq!(value_of(parse_config_line("CONFLICT_STRATEGY=newest")), "strategy:Newest");
    assert_eq!(value_of(parse_config_line("CONFLICT_STRATEGY=whatever")), "strategy:Newest");
    assert_eq!(value_of(parse_config_line("LOG_LEVEL=Debug")), "level:Debug");
    assert_eq!(value_of(parse_config_line("LOG_LEVEL=warn")), "level:Warn");
    assert_eq!(value_of(parse_config_line("LOG_LEVEL='ERROR'")), "level:Error");
    assert_eq!(value_of(parse_config_line("LOG_LEVEL=info")), "level:Info");
    assert_eq!(value_of(parse_config_line("LOG_LEVEL=")), "level:Info");
    assert_eq!(LogLevel::Info, LogLevel::Info);
}
