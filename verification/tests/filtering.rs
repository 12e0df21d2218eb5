use console_logger::{init_logger, LoggerSetup, Stream, FILTER_VARIABLE};
use env_logger::filter::{Builder, Filter};
use log::{Level, LevelFilter, Metadata};

fn filter_of(setup: &LoggerSetup) -> Filter {
    let mut builder = Builder::new();
    builder.filter(None, setup.default_level);
    if let Some(directives) = &setup.directives {
        builder.parse(directives);
    }
    builder.build()
}

fn passes(filter: &Filter, level: Level, target: &str) -> bool {
    filter.enabled(&Metadata::builder().level(level).target(target).build())
}

#[test]
fn the_filter_variable_is_the_conventional_one() {
    assert_eq!(FILTER_VARIABLE, "RUST_LOG");
}

#[test]
fn setup_without_a_filter_variable() {
    let setup = init_logger(None);
    assert_eq!(setup.target, Stream::Stdout);
    assert_eq!(setup.default_level, LevelFilter::Info);
    assert_eq!(setup.directives, None);
}

#[test]
fn setup_with_an_empty_filter_variable() {
    let setup = init_logger(Some(String::new()));
    assert_eq!(setup.target, Stream::Stdout);
    assert_eq!(setup.default_level, LevelFilter::Info);
    assert_eq!(setup.directives, None);
}

#[test]
fn setup_with_a_filter_variable() {
    let setup = init_logger(Some(String::from("app::db=debug")));
    assert_eq!(setup.target, Stream::Stdout);
    assert_eq!(setup.default_level, LevelFilter::Info);
    assert_eq!(setup.directives, Some(String::from("app::db=debug")));
}

#[test]
fn setup_keeps_a_value_it_cannot_read_as_directives() {
    let setup = init_logger(Some(String::from("=== no directive ===")));
    assert_eq!(setup.default_level, LevelFilter::Info);
    assert_eq!(setup.directives, Some(String::from("=== no directive ===")));
}

#[test]
fn without_a_filter_variable_info_is_the_floor() {
    let filter = filter_of(&init_logger(None));
    assert!(passes(&filter, Level::Error, "app::main"));
    assert!(passes(&filter, Level::Warn, "app::main"));
    assert!(passes(&filter, Level::Info, "app::main"));
    assert!(!passes(&filter, Level::Debug, "app::main"));
    assert!(!passes(&filter, Level::Trace, "app::main"));
    assert_eq!(filter.filter(), LevelFilter::Info);
}

#[test]
fn an_empty_filter_variable_changes_nothing() {
    let filter = filter_of(&init_logger(Some(String::new())));
    assert!(passes(&filter, Level::Info, "app::main"));
    assert!(!passes(&filter, Level::Debug, "app::main"));
    assert_eq!(filter.filter(), LevelFilter::Info);
}

#[test]
fn a_debug_directive_for_one_module_opens_that_module_only() {
    let filter = filter_of(&init_logger(Some(String::from("app::db=debug"))));
    assert!(passes(&filter, Level::Debug, "app::db"));
    assert!(passes(&filter, Level::Debug, "app::db::pool"));
    assert!(passes(&filter, Level::Info, "app::db"));
    assert!(!passes(&filter, Level::Trace, "app::db"));
    assert!(!passes(&filter, Level::Debug, "app::main"));
    assert!(!passes(&filter, Level::Debug, "other"));
    assert!(passes(&filter, Level::Info, "app::main"));
    assert!(passes(&filter, Level::Error, "other"));
}

#[test]
fn a_bare_level_in_the_filter_variable_replaces_the_floor() {
    let filter = filter_of(&init_logger(Some(String::from("trace"))));
    assert!(passes(&filter, Level::Trace, "anything"));
    let filter = filter_of(&init_logger(Some(String::from("warn"))));
    assert!(!passes(&filter, Level::Info, "anything"));
    assert!(passes(&filter, Level::Warn, "anything"));
}
