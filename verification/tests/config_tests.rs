use command_runner::cli::handle_rm;
use command_runner::cli::Add;
use command_runner::cli::List;
use command_runner::cli::Rm;
use command_runner::cli::Run;
use command_runner::command::Command;
use command_runner::command::CommandAddMode;
use command_runner::command::Identifier;
use command_runner::config::parse_port;
use command_runner::config::Config;
use command_runner::config::PartialConfig;
use command_runner::errors::ErrorKind;
use command_runner::store::Store;

fn layer(database: Option<&str>, host: Option<&str>, port: Option<u16>) -> PartialConfig {
    PartialConfig {
        database: database.map(|d| d.to_string()),
        host: host.map(|h| h.to_string()),
        port,
    }
}

#[test]
fn configuration_resolution_order_is_cli_env_file_defaults() {
    let merged = PartialConfig::from_cli_or_env_or_file(
        layer(None, Some("10.0.0.1"), None),
        layer(Some("/env/db"), Some("10.0.0.2"), None),
        layer(Some("/file/db"), Some("10.0.0.3"), Some(9000)),
    );
    let config = Config::try_new(merged).unwrap();
    assert_eq!(config.database, "/env/db");
    assert_eq!(config.host, "10.0.0.1");
    assert_eq!(config.port, 9000);
}

#[test]
fn built_in_defaults_fill_host_and_port_but_not_database() {
    let merged = PartialConfig::from_cli_or_env_or_file(
        layer(Some("/cli/db"), None, None),
        layer(None, None, None),
        layer(None, None, None),
    );
    let config = Config::try_new(merged).unwrap();
    assert_eq!(config.host, "127.0.0.1");
    assert_eq!(config.port, 5599);
    let missing = PartialConfig::from_cli_or_env_or_file(
        layer(None, None, None),
        layer(None, None, None),
        layer(None, None, None),
    );
    let e = Config::try_new(missing).unwrap_err();
    assert_eq!(e.kind, ErrorKind::InvalidConfiguration);
    assert_eq!(e.describe(), "Database path is required in the configuration");
}

#[test]
fn cli_layer_takes_host_and_port_only_from_the_serve_command() {
    let run = Run { host: Some("0.0.0.0".to_string()), port: Some(8080) };
    let with_run = PartialConfig::from_cli(Some("/db".to_string()), Some(&run));
    assert_eq!(with_run.database.as_deref(), Some("/db"));
    assert_eq!(with_run.host.as_deref(), Some("0.0.0.0"));
    assert_eq!(with_run.port, Some(8080));
    let without_run = PartialConfig::from_cli(Some("/db".to_string()), None);
    assert_eq!(without_run.host, None);
    assert_eq!(without_run.port, None);
}

#[test]
fn port_parsing_accepts_decimal_with_optional_plus() {
    assert_eq!(parse_port("5599"), Some(5599));
    assert_eq!(parse_port("+80"), Some(80));
    assert_eq!(parse_port("0"), Some(0));
    assert_eq!(parse_port("007"), Some(7));
    assert_eq!(parse_port("65535"), Some(65535));
    assert_eq!(parse_port("65536"), None);
    assert_eq!(parse_port("99999999999999999999"), None);
    assert_eq!(parse_port(""), None);
    assert_eq!(parse_port("+"), None);
    assert_eq!(parse_port("12a"), None);
    assert_eq!(parse_port("-1"), None);
    assert_eq!(parse_port(" 80"), None);
}

#[test]
fn add_flags_choose_the_conflict_mode() {
    let base = |ignore, replace| Add {
        ignore,
        replace,
        name: "n".to_string(),
        command: "c".to_string(),
        args: vec![],
    };
    assert_eq!(base(true, false).mode(), CommandAddMode::Ignore);
    assert_eq!(base(false, true).mode(), CommandAddMode::Replace);
    assert_eq!(base(false, false).mode(), CommandAddMode::Error);
    assert_eq!(base(true, true).mode(), CommandAddMode::Error);
}

#[test]
fn rm_identifier_priority_is_id_then_name_then_command() {
    let base = Rm { name: None, command: None, id: None, all: false };
    let by_id = Rm { id: Some(5), name: Some("n".to_string()), ..base };
    assert!(matches!(by_id.to_identifier().unwrap(), Identifier::Id(5)));
    let by_name = Rm {
        name: Some("n".to_string()),
        command: Some("c".to_string()),
        id: None,
        all: false,
    };
    assert!(matches!(by_name.to_identifier().unwrap(), Identifier::Name(n) if n == "n"));
    let by_like = Rm { command: Some("c".to_string()), name: None, id: None, all: false };
    assert!(matches!(by_like.to_identifier().unwrap(), Identifier::Like(p) if p == "c"));
    let none = Rm { name: None, command: None, id: None, all: false };
    assert_eq!(none.to_identifier().unwrap_err().kind, ErrorKind::InvalidIdentifier);
}

fn seeded() -> Store {
    let mut store = Store::new();
    for (id, name) in [(1u128, "alpha"), (2, "beta"), (3, "alphabet")] {
        store
            .add_with_id(
                id,
                Command::new(name.to_string(), "echo".to_string(), vec![]),
                CommandAddMode::Error,
            )
            .unwrap();
    }
    store
}

#[test]
fn list_selection_filters_by_name_else_command_else_lists_all() {
    let store = seeded();
    let all = List { name: None, command: None, verbose: false };
    assert_eq!(all.selection(&store).unwrap().len(), 3);
    let by_name = List { name: Some("alpha".to_string()), command: None, verbose: false };
    let hits = by_name.selection(&store).unwrap();
    assert_eq!(hits.len(), 2);
    assert_eq!(hits[0].name, "alpha");
    assert_eq!(hits[1].name, "alphabet");
    let by_command = List { name: None, command: Some("echo".to_string()), verbose: false };
    assert_eq!(by_command.selection(&store).unwrap().len(), 3);
    let nothing = List { name: Some("zzz".to_string()), command: None, verbose: false };
    assert_eq!(nothing.selection(&store).unwrap_err().kind, ErrorKind::NotFound);
}

#[test]
fn rm_removes_one_resolved_row_or_everything() {
    let mut store = seeded();
    let one = Rm { name: Some("beta".to_string()), command: None, id: None, all: false };
    handle_rm(&mut store, &one).unwrap();
    assert_eq!(store.list().len(), 2);
    let by_pattern = Rm { name: None, command: Some("alphab".to_string()), id: None, all: false };
    handle_rm(&mut store, &by_pattern).unwrap();
    let rest = store.list();
    assert_eq!(rest.len(), 1);
    assert_eq!(rest[0].name, "alpha");
    let everything = Rm { name: None, command: None, id: None, all: true };
    handle_rm(&mut store, &everything).unwrap();
    assert!(store.list().is_empty());
}
