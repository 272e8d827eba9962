use backup_server::args::{Cli, Command, parse};
use backup_server::errors::Error;

fn toks(ts: &[&str]) -> Vec<String> {
    ts.iter().map(|t| t.to_string()).collect()
}

#[test]
fn parse_push_with_all_flags() {
    let cli = parse(&toks(&[
        "push", "--name", "proj-db", "--file", "dump.tar", "--exchange-dir", "/ex", "--config",
        "cfg.toml",
    ]))
    .unwrap();
    assert_eq!(
        cli,
        Cli {
            cmd: Command::Push {
                name: "proj-db".to_string(),
                file: "dump.tar".to_string(),
                clean: false,
                exchange_dir: "/ex".to_string(),
                config: "cfg.toml".to_string(),
            },
            log_level: "".to_string(),
        }
    );
}

#[test]
fn parse_push_short_flags_and_clean() {
    let cli = parse(&toks(&["push", "-n", "a", "-f", "b", "-e", "c", "-c", "d", "--clean"]))
        .unwrap();
    match cli.cmd {
        Command::Push { clean, name, .. } => {
            assert!(clean);
            assert_eq!(name, "a");
        }
        other => panic!("unexpected command {:?}", other),
    }
}

#[test]
fn parse_stat_defaults_name() {
    let cli = parse(&toks(&["stat", "--config", "cfg.toml"])).unwrap();
    assert_eq!(
        cli.cmd,
        Command::Stat { name: "".to_string(), config: "cfg.toml".to_string() }
    );
}

#[test]
fn parse_server_defaults_listen() {
    let cli = parse(&toks(&["server", "--config", "c"])).unwrap();
    assert_eq!(
        cli.cmd,
        Command::Server { listen: "0.0.0.0:8000".to_string(), config: "c".to_string() }
    );
    let cli2 = parse(&toks(&["server", "--listen", "127.0.0.1:99", "--config", "c"])).unwrap();
    assert_eq!(
        cli2.cmd,
        Command::Server { listen: "127.0.0.1:99".to_string(), config: "c".to_string() }
    );
}

#[test]
fn parse_open_api_and_log_level() {
    let cli = parse(&toks(&["open-api"])).unwrap();
    assert_eq!(cli.cmd, Command::OpenApi);
    assert_eq!(cli.log_level, "");
    let cli2 = parse(&toks(&["--log-level", "debug", "open-api"])).unwrap();
    assert_eq!(cli2.log_level, "debug");
}

#[test]
fn parse_pull() {
    let cli = parse(&toks(&["pull", "-n", "r", "-e", "/ex", "-c", "cfg"])).unwrap();
    assert_eq!(
        cli.cmd,
        Command::Pull {
            name: "r".to_string(),
            exchange_dir: "/ex".to_string(),
            config: "cfg".to_string(),
        }
    );
}

fn parse_fails(ts: &[&str]) {
    assert_eq!(parse(&toks(ts)).unwrap_err(), Error::Args);
}

#[test]
fn parse_rejects_bad_invocations() {
    // nothing at all
    parse_fails(&[]);
    // unknown subcommand
    parse_fails(&["sync"]);
    // unknown flag
    parse_fails(&["stat", "--config", "c", "--verbose", "x"]);
    // missing required flag
    parse_fails(&["pull", "-n", "r", "-c", "cfg"]);
    parse_fails(&["server"]);
    // flag without a value
    parse_fails(&["stat", "--config"]);
    // repeated flag
    parse_fails(&["stat", "--config", "a", "--config", "b"]);
    // a flag foreign to the subcommand
    parse_fails(&["stat", "--config", "c", "--listen", "l"]);
    parse_fails(&["open-api", "--clean"]);
    // --clean twice
    parse_fails(&["push", "-n", "a", "-f", "b", "-e", "c", "-c", "d", "--clean", "--clean"]);
}
