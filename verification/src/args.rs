//! The command-line grammar and its verified parser. Tokens after the
//! program name form: an optional `--log-level VALUE` pair, a subcommand
//! (`open-api`, `server`, `stat`, `push`, `pull`), and that subcommand's
//! flag/value pairs in any order:
//!
//! - `server`: `--config` (required), `--listen` (default
//!   `0.0.0.0:8000`);
//! - `stat`: `--config` (required), `--name` (default empty: all realms);
//! - `push`: `--name`, `--file`, `--exchange-dir`, `--config` (all
//!   required) and the bare flag `--clean`;
//! - `pull`: `--name`, `--exchange-dir`, `--config` (all required);
//! - `open-api`: nothing.
//!
//! `-n`, `-f`, `-e` and `-c` abbreviate `--name`, `--file`,
//! `--exchange-dir` and `--config`. Unknown tokens, repeated flags,
//! missing values and flags foreign to the subcommand are rejected.

use vstd::prelude::*;
use crate::errors::Error;
use crate::strutil::str_eq;

verus! {

/// The command a program invocation executes.
#[derive(Debug, PartialEq, Eq)]
pub enum Command {
    OpenApi,
    Server { listen: String, config: String },
    Stat { name: String, config: String },
    Push { name: String, file: String, clean: bool, exchange_dir: String, config: String },
    Pull { name: String, exchange_dir: String, config: String },
}

/// Spec-level shape of a `Command`.
pub enum CommandV {
    OpenApi,
    Server { listen: Seq<char>, config: Seq<char> },
    Stat { name: Seq<char>, config: Seq<char> },
    Push {
        name: Seq<char>,
        file: Seq<char>,
        clean: bool,
        exchange_dir: Seq<char>,
        config: Seq<char>,
    },
    Pull { name: Seq<char>, exchange_dir: Seq<char>, config: Seq<char> },
}

impl View for Command {
    type V = CommandV;

    open spec fn view(&self) -> CommandV {
        match self {
            Command::OpenApi => CommandV::OpenApi,
            Command::Server { listen, config } => CommandV::Server {
                listen: listen@,
                config: config@,
            },
            Command::Stat { name, config } => CommandV::Stat { name: name@, config: config@ },
            Command::Push { name, file, clean, exchange_dir, config } => CommandV::Push {
                name: name@,
                file: file@,
                clean: *clean,
                exchange_dir: exchange_dir@,
                config: config@,
            },
            Command::Pull { name, exchange_dir, config } => CommandV::Pull {
                name: name@,
                exchange_dir: exchange_dir@,
                config: config@,
            },
        }
    }
}

/// A parsed invocation: the command and the logging level.
#[derive(Debug, PartialEq, Eq)]
pub struct Cli {
    pub cmd: Command,
    pub log_level: String,
}

/// Spec-level shape of a `Cli`.
pub struct CliV {
    pub cmd: CommandV,
    pub log_level: Seq<char>,
}

impl View for Cli {
    type V = CliV;

    open spec fn view(&self) -> CliV {
        CliV { cmd: self.cmd@, log_level: self.log_level@ }
    }
}

/// The view of a token list.
pub open spec fn toks_v(ts: Seq<String>) -> Seq<Seq<char>> {
    ts.map_values(|t: String| t@)
}

/// A flag that takes a value.
pub enum FieldV {
    Name,
    File,
    ExchangeDir,
    Config,
    Listen,
}

/// Which value-taking flag a token is, if any.
pub open spec fn flag_field(t: Seq<char>) -> Option<FieldV> {
    if t == "--name"@ || t == "-n"@ {
        Some(FieldV::Name)
    } else if t == "--file"@ || t == "-f"@ {
        Some(FieldV::File)
    } else if t == "--exchange-dir"@ || t == "-e"@ {
        Some(FieldV::ExchangeDir)
    } else if t == "--config"@ || t == "-c"@ {
        Some(FieldV::Config)
    } else if t == "--listen"@ {
        Some(FieldV::Listen)
    } else {
        None
    }
}

/// The flag values collected so far.
pub struct FlagsV {
    pub name: Option<Seq<char>>,
    pub file: Option<Seq<char>>,
    pub exchange_dir: Option<Seq<char>>,
    pub config: Option<Seq<char>>,
    pub listen: Option<Seq<char>>,
    pub clean: bool,
}

/// No flag seen yet.
pub open spec fn empty_flags() -> FlagsV {
    FlagsV { name: None, file: None, exchange_dir: None, config: None, listen: None, clean: false }
}

/// Whether a flag already has a value.
pub open spec fn flag_set(acc: FlagsV, f: FieldV) -> bool {
    match f {
        FieldV::Name => acc.name is Some,
        FieldV::File => acc.file is Some,
        FieldV::ExchangeDir => acc.exchange_dir is Some,
        FieldV::Config => acc.config is Some,
        FieldV::Listen => acc.listen is Some,
    }
}

/// Records a flag's value.
pub open spec fn set_flag(acc: FlagsV, f: FieldV, v: Seq<char>) -> FlagsV {
    match f {
        FieldV::Name => FlagsV { name: Some(v), ..acc },
        FieldV::File => FlagsV { file: Some(v), ..acc },
        FieldV::ExchangeDir => FlagsV { exchange_dir: Some(v), ..acc },
        FieldV::Config => FlagsV { config: Some(v), ..acc },
        FieldV::Listen => FlagsV { listen: Some(v), ..acc },
    }
}

/// Folds the remaining tokens into flag values: `--clean` alone, every
/// other flag with the following token as its value; repeated flags,
/// unknown tokens and a trailing flag without a value are rejected.
pub open spec fn collect_flags(toks: Seq<Seq<char>>, acc: FlagsV) -> Option<FlagsV>
    decreases toks.len(),
{
    if toks.len() == 0 {
        Some(acc)
    } else if toks[0] == "--clean"@ {
        if acc.clean {
            None
        } else {
            collect_flags(toks.drop_first(), FlagsV { clean: true, ..acc })
        }
    } else if toks.len() < 2 {
        None
    } else {
        match flag_field(toks[0]) {
            None => None,
            Some(f) => if flag_set(acc, f) {
                None
            } else {
                collect_flags(toks.skip(2), set_flag(acc, f, toks[1]))
            },
        }
    }
}

/// A flag value, or the given default when the flag was not seen.
pub open spec fn flag_or(o: Option<Seq<char>>, d: Seq<char>) -> Seq<char> {
    match o {
        Some(v) => v,
        None => d,
    }
}

/// The command a subcommand word and its collected flags denote: every
/// required flag present, no flag foreign to the subcommand.
pub open spec fn finish(w: Seq<char>, fl: FlagsV, log_level: Seq<char>) -> Option<CliV> {
    if w == "open-api"@ {
        if fl.name is None && fl.file is None && fl.exchange_dir is None && fl.config is None
            && fl.listen is None && !fl.clean {
            Some(CliV { cmd: CommandV::OpenApi, log_level })
        } else {
            None
        }
    } else if w == "server"@ {
        if fl.name is None && fl.file is None && fl.exchange_dir is None && !fl.clean && fl.config
            is Some {
            Some(
                CliV {
                    cmd: CommandV::Server {
                        listen: flag_or(fl.listen, "0.0.0.0:8000"@),
                        config: flag_or(fl.config, Seq::<char>::empty()),
                    },
                    log_level,
                },
            )
        } else {
            None
        }
    } else if w == "stat"@ {
        if fl.file is None && fl.exchange_dir is None && fl.listen is None && !fl.clean && fl.config
            is Some {
            Some(
                CliV {
                    cmd: CommandV::Stat {
                        name: flag_or(fl.name, Seq::<char>::empty()),
                        config: flag_or(fl.config, Seq::<char>::empty()),
                    },
                    log_level,
                },
            )
        } else {
            None
        }
    } else if w == "push"@ {
        if fl.listen is None && fl.name is Some && fl.file is Some && fl.exchange_dir is Some
            && fl.config is Some {
            Some(
                CliV {
                    cmd: CommandV::Push {
                        name: flag_or(fl.name, Seq::<char>::empty()),
                        file: flag_or(fl.file, Seq::<char>::empty()),
                        clean: fl.clean,
                        exchange_dir: flag_or(fl.exchange_dir, Seq::<char>::empty()),
                        config: flag_or(fl.config, Seq::<char>::empty()),
                    },
                    log_level,
                },
            )
        } else {
            None
        }
    } else if w == "pull"@ {
        if fl.file is None && fl.listen is None && !fl.clean && fl.name is Some && fl.exchange_dir
            is Some && fl.config is Some {
            Some(
                CliV {
                    cmd: CommandV::Pull {
                        name: flag_or(fl.name, Seq::<char>::empty()),
                        exchange_dir: flag_or(fl.exchange_dir, Seq::<char>::empty()),
                        config: flag_or(fl.config, Seq::<char>::empty()),
                    },
                    log_level,
                },
            )
        } else {
            None
        }
    } else {
        None
    }
}

/// The invocation a subcommand word and the tokens after it denote.
pub open spec fn parse_cmd(toks: Seq<Seq<char>>, log_level: Seq<char>) -> Option<CliV> {
    if toks.len() == 0 {
        None
    } else {
        match collect_flags(toks.drop_first(), empty_flags()) {
            None => None,
            Some(fl) => finish(toks[0], fl, log_level),
        }
    }
}

/// The invocation a whole token list denotes: an optional leading
/// `--log-level VALUE` pair, then the subcommand and its flags.
pub open spec fn spec_parse_cli(toks: Seq<Seq<char>>) -> Option<CliV> {
    if toks.len() >= 1 && toks[0] == "--log-level"@ {
        if toks.len() >= 2 {
            parse_cmd(toks.skip(2), toks[1])
        } else {
            None
        }
    } else {
        parse_cmd(toks, Seq::<char>::empty())
    }
}

/// Parses the command-line tokens that follow the program name. Succeeds
/// with the invocation the grammar assigns to the tokens, exactly when
/// they match the grammar.
#[verifier::loop_isolation(false)]
pub fn parse(args: &Vec<String>) -> (r: Result<Cli, Error>)
    ensures
        match r {
            Ok(c) => spec_parse_cli(toks_v(args@)) == Some(c@),
            Err(e) => spec_parse_cli(toks_v(args@)) is None && e is Args,
        },
{
    let ghost toks = toks_v(args@);
    let n = args.len();
    let mut idx: usize = 0;
    let mut log_level = String::new();
    if n >= 1 && str_eq(args[0].as_str(), "--log-level") {
        if n < 2 {
            return Err(Error::Args);
        }
        log_level = args[1].clone();
        idx = 2;
    }
    proof {
        assert(toks.skip(idx as int) =~= if idx == 2 {
            toks.skip(2)
        } else {
            toks
        });
        assert(spec_parse_cli(toks) == parse_cmd(toks.skip(idx as int), log_level@));
    }
    if idx >= n {
        return Err(Error::Args);
    }
    let is_open_api = str_eq(args[idx].as_str(), "open-api");
    let is_server = str_eq(args[idx].as_str(), "server");
    let is_stat = str_eq(args[idx].as_str(), "stat");
    let is_push = str_eq(args[idx].as_str(), "push");
    let is_pull = str_eq(args[idx].as_str(), "pull");
    let mut i = idx + 1;
    let mut name_o: Option<String> = None;
    let mut file_o: Option<String> = None;
    let mut ex_o: Option<String> = None;
    let mut cfg_o: Option<String> = None;
    let mut listen_o: Option<String> = None;
    let mut clean = false;
    proof {
        assert(toks.skip(idx as int).drop_first() =~= toks.skip(idx + 1));
    }
    while i < n
        invariant
            idx + 1 <= i <= n,
            collect_flags(toks.skip(i as int), flags_of(name_o, file_o, ex_o, cfg_o, listen_o, clean))
                == collect_flags(toks.skip(idx + 1), empty_flags()),
        decreases n - i,
    {
        let ghost acc = flags_of(name_o, file_o, ex_o, cfg_o, listen_o, clean);
        proof {
            assert(toks.skip(i as int)[0] == args@[i as int]@);
            assert(toks.skip(i as int).drop_first() =~= toks.skip(i + 1));
        }
        let t = &args[i];
        if str_eq(t.as_str(), "--clean") {
            if clean {
                return Err(Error::Args);
            }
            clean = true;
            i += 1;
        } else {
            if i + 1 >= n {
                // a value-taking flag without its value
                let unknown = !(str_eq(t.as_str(), "--name") || str_eq(t.as_str(), "-n") || str_eq(
                    t.as_str(),
                    "--file",
                ) || str_eq(t.as_str(), "-f") || str_eq(t.as_str(), "--exchange-dir") || str_eq(
                    t.as_str(),
                    "-e",
                ) || str_eq(t.as_str(), "--config") || str_eq(t.as_str(), "-c") || str_eq(
                    t.as_str(),
                    "--listen",
                ));
                proof {
                    if unknown {
                        assert(flag_field(args@[i as int]@) is None);
                    }
                }
                return Err(Error::Args);
            }
            proof {
                assert(toks.skip(i as int)[1] == args@[i + 1]@);
                assert(toks.skip(i as int).skip(2) =~= toks.skip(i + 2));
            }
            let v = args[i + 1].clone();
            if str_eq(t.as_str(), "--name") || str_eq(t.as_str(), "-n") {
                if name_o.is_some() {
                    return Err(Error::Args);
                }
                name_o = Some(v);
            } else if str_eq(t.as_str(), "--file") || str_eq(t.as_str(), "-f") {
                if file_o.is_some() {
                    return Err(Error::Args);
                }
                file_o = Some(v);
            } else if str_eq(t.as_str(), "--exchange-dir") || str_eq(t.as_str(), "-e") {
                if ex_o.is_some() {
                    return Err(Error::Args);
                }
                ex_o = Some(v);
            } else if str_eq(t.as_str(), "--config") || str_eq(t.as_str(), "-c") {
                if cfg_o.is_some() {
                    return Err(Error::Args);
                }
                cfg_o = Some(v);
            } else if str_eq(t.as_str(), "--listen") {
                if listen_o.is_some() {
                    return Err(Error::Args);
                }
                listen_o = Some(v);
            } else {
                proof {
                    assert(flag_field(args@[i as int]@) is None);
                }
                return Err(Error::Args);
            }
            i += 2;
        }
    }
    proof {
        assert(toks.skip(i as int) =~= Seq::<Seq<char>>::empty());
    }
    let ghost fl = flags_of(name_o, file_o, ex_o, cfg_o, listen_o, clean);
    let cmd: Command = if is_open_api {
        if name_o.is_some() || file_o.is_some() || ex_o.is_some() || cfg_o.is_some()
            || listen_o.is_some() || clean {
            return Err(Error::Args);
        }
        Command::OpenApi
    } else if is_server {
        if name_o.is_some() || file_o.is_some() || ex_o.is_some() || clean {
            return Err(Error::Args);
        }
        let config = match cfg_o {
            Some(c) => c,
            None => {
                return Err(Error::Args);
            },
        };
        let listen = match listen_o {
            Some(l) => l,
            None => String::from_str("0.0.0.0:8000"),
        };
        Command::Server { listen, config }
    } else if is_stat {
        if file_o.is_some() || ex_o.is_some() || listen_o.is_some() || clean {
            return Err(Error::Args);
        }
        let config = match cfg_o {
            Some(c) => c,
            None => {
                return Err(Error::Args);
            },
        };
        let name = match name_o {
            Some(v) => v,
            None => String::new(),
        };
        Command::Stat { name, config }
    } else if is_push {
        if listen_o.is_some() {
            return Err(Error::Args);
        }
        match (name_o, file_o, ex_o, cfg_o) {
            (Some(name), Some(file), Some(exchange_dir), Some(config)) => Command::Push {
                name,
                file,
                clean,
                exchange_dir,
                config,
            },
            _ => {
                return Err(Error::Args);
            },
        }
    } else if is_pull {
        if file_o.is_some() || listen_o.is_some() || clean {
            return Err(Error::Args);
        }
        match (name_o, ex_o, cfg_o) {
            (Some(name), Some(exchange_dir), Some(config)) => Command::Pull {
                name,
                exchange_dir,
                config,
            },
            _ => {
                return Err(Error::Args);
            },
        }
    } else {
        return Err(Error::Args);
    };
    Ok(Cli { cmd, log_level })
}

/// The collected flags the executable variables stand for.
pub open spec fn flags_of(
    name_o: Option<String>,
    file_o: Option<String>,
    ex_o: Option<String>,
    cfg_o: Option<String>,
    listen_o: Option<String>,
    clean: bool,
) -> FlagsV {
    FlagsV {
        name: opt_v(name_o),
        file: opt_v(file_o),
        exchange_dir: opt_v(ex_o),
        config: opt_v(cfg_o),
        listen: opt_v(listen_o),
        clean,
    }
}

/// The view of an optional owned string.
pub open spec fn opt_v(o: Option<String>) -> Option<Seq<char>> {
    match o {
        Some(s) => Some(s@),
        None => None,
    }
}

} // verus!
