//! The service's settings, where they are read from, and the log level.
use vstd::prelude::*;
use vstd::string::*;
use crate::error::CliError;
use crate::text::{chars_of, concat2, str_eq};

verus! {

/// Settings of the backend connection and of the task run.
#[derive(Debug)]
pub struct AppConfig {
    pub grpcport: String,
    pub username: String,
    pub password: String,
    pub baseurl: String,
    pub urlget: String,
    pub urlfilter: Vec<(String, Vec<String>)>,
    pub entries: u32,
    pub filter1: String,
    pub filter2: String,
    pub urlput: String,
    pub printmode: bool,
    pub checkmode: bool,
    pub filemode: bool,
    pub filelist: String,
    pub timeout: u64,
    pub sleep: u64,
}

/// Where the service listens.
#[derive(Debug)]
pub struct GrpcServer {
    pub port: String,
    pub host: String,
}

/// The database connection settings.
#[derive(Debug)]
pub struct Database {
    pub url: String,
    pub user: String,
    pub password: String,
    pub namespace: String,
    pub database: String,
    pub token: String,
    pub jwt: Option<String>,
}

/// All settings of the service.
#[derive(Debug)]
pub struct Settings {
    pub grpc: AppConfig,
    pub grpc_server: GrpcServer,
    pub database: Database,
    pub db: bool,
    pub loglevel: String,
}

/// `Path::join` of a relative component onto a base path.
pub open spec fn path_join(base: Seq<char>, comp: Seq<char>) -> Seq<char> {
    if base.len() == 0 {
        comp
    } else if base.last() == '/' {
        base + comp
    } else {
        base + "/"@ + comp
    }
}

/// The directory that holds the configuration files, under the working
/// directory (or relative, when the working directory is unknown).
pub open spec fn config_dir(cwd: Option<Seq<char>>) -> Seq<char> {
    path_join(
        match cwd {
            Some(c) => c,
            None => Seq::empty(),
        },
        "config"@,
    )
}

/// The run mode: the given one, or `development`.
pub open spec fn run_mode_of(run_mode: Option<Seq<char>>) -> Seq<char> {
    match run_mode {
        Some(m) => m,
        None => "development"@,
    }
}

/// The configuration sources, merged in this order: the required `default`
/// file, the optional run-mode file, the optional `locals` file, and the
/// environment variables with the prefix `env_prefix`.
#[derive(Debug)]
pub struct ConfigSources {
    pub default_file: String,
    pub run_mode_file: String,
    pub locals_file: String,
    pub env_prefix: String,
}

/// Where the settings are read from, given the working directory (if it
/// could be read) and the `RUN_MODE` variable (if set).
pub fn config_sources(cwd: Option<&str>, run_mode: Option<&str>) -> (r: ConfigSources)
    ensures
        r.default_file@ == config_dir(
            match cwd {
                Some(c) => Some(c@),
                None => None,
            },
        ) + "/default"@,
        r.run_mode_file@ == config_dir(
            match cwd {
                Some(c) => Some(c@),
                None => None,
            },
        ) + "/"@ + run_mode_of(
            match run_mode {
                Some(m) => Some(m@),
                None => None,
            },
        ),
        r.locals_file@ == config_dir(
            match cwd {
                Some(c) => Some(c@),
                None => None,
            },
        ) + "/locals"@,
        r.env_prefix@ == "app"@,
{
    let dir: String = match cwd {
        None => String::from_str("config"),
        Some(c) => {
            let cv = chars_of(c);
            if cv.len() == 0 {
                String::from_str("config")
            } else if cv[cv.len() - 1] == '/' {
                concat2(c, "config")
            } else {
                let mut d = concat2(c, "/");
                d.append("config");
                d
            }
        },
    };
    let default_file = concat2(dir.as_str(), "/default");
    let mut run_mode_file = concat2(dir.as_str(), "/");
    match run_mode {
        Some(m) => run_mode_file.append(m),
        None => run_mode_file.append("development"),
    }
    let locals_file = concat2(dir.as_str(), "/locals");
    ConfigSources { default_file, run_mode_file, locals_file, env_prefix: String::from_str("app") }
}

/// The settings held by the service, or the error for when none are loaded.
pub fn get_config(state: &Option<Settings>) -> (r: Result<&Settings, CliError>)
    ensures
        state is Some ==> r == Ok::<&Settings, CliError>(&state->0),
        state is None ==> (r matches Err(CliError::EntityNotFound { entity, id }) && entity@
            == "Task"@ && id == 42),
{
    match state {
        Some(s) => Ok(s),
        None => Err(CliError::EntityNotFound { entity: "Task", id: 42 }),
    }
}

/// The log levels of the service.
#[derive(Debug, Clone, Copy, PartialEq, Eq, Structural)]
pub enum LogLevel {
    Error,
    Warn,
    Info,
    Debug,
    Trace,
}

/// The log level a name selects: `ERROR`, `WARN`, `INFO`, `DEBUG`, `TRACE`;
/// any other name selects `Info`.
pub open spec fn level_of(name: Seq<char>) -> LogLevel {
    if name == "ERROR"@ {
        LogLevel::Error
    } else if name == "WARN"@ {
        LogLevel::Warn
    } else if name == "INFO"@ {
        LogLevel::Info
    } else if name == "DEBUG"@ {
        LogLevel::Debug
    } else if name == "TRACE"@ {
        LogLevel::Trace
    } else {
        LogLevel::Info
    }
}

/// The log level a name selects.
pub fn log_level(name: &str) -> (l: LogLevel)
    ensures
        l == level_of(name@),
{
    if str_eq(name, "ERROR") {
        LogLevel::Error
    } else if str_eq(name, "WARN") {
        LogLevel::Warn
    } else if str_eq(name, "INFO") {
        LogLevel::Info
    } else if str_eq(name, "DEBUG") {
        LogLevel::Debug
    } else if str_eq(name, "TRACE") {
        LogLevel::Trace
    } else {
        LogLevel::Info
    }
}

/// The list URL of the backend: base URL, put path and list path.
pub fn list_url(conf: &AppConfig, urlget: &str) -> (u: String)
    ensures
        u@ == conf.baseurl@ + conf.urlput@ + urlget@,
{
    let mut u = concat2(conf.baseurl.as_str(), conf.urlput.as_str());
    u.append(urlget);
    u
}

} // verus!
