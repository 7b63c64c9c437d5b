//! The command line: what is asked for, and what `status`, `doctor` and `--help` print.
use vstd::prelude::*;
use vstd::string::*;

use crate::config::Config;
use crate::mcp::ConnectionStatus;
use crate::storage::StorageSummary;
use crate::text::{
    contains, decimal, decimal_i64, decimal_u64, decimal_usize, ends_in, in_turn, lemma_ends_in,
    lemma_in_turn_contains, lemma_one, lemma_starts, lemma_three, lemma_two, occurs_at, opt_view,
    same, seq_view, signed_decimal, texts,
};

verus! {

#[derive(Clone, Copy, Debug, PartialEq, Eq, Structural)]
pub enum Command {
    Run,
    Start,
    Stop,
    Restart,
    Onboard,
    Status,
    Doctor,
    Enable,
    Disable,
    Help,
    Version,
}

/// The command that a word stands for.
pub open spec fn command_word(word: Seq<char>) -> Option<Command> {
    if word == "run"@ {
        Some(Command::Run)
    } else if word == "start"@ {
        Some(Command::Start)
    } else if word == "stop"@ {
        Some(Command::Stop)
    } else if word == "restart"@ {
        Some(Command::Restart)
    } else if word == "onboard"@ {
        Some(Command::Onboard)
    } else if word == "status"@ {
        Some(Command::Status)
    } else if word == "doctor"@ {
        Some(Command::Doctor)
    } else if word == "enable"@ {
        Some(Command::Enable)
    } else if word == "disable"@ {
        Some(Command::Disable)
    } else if word == "-h"@ || word == "--help"@ {
        Some(Command::Help)
    } else if word == "-V"@ || word == "--version"@ {
        Some(Command::Version)
    } else {
        None
    }
}

/// What a command line asks for, or what is wrong with it.
pub open spec fn command_of(args: Seq<Seq<char>>) -> Result<Command, Seq<char>> {
    if args.len() == 0 {
        Ok(Command::Run)
    } else {
        match command_word(args[0]) {
            None => Err("unknown command '"@ + args[0] + "'\n\nRun `kumo --help` for usage."@),
            Some(command) => if args.len() > 1 {
                Err("too many arguments\n\nRun `kumo --help` for usage."@)
            } else {
                Ok(command)
            },
        }
    }
}

fn read_word(word: &str) -> (r: Option<Command>)
    ensures
        r == command_word(word@),
{
    if same(word, "run") {
        Some(Command::Run)
    } else if same(word, "start") {
        Some(Command::Start)
    } else if same(word, "stop") {
        Some(Command::Stop)
    } else if same(word, "restart") {
        Some(Command::Restart)
    } else if same(word, "onboard") {
        Some(Command::Onboard)
    } else if same(word, "status") {
        Some(Command::Status)
    } else if same(word, "doctor") {
        Some(Command::Doctor)
    } else if same(word, "enable") {
        Some(Command::Enable)
    } else if same(word, "disable") {
        Some(Command::Disable)
    } else if same(word, "-h") || same(word, "--help") {
        Some(Command::Help)
    } else if same(word, "-V") || same(word, "--version") {
        Some(Command::Version)
    } else {
        None
    }
}

/// Reads a command line, without the program's own name.
pub fn parse_command(args: &Vec<String>) -> (r: Result<Command, String>)
    ensures
        match r {
            Ok(command) => command_of(texts(args@)) == Ok::<Command, Seq<char>>(command),
            Err(message) => command_of(texts(args@)) == Err::<Command, Seq<char>>(message@),
        },
{
    if args.len() == 0 {
        return Ok(Command::Run);
    }
    assert(texts(args@)[0] == args@[0]@);
    match read_word(args[0].as_str()) {
        None => {
            let mut message = "unknown command '".to_owned();
            message.push_str(args[0].as_str());
            message.push_str("'\n\nRun `kumo --help` for usage.");
            Err(message)
        },
        Some(command) => if args.len() > 1 {
            Err("too many arguments\n\nRun `kumo --help` for usage.".to_owned())
        } else {
            Ok(command)
        },
    }
}

/// Whether the agent has to be set up first.
pub open spec fn is_to_set_up(asked: bool, config: Option<Config>) -> bool {
    asked || match config {
        None => true,
        Some(config) => config.active() is None || config.tools is None || config.timezone is None,
    }
}

/// Whether setup has to run before the gateway can: asked for, or something is not configured yet.
pub fn needs_onboarding(asked: bool, config: Option<&Config>) -> (r: bool)
    requires
        config is Some ==> config->0.wf(),
    ensures
        r == is_to_set_up(
            asked,
            match config {
                Some(config) => Some(*config),
                None => None,
            },
        ),
{
    if asked {
        return true;
    }
    match config {
        None => true,
        Some(config) => config.provider().is_err() || config.tools.is_none()
            || config.timezone.is_none(),
    }
}

pub const HELP: &'static str = "Kumo personal agent gateway\n\nUsage:\n  kumo            Run the gateway in the foreground (onboards on first run)\n  kumo run        Same as plain `kumo`, explicit for use as a service ExecStart\n  kumo start      Run the gateway detached in the background\n  kumo stop       Stop a background instance started with `kumo start`\n  kumo restart    Stop then start the background instance\n  kumo onboard    Configure the model provider and workspace\n  kumo status     Show configuration and storage status, no Telegram connection\n  kumo doctor     Check configuration, provider, MCP servers, and dependencies\n  kumo enable     Install as a user service that starts on login\n  kumo disable    Remove the user service installed by `kumo enable`\n  kumo --help     Show this help\n  kumo --version  Print the version";

/// How an MCP server is doing, in a line.
pub open spec fn server_line(status: ConnectionStatus) -> Seq<char> {
    match status.error {
        Some(error) => status.name@ + ": failed ("@ + error@ + ")"@,
        None => status.name@ + ": "@ + decimal(status.tool_count as nat) + " tool(s)"@
            + status.label(),
    }
}

/// How an MCP server is doing, in a line.
pub fn describe_server(status: &ConnectionStatus) -> (r: String)
    ensures
        r@ == server_line(*status),
{
    let mut r = status.name.clone();
    match &status.error {
        Some(error) => {
            r.push_str(": failed (");
            r.push_str(error.as_str());
            r.push_str(")");
        },
        None => {
            r.push_str(": ");
            r.push_str(decimal_usize(status.tool_count).as_str());
            r.push_str(" tool(s)");
            r.push_str(status.trust_label().as_str());
        },
    }
    r
}

/// How much of a server is trusted, in a word.
pub open spec fn trust_of(status: ConnectionStatus) -> Seq<char> {
    if status.trusted_count == 0 {
        "approval_required"@
    } else if status.trusted_count == status.tool_count {
        "trusted"@
    } else {
        "partial("@ + decimal(status.trusted_count as nat) + "/"@ + decimal(
            status.tool_count as nat,
        ) + ")"@
    }
}

/// How far an MCP server is trusted, for the log.
pub fn trust_word(status: &ConnectionStatus) -> (r: String)
    ensures
        r@ == trust_of(*status),
{
    if status.trusted_count == 0 {
        "approval_required".to_owned()
    } else if status.trusted_count == status.tool_count {
        "trusted".to_owned()
    } else {
        let mut r = "partial(".to_owned();
        r.push_str(decimal_usize(status.trusted_count).as_str());
        r.push_str("/");
        r.push_str(decimal_usize(status.tool_count).as_str());
        r.push_str(")");
        r
    }
}

fn append_line(lines: &mut Vec<String>, line: String)
    ensures
        texts(final(lines)@) == texts(old(lines)@).push(line@),
{
    let ghost before = lines@;
    lines.push(line);
    assert(texts(lines@) =~= texts(before).push(line@));
}

fn labelled(label: &str, value: &str) -> (r: String)
    ensures
        r@ == label@ + value@,
{
    let mut r = label.to_owned();
    r.push_str(value);
    r
}

/// The lines on the process.
pub open spec fn process_lines(version: Seq<char>, pid: Option<u32>) -> Seq<Seq<char>> {
    seq![
        "Kumo v"@ + version,
        seq![],
        match pid {
            Some(pid) => "Process:   running in the background (pid "@ + decimal(pid as nat)
                + ")"@,
            None => "Process:   not running (use `kumo start` or `kumo run`)"@,
        },
    ]
}

/// The lines on the provider in use.
pub open spec fn provider_lines(config: Config) -> Seq<Seq<char>> {
    match config.active() {
        None => seq!["Provider:  not configured (run `kumo onboard`)"@],
        Some(provider) => {
            let line = "Provider:  "@ + (match config.active_name() {
                Some(name) => name + ": "@,
                None => seq![],
            }) + provider.active_model@ + " ("@ + provider.base_url@ + ")"@;
            if config.providers.names().len() > 1 {
                seq![
                    line,
                    "           "@ + decimal(config.providers.names().len())
                        + " configured, switch with /provider"@,
                ]
            } else {
                seq![line]
            }
        },
    }
}

pub open spec fn tool_lines(config: Config) -> Seq<Seq<char>> {
    match config.tools {
        Some(tools) => seq![
            "Workspace: "@ + tools.workspace@,
            if tools.rtk {
                "RTK:       on"@
            } else {
                "RTK:       off"@
            },
        ],
        None => seq!["Workspace: not configured (run `kumo onboard`)"@],
    }
}

pub open spec fn server_names(names: Seq<Seq<char>>) -> Seq<Seq<char>> {
    Seq::new(names.len(), |i: int| "             - "@ + names[i])
}

pub open spec fn mcp_lines(config: Config) -> Seq<Seq<char>> {
    if config.mcp.names().len() == 0 {
        seq!["MCP:       none configured"@]
    } else {
        seq!["MCP:       "@ + decimal(config.mcp.names().len()) + " server(s) configured"@]
            + server_names(config.mcp.names())
    }
}

/// The lines on the configuration at `path`.
pub open spec fn config_lines(path: Seq<char>, config: Config) -> Seq<Seq<char>> {
    seq![
        "Config:    "@ + path,
        "Telegram:  connected as @"@ + config.telegram.bot_username@,
    ] + provider_lines(config) + tool_lines(config) + seq![
        "Timezone:  "@ + config.timezone_name(),
    ] + mcp_lines(config)
}

/// The lines on what is stored at `path`.
pub open spec fn storage_lines(path: Seq<char>, summary: StorageSummary) -> Seq<Seq<char>> {
    seq![
        "Database:  "@ + path,
        "Sessions:  "@ + signed_decimal(summary.session_count as int),
        "Pending scheduled tasks: "@ + signed_decimal(summary.pending_scheduled_tasks as int),
        "Remembered facts:        "@ + signed_decimal(summary.memory_entries as int),
        "Audit events:            "@ + signed_decimal(summary.audit_events as int),
        "Running background jobs: "@ + signed_decimal(summary.running_jobs as int),
    ]
}

/// What `kumo status` prints of the process, before anything is set up.
pub fn status_head(version: &str, pid: Option<u32>) -> (r: Vec<String>)
    ensures
        texts(r@) == process_lines(version@, pid),
{
    let mut r: Vec<String> = Vec::new();
    r.push(labelled("Kumo v", version));
    r.push(String::new());
    r.push(
        match pid {
            Some(pid) => {
                let mut line = "Process:   running in the background (pid ".to_owned();
                line.push_str(decimal_u64(pid as u64).as_str());
                line.push_str(")");
                line
            },
            None => "Process:   not running (use `kumo start` or `kumo run`)".to_owned(),
        },
    );
    assert(texts(r@) =~= process_lines(version@, pid)) by {
        assert(Seq::<char>::empty() =~= seq![]);
    }
    r
}

/// What `kumo status` prints where nothing is set up.
pub const NOT_SET_UP: &'static str = "Config:    not set up yet (run `kumo` or `kumo onboard`)";

/// What `kumo status` prints of the configuration.
#[verifier::rlimit(60)]
pub fn status_config(path: &str, config: &Config) -> (r: Vec<String>)
    requires
        config.wf(),
    ensures
        texts(r@) == config_lines(path@, *config),
{
    proof {
        config.lemma_active_name();
    }
    let mut r: Vec<String> = Vec::new();
    append_line(&mut r, labelled("Config:    ", path));
    append_line(&mut r, labelled("Telegram:  connected as @", config.telegram.bot_username.as_str()));
    let ghost head = texts(r@);
    match config.provider() {
        Ok(provider) => {
            let mut line = "Provider:  ".to_owned();
            if let Some(name) = config.active_provider_name() {
                line.push_str(name.as_str());
                line.push_str(": ");
            }
            line.push_str(provider.active_model.as_str());
            line.push_str(" (");
            line.push_str(provider.base_url.as_str());
            line.push_str(")");
            assert(line@ =~= provider_lines(*config)[0]);
            append_line(&mut r, line);
            if config.providers.len() > 1 {
                let mut count = "           ".to_owned();
                count.push_str(decimal_usize(config.providers.len()).as_str());
                count.push_str(" configured, switch with /provider");
                append_line(&mut r, count);
            }
        },
        Err(_) => {
            append_line(&mut r, "Provider:  not configured (run `kumo onboard`)".to_owned());
        },
    }
    assert(texts(r@) =~= head + provider_lines(*config));
    let ghost head = texts(r@);
    match &config.tools {
        Some(tools) => {
            append_line(&mut r, labelled("Workspace: ", tools.workspace.as_str()));
            append_line(
                &mut r,
                (if tools.rtk {
                    "RTK:       on"
                } else {
                    "RTK:       off"
                }).to_owned(),
            );
        },
        None => {
            append_line(&mut r, "Workspace: not configured (run `kumo onboard`)".to_owned());
        },
    }
    assert(texts(r@) =~= head + tool_lines(*config));
    append_line(&mut r, labelled("Timezone:  ", config.timezone().as_str()));
    let ghost head = texts(r@);
    if config.mcp.len() == 0 {
        append_line(&mut r, "MCP:       none configured".to_owned());
        assert(texts(r@) =~= head + mcp_lines(*config));
    } else {
        let mut line = "MCP:       ".to_owned();
        line.push_str(decimal_usize(config.mcp.len()).as_str());
        line.push_str(" server(s) configured");
        append_line(&mut r, line);
        let ghost base = texts(r@);
        let ghost names = server_names(config.mcp.names());
        let mut i: usize = 0;
        assert(base + names.take(0) =~= base);
        while i < config.mcp.len()
            invariant
                i <= config.mcp.names().len(),
                names == server_names(config.mcp.names()),
                texts(r@) == base + names.take(i as int),
            decreases config.mcp.names().len() - i,
        {
            append_line(&mut r, labelled("             - ", config.mcp.name_at(i).as_str()));
            i = i + 1;
            assert(names.take(i as int) =~= names.take(i - 1).push(names[i - 1]));
            assert(texts(r@) =~= base + names.take(i as int));
        }
        assert(names.take(i as int) =~= names);
        assert(texts(r@) =~= head + mcp_lines(*config));
    }
    assert(texts(r@) =~= config_lines(path@, *config));
    r
}

/// What `kumo status` prints of the database.
pub fn status_storage(path: &str, summary: &StorageSummary) -> (r: Vec<String>)
    ensures
        texts(r@) == storage_lines(path@, *summary),
{
    let mut r: Vec<String> = Vec::new();
    r.push(labelled("Database:  ", path));
    r.push(labelled("Sessions:  ", decimal_i64(summary.session_count).as_str()));
    r.push(
        labelled(
            "Pending scheduled tasks: ",
            decimal_i64(summary.pending_scheduled_tasks).as_str(),
        ),
    );
    r.push(
        labelled("Remembered facts:        ", decimal_i64(summary.memory_entries).as_str()),
    );
    r.push(labelled("Audit events:            ", decimal_i64(summary.audit_events).as_str()));
    r.push(labelled("Running background jobs: ", decimal_i64(summary.running_jobs).as_str()));
    assert(texts(r@) =~= storage_lines(path@, *summary));
    r
}

/// How one of the doctor's checks went.
#[derive(Clone, Copy, Debug, PartialEq, Eq, Structural)]
pub enum Mark {
    Passed,
    Failed,
    /// Worth knowing, but neither.
    Note,
}

/// One of the doctor's checks.
#[derive(Debug)]
pub struct Check {
    pub mark: Mark,
    pub text: String,
}

#[verifier::ext_equal]
pub struct CheckView {
    pub mark: Mark,
    pub text: Seq<char>,
}

impl View for Check {
    type V = CheckView;

    open spec fn view(&self) -> CheckView {
        CheckView { mark: self.mark, text: self.text@ }
    }
}

/// What was found where the configuration should be.
#[derive(Debug)]
pub enum ConfigFinding {
    Loaded(Config),
    Invalid(String),
    Missing,
    NoDirectory(String),
}

/// What the doctor found out about the host.
#[derive(Debug)]
pub struct Findings {
    pub config: ConfigFinding,
    /// Why the provider in use did not answer a test request, if it did not.
    pub provider_error: Option<String>,
    pub workspace_exists: bool,
    pub rtk_available: bool,
    pub servers: Vec<ConnectionStatus>,
    pub kamui_available: bool,
    /// Why the database could not be opened, if it could not.
    pub database_error: Option<String>,
}

pub open spec fn passed(text: Seq<char>) -> CheckView {
    CheckView { mark: Mark::Passed, text }
}

pub open spec fn failed(text: Seq<char>) -> CheckView {
    CheckView { mark: Mark::Failed, text }
}

pub open spec fn config_check(finding: ConfigFinding) -> CheckView {
    match finding {
        ConfigFinding::Loaded(_) => passed("Config file parses"@),
        ConfigFinding::Invalid(error) => failed("Config file is invalid: "@ + error@),
        ConfigFinding::Missing => failed("No config file yet — run `kumo onboard` first"@),
        ConfigFinding::NoDirectory(error) => failed(
            "Could not locate the config directory: "@ + error@,
        ),
    }
}

pub open spec fn provider_checks(config: Config, error: Option<Seq<char>>) -> Seq<CheckView> {
    if config.active() is None {
        seq![failed("Provider is not configured — run `kumo onboard`"@)]
    } else {
        seq![
            passed("Provider is configured"@),
            match error {
                None => passed("Provider responds to a test request"@),
                Some(error) => failed("Provider request failed: "@ + error),
            },
        ]
    }
}

pub open spec fn workspace_checks(config: Config, exists: bool, rtk: bool) -> Seq<CheckView> {
    match config.tools {
        None => seq![failed("Workspace is not configured — run `kumo onboard`"@)],
        Some(tools) => {
            let place = if exists {
                passed("Workspace exists: "@ + tools.workspace@)
            } else {
                failed("Workspace directory does not exist: "@ + tools.workspace@)
            };
            if tools.rtk {
                seq![
                    place,
                    if rtk {
                        passed("RTK command backend is available"@)
                    } else {
                        failed("RTK is enabled but the `rtk` binary is not on PATH"@)
                    },
                ]
            } else {
                seq![place]
            }
        },
    }
}

pub open spec fn server_check(status: ConnectionStatus) -> CheckView {
    match status.error {
        Some(error) => failed("MCP server '"@ + status.name@ + "' failed: "@ + error@),
        None => passed(
            "MCP server '"@ + status.name@ + "' connected ("@ + decimal(status.tool_count as nat)
                + " tool(s)"@ + status.label() + ")"@,
        ),
    }
}

pub open spec fn server_checks(config: Config, servers: Seq<ConnectionStatus>) -> Seq<CheckView> {
    if config.mcp.names().len() == 0 {
        seq![passed("No MCP servers configured (nothing to check)"@)]
    } else {
        Seq::new(servers.len(), |i: int| server_check(servers[i]))
    }
}

pub const KAMUI_FOUND: &'static str = "kamui binary found on PATH (delegate_to_kamui is available)";

pub const KAMUI_MISSING: &'static str = "kamui binary not found on PATH — delegate_to_kamui will not be offered to the model (this is optional, not an error)";

/// The doctor's checks, in order.
pub open spec fn checks_of(findings: Findings) -> Seq<CheckView> {
    seq![config_check(findings.config)] + (match findings.config {
        ConfigFinding::Loaded(config) => provider_checks(
            config,
            opt_view(findings.provider_error),
        ) + workspace_checks(config, findings.workspace_exists, findings.rtk_available)
            + server_checks(config, findings.servers@),
        _ => seq![],
    }) + seq![
        if findings.kamui_available {
            passed(KAMUI_FOUND@)
        } else {
            CheckView { mark: Mark::Note, text: KAMUI_MISSING@ }
        },
        match findings.database_error {
            None => passed("Database opens successfully"@),
            Some(error) => failed("Database could not be opened: "@ + error@),
        },
    ]
}

fn note(checks: &mut Vec<Check>, mark: Mark, text: String)
    ensures
        seq_view(final(checks)@) == seq_view(old(checks)@).push(CheckView { mark, text: text@ }),
{
    let ghost before = checks@;
    let check = Check { mark, text };
    checks.push(check);
    assert(seq_view(checks@) =~= seq_view(before).push(check@));
}

fn check_config(checks: &mut Vec<Check>, findings: &Findings, config: &Config)
    requires
        config.wf(),
    ensures
        seq_view(final(checks)@) == seq_view(old(checks)@) + (provider_checks(
            *config,
            opt_view(findings.provider_error),
        ) + workspace_checks(*config, findings.workspace_exists, findings.rtk_available)
            + server_checks(*config, findings.servers@)),
{
    let ghost start = seq_view(checks@);
    match config.provider() {
        Ok(_) => {
            note(checks, Mark::Passed, "Provider is configured".to_owned());
            match &findings.provider_error {
                None => {
                    note(checks, Mark::Passed, "Provider responds to a test request".to_owned());
                },
                Some(error) => {
                    note(
                        checks,
                        Mark::Failed,
                        labelled("Provider request failed: ", error.as_str()),
                    );
                },
            }
        },
        Err(_) => {
            note(
                checks,
                Mark::Failed,
                "Provider is not configured — run `kumo onboard`".to_owned(),
            );
        },
    }
    let ghost providers = provider_checks(*config, opt_view(findings.provider_error));
    assert(seq_view(checks@) =~= start + providers);
    match &config.tools {
        Some(tools) => {
            if findings.workspace_exists {
                note(
                    checks,
                    Mark::Passed,
                    labelled("Workspace exists: ", tools.workspace.as_str()),
                );
            } else {
                note(
                    checks,
                    Mark::Failed,
                    labelled("Workspace directory does not exist: ", tools.workspace.as_str()),
                );
            }
            if tools.rtk {
                if findings.rtk_available {
                    note(checks, Mark::Passed, "RTK command backend is available".to_owned());
                } else {
                    note(
                        checks,
                        Mark::Failed,
                        "RTK is enabled but the `rtk` binary is not on PATH".to_owned(),
                    );
                }
            }
        },
        None => {
            note(
                checks,
                Mark::Failed,
                "Workspace is not configured — run `kumo onboard`".to_owned(),
            );
        },
    }
    let ghost workspace = workspace_checks(
        *config,
        findings.workspace_exists,
        findings.rtk_available,
    );
    assert(seq_view(checks@) =~= start + (providers + workspace));
    let ghost base = seq_view(checks@);
    let ghost servers = server_checks(*config, findings.servers@);
    if config.mcp.len() == 0 {
        note(
            checks,
            Mark::Passed,
            "No MCP servers configured (nothing to check)".to_owned(),
        );
    } else {
        let mut i: usize = 0;
        assert(base + servers.take(0) =~= base);
        while i < findings.servers.len()
            invariant
                i <= findings.servers@.len(),
                config.mcp.names().len() > 0,
                servers == server_checks(*config, findings.servers@),
                seq_view(checks@) == base + servers.take(i as int),
            decreases findings.servers@.len() - i,
        {
            let status = &findings.servers[i];
            let mut text = "MCP server '".to_owned();
            text.push_str(status.name.as_str());
            match &status.error {
                Some(error) => {
                    text.push_str("' failed: ");
                    text.push_str(error.as_str());
                    note(checks, Mark::Failed, text);
                },
                None => {
                    text.push_str("' connected (");
                    text.push_str(decimal_usize(status.tool_count).as_str());
                    text.push_str(" tool(s)");
                    text.push_str(status.trust_label().as_str());
                    text.push_str(")");
                    note(checks, Mark::Passed, text);
                },
            }
            i = i + 1;
            assert(servers.take(i as int) =~= servers.take(i - 1).push(servers[i - 1]));
            assert(seq_view(checks@) =~= base + servers.take(i as int));
        }
        assert(servers.take(i as int) =~= servers);
    }
    assert(seq_view(checks@) =~= start + (providers + workspace + servers));
}

/// Goes through what the doctor found out, check by check.
pub fn doctor_checks(findings: &Findings) -> (r: Vec<Check>)
    requires
        findings.config is Loaded ==> findings.config->Loaded_0.wf(),
    ensures
        seq_view(r@) == checks_of(*findings),
{
    let mut checks: Vec<Check> = Vec::new();
    assert(seq_view(checks@) =~= seq![]);
    match &findings.config {
        ConfigFinding::Loaded(config) => {
            note(&mut checks, Mark::Passed, "Config file parses".to_owned());
            assert(seq_view(checks@) =~= seq![config_check(findings.config)]);
            check_config(&mut checks, findings, config);
        },
        ConfigFinding::Invalid(error) => {
            note(
                &mut checks,
                Mark::Failed,
                labelled("Config file is invalid: ", error.as_str()),
            );
        },
        ConfigFinding::Missing => {
            note(
                &mut checks,
                Mark::Failed,
                "No config file yet — run `kumo onboard` first".to_owned(),
            );
        },
        ConfigFinding::NoDirectory(error) => {
            note(
                &mut checks,
                Mark::Failed,
                labelled("Could not locate the config directory: ", error.as_str()),
            );
        },
    }
    if findings.kamui_available {
        note(&mut checks, Mark::Passed, KAMUI_FOUND.to_owned());
    } else {
        note(&mut checks, Mark::Note, KAMUI_MISSING.to_owned());
    }
    match &findings.database_error {
        None => {
            note(&mut checks, Mark::Passed, "Database opens successfully".to_owned());
        },
        Some(error) => {
            note(
                &mut checks,
                Mark::Failed,
                labelled("Database could not be opened: ", error.as_str()),
            );
        },
    }
    assert(seq_view(checks@) =~= checks_of(*findings));
    checks
}

/// How a check is printed.
pub open spec fn check_line(check: CheckView) -> Seq<char> {
    (match check.mark {
        Mark::Passed => "  \u{2713} "@,
        Mark::Failed => "  \u{2717} "@,
        Mark::Note => "  i  "@,
    }) + check.text
}

pub open spec fn failures(checks: Seq<CheckView>) -> nat
    decreases checks.len(),
{
    if checks.len() == 0 {
        0
    } else {
        failures(checks.drop_last()) + if checks.last().mark == Mark::Failed {
            1nat
        } else {
            0
        }
    }
}

/// How a check is printed.
pub fn print_check(check: &Check) -> (r: String)
    ensures
        r@ == check_line(check@),
{
    let mut r = (match check.mark {
        Mark::Passed => "  \u{2713} ",
        Mark::Failed => "  \u{2717} ",
        Mark::Note => "  i  ",
    }).to_owned();
    r.push_str(check.text.as_str());
    r
}

/// What it comes to: an error if any check failed, so that it can be used in a script.
pub fn conclusion(checks: &Vec<Check>) -> (r: Result<String, String>)
    ensures
        match r {
            Ok(text) => failures(seq_view(checks@)) == 0 && text@ == "All checks passed."@,
            Err(text) => failures(seq_view(checks@)) > 0 && text@ == decimal(
                failures(seq_view(checks@)),
            ) + " check(s) failed"@,
        },
{
    let ghost all = seq_view(checks@);
    let mut count: usize = 0;
    let mut i: usize = 0;
    assert(all.take(0) =~= seq![]);
    while i < checks.len()
        invariant
            i <= checks@.len(),
            all == seq_view(checks@),
            count <= i,
            count == failures(all.take(i as int)),
        decreases checks@.len() - i,
    {
        assert(all.take(i + 1).drop_last() =~= all.take(i as int));
        assert(all.take(i + 1).last() == checks@[i as int]@);
        if checks[i].mark == Mark::Failed {
            count = count + 1;
        }
        i = i + 1;
    }
    assert(all.take(i as int) =~= all);
    if count == 0 {
        Ok("All checks passed.".to_owned())
    } else {
        let mut text = decimal_usize(count);
        text.push_str(" check(s) failed");
        Err(text)
    }
}

/// A word that is no command's is refused by its name, and so is anything behind a command; without
/// any word the agent runs.
pub proof fn law_commands_stand_alone(word: Seq<char>, more: Seq<Seq<char>>)
    ensures
        command_of(seq![]) == Ok::<Command, Seq<char>>(Command::Run),
        command_word(word) is None ==> (command_of(seq![word] + more) matches Err(text) && contains(
            text,
            word,
        )),
        command_word(word) matches Some(command) ==> command_of(seq![word]) == Ok::<
            Command,
            Seq<char>,
        >(command),
        command_word(word) is Some && more.len() > 0 ==> command_of(seq![word] + more) is Err,
{
    let help = "'\n\nRun `kumo --help` for usage."@;
    lemma_one("unknown command '"@, word, help);
    lemma_in_turn_contains("unknown command '"@ + word + help, seq![word], 0);
    assert((seq![word] + more)[0] == word);
}

/// Different words stand for different commands, but for the two ways to ask for help and for the
/// version.
pub proof fn law_words_stand_for_one_command(a: Seq<char>, b: Seq<char>)
    requires
        command_word(a) is Some,
        command_word(a) == command_word(b),
        command_word(a) != Some(Command::Help),
        command_word(a) != Some(Command::Version),
    ensures
        a == b,
{
}

/// A server is told by its name, with why it failed or with how many tools it brings.
pub proof fn law_servers_are_told_by_name(status: ConnectionStatus)
    ensures
        occurs_at(server_line(status), status.name@, 0),
        status.error matches Some(error) ==> in_turn(
            server_line(status),
            seq![status.name@, "failed"@, error@],
        ),
        status.error is None ==> in_turn(
            server_line(status),
            seq![status.name@, decimal(status.tool_count as nat), status.label()],
        ),
        status.error is Some <==> server_check(status).mark == Mark::Failed,
        status.error matches Some(error) ==> in_turn(
            server_check(status).text,
            seq![status.name@, error@],
        ),
        status.error is None ==> in_turn(
            server_check(status).text,
            seq![status.name@, decimal(status.tool_count as nat), status.label()],
        ),
{
    let empty: Seq<char> = seq![];
    let line = server_line(status);
    let name = status.name@;
    lemma_starts(name, line.skip(name.len() as int));
    assert(line =~= name + line.skip(name.len() as int));
    match status.error {
        Some(error) => {
            reveal_strlit(": failed (");
            reveal_strlit(": ");
            reveal_strlit("failed");
            reveal_strlit(" (");
            assert(": failed ("@ =~= ": "@ + "failed"@ + " ("@);
            lemma_three(empty, name, ": "@, "failed"@, " ("@, error@, ")"@);
            assert(line =~= empty + name + ": "@ + "failed"@ + " ("@ + error@ + ")"@);
            lemma_two("MCP server '"@, name, "' failed: "@, error@, empty);
            assert(server_check(status).text =~= "MCP server '"@ + name + "' failed: "@ + error@
                + empty);
        },
        None => {
            let count = decimal(status.tool_count as nat);
            lemma_three(empty, name, ": "@, count, " tool(s)"@, status.label(), empty);
            assert(line =~= empty + name + ": "@ + count + " tool(s)"@ + status.label() + empty);
            lemma_three(
                "MCP server '"@,
                name,
                "' connected ("@,
                count,
                " tool(s)"@,
                status.label(),
                ")"@,
            );
        },
    }
}

/// The status names the provider in use, its model and its address, the workspace, the owner's zone
/// and every server.
pub proof fn law_the_status_names_what_is_configured(path: Seq<char>, config: Config)
    ensures
        config.active() matches Some(provider) ==> provider_lines(config).len() >= 1 && in_turn(
            provider_lines(config)[0],
            seq![provider.active_model@, provider.base_url@],
        ),
        config.tools matches Some(tools) ==> tool_lines(config).len() == 2 && ends_in(
            tool_lines(config)[0],
            tools.workspace@,
        ),
        mcp_lines(config).len() == config.mcp.names().len() + 1,
        forall|i: int|
            0 <= i < config.mcp.names().len() ==> ends_in(
                #[trigger] mcp_lines(config)[i + 1],
                config.mcp.names()[i],
            ),
        config_lines(path, config).len() == 3 + provider_lines(config).len() + tool_lines(
            config,
        ).len() + mcp_lines(config).len(),
        ends_in(config_lines(path, config)[0], path),
        ends_in(config_lines(path, config)[1], config.telegram.bot_username@),
        config_lines(path, config).contains("Timezone:  "@ + config.timezone_name()),
{
    if let Some(provider) = config.active() {
        let name = match config.active_name() {
            Some(name) => name + ": "@,
            None => seq![],
        };
        lemma_two("Provider:  "@ + name, provider.active_model@, " ("@, provider.base_url@, ")"@);
    }
    if let Some(tools) = config.tools {
        lemma_ends_in("Workspace: "@, tools.workspace@);
    }
    assert forall|i: int| 0 <= i < config.mcp.names().len() implies ends_in(
        #[trigger] mcp_lines(config)[i + 1],
        config.mcp.names()[i],
    ) by {
        lemma_ends_in("             - "@, config.mcp.names()[i]);
        assert(mcp_lines(config)[i + 1] == server_names(config.mcp.names())[i]);
    }
    let all = config_lines(path, config);
    lemma_ends_in("Config:    "@, path);
    lemma_ends_in("Telegram:  connected as @"@, config.telegram.bot_username@);
    let at = 2 + provider_lines(config).len() + tool_lines(config).len() as int;
    assert(all[at] == "Timezone:  "@ + config.timezone_name());
}

/// The status counts what is stored, each kind on a line of its own.
pub proof fn law_the_status_counts_what_is_stored(path: Seq<char>, summary: StorageSummary)
    ensures
        storage_lines(path, summary).len() == 6,
        ends_in(storage_lines(path, summary)[0], path),
        ends_in(storage_lines(path, summary)[1], signed_decimal(summary.session_count as int)),
        ends_in(
            storage_lines(path, summary)[2],
            signed_decimal(summary.pending_scheduled_tasks as int),
        ),
        ends_in(storage_lines(path, summary)[3], signed_decimal(summary.memory_entries as int)),
        ends_in(storage_lines(path, summary)[4], signed_decimal(summary.audit_events as int)),
        ends_in(storage_lines(path, summary)[5], signed_decimal(summary.running_jobs as int)),
{
    lemma_ends_in("Database:  "@, path);
    lemma_ends_in("Sessions:  "@, signed_decimal(summary.session_count as int));
    lemma_ends_in(
        "Pending scheduled tasks: "@,
        signed_decimal(summary.pending_scheduled_tasks as int),
    );
    lemma_ends_in("Remembered facts:        "@, signed_decimal(summary.memory_entries as int));
    lemma_ends_in("Audit events:            "@, signed_decimal(summary.audit_events as int));
    lemma_ends_in("Running background jobs: "@, signed_decimal(summary.running_jobs as int));
}

/// Whether the agent runs is told with its process, and which version it is.
pub proof fn law_the_process_is_told(version: Seq<char>, pid: u32)
    ensures
        ends_in(process_lines(version, Some(pid))[0], version),
        contains(process_lines(version, Some(pid))[2], decimal(pid as nat)),
        contains(process_lines(version, None)[2], "not running"@),
{
    lemma_ends_in("Kumo v"@, version);
    let front = "Process:   running in the background (pid "@;
    lemma_one(front, decimal(pid as nat), ")"@);
    lemma_in_turn_contains(front + decimal(pid as nat) + ")"@, seq![decimal(pid as nat)], 0);
    reveal_strlit("not running");
    reveal_strlit("Process:   not running (use `kumo start` or `kumo run`)");
    let idle = "Process:   not running (use `kumo start` or `kumo run`)"@;
    assert(idle.subrange(11, 22) =~= "not running"@);
    assert(occurs_at(idle, "not running"@, 11));
}

/// A check is printed with its text, and with a mark that tells how it went.
pub proof fn law_checks_are_printed_with_their_mark(check: CheckView, other: Mark)
    ensures
        ends_in(check_line(check), check.text),
        other != check.mark ==> check_line((CheckView { mark: other, ..check })) != check_line(
            check,
        ),
{
    reveal_strlit("  \u{2713} ");
    reveal_strlit("  \u{2717} ");
    reveal_strlit("  i  ");
    let mark = match check.mark {
        Mark::Passed => "  \u{2713} "@,
        Mark::Failed => "  \u{2717} "@,
        Mark::Note => "  i  "@,
    };
    lemma_ends_in(mark, check.text);
    assert(check_line(check)[2] == mark[2]);
    let again = CheckView { mark: other, ..check };
    let second = match other {
        Mark::Passed => "  \u{2713} "@,
        Mark::Failed => "  \u{2717} "@,
        Mark::Note => "  i  "@,
    };
    assert(check_line(again)[2] == second[2]);
}

/// Failed checks are counted one by one, so that all is well exactly where none failed.
pub proof fn law_failures_are_counted(checks: Seq<CheckView>, check: CheckView)
    ensures
        failures(Seq::empty()) == 0,
        check.mark == Mark::Failed ==> failures(checks.push(check)) == failures(checks) + 1,
        check.mark != Mark::Failed ==> failures(checks.push(check)) == failures(checks),
        failures(checks) == 0 <==> forall|i: int|
            0 <= i < checks.len() ==> (#[trigger] checks[i]).mark != Mark::Failed,
    decreases checks.len(),
{
    assert(checks.push(check).drop_last() =~= checks);
    if checks.len() > 0 {
        let front = checks.drop_last();
        law_failures_are_counted(front, check);
        if failures(checks) == 0 {
            assert forall|i: int| 0 <= i < checks.len() implies (#[trigger] checks[i]).mark
                != Mark::Failed by {
                if i < front.len() {
                    assert(front[i].mark != Mark::Failed);
                }
            }
        }
        if forall|i: int| 0 <= i < checks.len() ==> (#[trigger] checks[i]).mark != Mark::Failed {
            assert forall|i: int| 0 <= i < front.len() implies (#[trigger] front[i]).mark
                != Mark::Failed by {
                assert(checks[i].mark != Mark::Failed);
            }
            assert(checks[checks.len() - 1].mark != Mark::Failed);
        }
    }
}

/// The doctor passes exactly where everything is in order: the configuration, the provider and its
/// answer, the workspace, the command backend where it is on, every server, and the database.
pub proof fn law_the_doctor_finds_what_is_wrong(findings: Findings)
    ensures
        failures(checks_of(findings)) == 0 <==> {
            &&& findings.database_error is None
            &&& findings.config matches ConfigFinding::Loaded(config) && {
                &&& config.active() is Some
                &&& findings.provider_error is None
                &&& config.tools matches Some(tools) && (tools.rtk ==> findings.rtk_available)
                &&& findings.workspace_exists
                &&& config.mcp.names().len() > 0 ==> forall|i: int|
                    0 <= i < findings.servers@.len() ==> (#[trigger] findings.servers@[i]).error
                        is None
            }
        },
{
    let all = checks_of(findings);
    law_failures_are_counted(all, all[0]);
    let head = seq![config_check(findings.config)];
    let middle = match findings.config {
        ConfigFinding::Loaded(config) => provider_checks(
            config,
            opt_view(findings.provider_error),
        ) + workspace_checks(config, findings.workspace_exists, findings.rtk_available)
            + server_checks(config, findings.servers@),
        _ => seq![],
    };
    let foot = seq![
        if findings.kamui_available {
            passed(KAMUI_FOUND@)
        } else {
            CheckView { mark: Mark::Note, text: KAMUI_MISSING@ }
        },
        match findings.database_error {
            None => passed("Database opens successfully"@),
            Some(error) => failed("Database could not be opened: "@ + error@),
        },
    ];
    assert(all =~= head + middle + foot);
    lemma_sound_parts(head + middle, foot);
    lemma_sound_parts(head, middle);
    assert(sound(head) <==> findings.config is Loaded) by {
        assert(head[0] == config_check(findings.config));
    }
    assert(sound(foot) <==> findings.database_error is None) by {
        assert(foot[1].mark == Mark::Failed <==> findings.database_error is Some);
        assert(foot[0].mark != Mark::Failed);
    }
    if let ConfigFinding::Loaded(config) = findings.config {
        let provider = provider_checks(config, opt_view(findings.provider_error));
        let workspace = workspace_checks(
            config,
            findings.workspace_exists,
            findings.rtk_available,
        );
        let servers = server_checks(config, findings.servers@);
        lemma_sound_parts(provider + workspace, servers);
        lemma_sound_parts(provider, workspace);
        assert(sound(provider) <==> config.active() is Some && findings.provider_error is None) by {
            if config.active() is Some {
                assert(provider[1].mark == Mark::Failed <==> findings.provider_error is Some);
                assert(provider[0].mark == Mark::Passed);
            } else {
                assert(provider[0].mark == Mark::Failed);
            }
        }
        assert(sound(workspace) <==> (config.tools matches Some(tools) && (tools.rtk
            ==> findings.rtk_available)) && findings.workspace_exists) by {
            match config.tools {
                None => {
                    assert(workspace[0].mark == Mark::Failed);
                },
                Some(tools) => {
                    assert(workspace[0].mark == Mark::Failed <==> !findings.workspace_exists);
                    if tools.rtk {
                        assert(workspace[1].mark == Mark::Failed <==> !findings.rtk_available);
                    }
                },
            }
        }
        assert(sound(servers) <==> (config.mcp.names().len() > 0 ==> forall|i: int|
            0 <= i < findings.servers@.len() ==> (#[trigger] findings.servers@[i]).error
                is None)) by {
            if config.mcp.names().len() > 0 {
                if sound(servers) {
                    assert forall|i: int| 0 <= i < findings.servers@.len() implies (
                    #[trigger] findings.servers@[i]).error is None by {
                        assert(servers[i].mark != Mark::Failed);
                    }
                }
                if forall|i: int|
                    0 <= i < findings.servers@.len() ==> (#[trigger] findings.servers@[i]).error
                        is None {
                    assert forall|i: int| 0 <= i < servers.len() implies (#[trigger] servers[i]).mark
                        != Mark::Failed by {
                        assert(findings.servers@[i].error is None);
                    }
                }
            } else {
                assert(servers[0].mark == Mark::Passed);
            }
        }
    }
}

/// Whether none of the checks failed.
pub open spec fn sound(checks: Seq<CheckView>) -> bool {
    forall|i: int| 0 <= i < checks.len() ==> (#[trigger] checks[i]).mark != Mark::Failed
}

proof fn lemma_sound_parts(a: Seq<CheckView>, b: Seq<CheckView>)
    ensures
        sound(a + b) <==> sound(a) && sound(b),
{
    if sound(a + b) {
        assert forall|i: int| 0 <= i < a.len() implies (#[trigger] a[i]).mark != Mark::Failed by {
            assert((a + b)[i].mark != Mark::Failed);
        }
        assert forall|i: int| 0 <= i < b.len() implies (#[trigger] b[i]).mark != Mark::Failed by {
            assert((a + b)[a.len() + i].mark != Mark::Failed);
        }
    }
}

/// How much of a server is trusted is told in a word for all and for none, and in numbers for some.
pub proof fn law_trust_is_told_exactly(status: ConnectionStatus)
    ensures
        status.trusted_count == 0 ==> trust_of(status) == "approval_required"@,
        status.trusted_count > 0 && status.trusted_count == status.tool_count ==> trust_of(status)
            == "trusted"@,
        status.trusted_count > 0 && status.trusted_count != status.tool_count ==> in_turn(
            trust_of(status),
            seq![decimal(status.trusted_count as nat), decimal(status.tool_count as nat)],
        ),
{
    lemma_two(
        "partial("@,
        decimal(status.trusted_count as nat),
        "/"@,
        decimal(status.tool_count as nat),
        ")"@,
    );
}

/// The agent is set up when it is asked for, and when something it needs is missing.
pub proof fn law_what_is_missing_is_set_up(config: Config)
    ensures
        is_to_set_up(true, Some(config)),
        is_to_set_up(false, None),
        is_to_set_up(false, Some(config)) <==> !(config.active() is Some && config.tools is Some
            && config.timezone is Some),
{
}

} // verus!
