//! Reading the command line: the command, its options and positional
//! arguments, and what the command line asks the program to do.
use vstd::prelude::*;
use crate::domain::error::Error;
use crate::init::config::Options;
use crate::rules::base::{BaseRules, first_naming, first_command};
use crate::cli::version::UpdateChannel;
use crate::text;
use crate::text::parse_u64;

verus! {

/// Everything an invocation sets.
pub struct Invocation {
    pub command: String,
    pub build_dir: String,
    pub build_dir_explicit: bool,
    pub configuration: String,
    pub prefix: String,
    pub help_requested: bool,
    pub reconfigure: bool,
    pub compile_flags: Vec<String>,
    pub jobs: usize,
    pub positional: Vec<String>,
    pub run_arguments: Vec<String>,
    pub init_options: Options,
    pub update_channel: Option<String>,
    pub update_version: Option<String>,
    pub update_dev: bool,
    /// `--debug` with a build or run: full backtraces are turned on.
    pub full_backtrace: bool,
}

/// What the command line reads as.
pub enum Parsed {
    /// Print the version.
    Version,
    Invocation(Invocation),
}

/// Whether an argument asks for the version.
pub open spec fn is_version_flag(a: Seq<char>) -> bool {
    a == "--version"@ || a == "-V"@ || a == "-v"@
}

/// The command that the first argument names: `help` for none or a help
/// flag, the command of a rule that answers to it, or the argument itself.
pub open spec fn command_named(args: Seq<String>, rules: BaseRules) -> Seq<char> {
    if args.len() == 0 || args[0]@ == "--help"@ || args[0]@ == "-h"@ {
        "help"@
    } else {
        match first_naming(rules.commands@, args[0]@) {
            Some(i) => rules.commands@[i].command@,
            None => args[0]@,
        }
    }
}

/// A job count: a decimal number that fits in `usize`.
pub open spec fn job_count(s: Seq<char>) -> Option<usize> {
    match parse_u64(s) {
        Some(v) => if v <= usize::MAX {
            Some(v as usize)
        } else {
            None
        },
        None => None,
    }
}

fn parse_usize(s: &str) -> (r: Option<usize>)
    ensures
        r == job_count(s@),
{
    match text::parse_u64_chars(&text::chars_of(s)) {
        Some(v) => {
            if v <= usize::MAX as u64 {
                Some(v as usize)
            } else {
                None
            }
        },
        None => None,
    }
}

fn config_error(m: &str) -> (e: Error)
    ensures
        e matches Error::Config(t) && t@ == m@,
{
    Error::Config(text::owned(m))
}

/// The value after an option that takes one.
fn option_value(args: &Vec<String>, index: usize, message: &str) -> (r: Result<String, Error>)
    ensures
        index < args@.len() ==> (r matches Ok(v) && v@ == args@[index as int]@),
        index >= args@.len() ==> (r matches Err(Error::Config(m)) && m@ == message@),
{
    if index < args.len() {
        Ok(args[index].clone())
    } else {
        Err(config_error(message))
    }
}

/// What a command line sets, as text.
pub struct CommandLine {
    pub build_dir: Seq<char>,
    pub build_dir_explicit: bool,
    pub configuration: Seq<char>,
    pub prefix: Seq<char>,
    pub help_requested: bool,
    pub reconfigure: bool,
    pub compile_flags: Seq<Seq<char>>,
    pub jobs: usize,
    pub positional: Seq<Seq<char>>,
    pub run_arguments: Seq<Seq<char>>,
    pub project_name: Option<Seq<char>>,
    pub name: Option<Seq<char>>,
    pub language: Option<Seq<char>>,
    pub project_type: Option<Seq<char>>,
    pub template: Option<Seq<char>>,
    pub nix: bool,
    pub formatter: bool,
    pub noxfile: bool,
    pub update_channel: Option<Seq<char>>,
    pub update_version: Option<Seq<char>>,
    pub update_dev: bool,
    pub full_backtrace: bool,
}

pub open spec fn opt_text(o: Option<String>) -> Option<Seq<char>> {
    match o {
        Some(t) => Some(t@),
        None => None,
    }
}

/// What an invocation sets, as text.
pub open spec fn command_line(inv: Invocation) -> CommandLine {
    CommandLine {
        build_dir: inv.build_dir@,
        build_dir_explicit: inv.build_dir_explicit,
        configuration: inv.configuration@,
        prefix: inv.prefix@,
        help_requested: inv.help_requested,
        reconfigure: inv.reconfigure,
        compile_flags: text::views(inv.compile_flags@),
        jobs: inv.jobs,
        positional: text::views(inv.positional@),
        run_arguments: text::views(inv.run_arguments@),
        project_name: opt_text(inv.init_options.project_name),
        name: opt_text(inv.init_options.name),
        language: opt_text(inv.init_options.language),
        project_type: opt_text(inv.init_options.project_type),
        template: opt_text(inv.init_options.template),
        nix: inv.init_options.nix,
        formatter: inv.init_options.formatter,
        noxfile: inv.init_options.noxfile,
        update_channel: opt_text(inv.update_channel),
        update_version: opt_text(inv.update_version),
        update_dev: inv.update_dev,
        full_backtrace: inv.full_backtrace,
    }
}

/// The settings before any option: build directory `build`, debug
/// configuration, the default prefix and job count, a noxfile and a flake.
pub open spec fn initial_line(prefix: Seq<char>, jobs: usize) -> CommandLine {
    CommandLine {
        build_dir: "build"@,
        build_dir_explicit: false,
        configuration: "debug"@,
        prefix: prefix,
        help_requested: false,
        reconfigure: false,
        compile_flags: Seq::empty(),
        jobs: jobs,
        positional: Seq::empty(),
        run_arguments: Seq::empty(),
        project_name: None,
        name: None,
        language: None,
        project_type: None,
        template: None,
        nix: true,
        formatter: false,
        noxfile: true,
        update_channel: None,
        update_version: None,
        update_dev: false,
        full_backtrace: false,
    }
}

/// How a command line reads.
pub enum Reading {
    Version,
    Line(CommandLine),
    Failed(Seq<char>),
}

/// Reading the arguments from the `i`th on, for `command`.
pub open spec fn read_args(args: Seq<Seq<char>>, command: Seq<char>, i: int, c: CommandLine) -> Reading
    decreases args.len() - i,
{
    if i < 1 || i >= args.len() {
        Reading::Line(c)
    } else {
        let a = args[i];
        let is_update = command == "update"@;
        let builds = command == "build"@ || command == "compile"@ || command == "run"@;
        if command == "run"@ && a == "--"@ {
            Reading::Line(CommandLine { run_arguments: c.run_arguments + args.skip(i + 1), ..c })
        } else if a == "--help"@ || a == "-h"@ {
            read_args(args, command, i + 1, CommandLine { help_requested: true, ..c })
        } else if is_update && a == "--version"@ {
            if i + 1 < args.len() {
                read_args(args, command, i + 2, CommandLine { update_version: Some(args[i + 1]), ..c })
            } else {
                Reading::Failed("--version requires a value for update"@)
            }
        } else if is_version_flag(a) {
            Reading::Version
        } else if is_update && a == "--dev"@ {
            read_args(args, command, i + 1, CommandLine { update_dev: true, ..c })
        } else if is_update && a == "--channel"@ {
            if i + 1 < args.len() {
                read_args(args, command, i + 2, CommandLine { update_channel: Some(args[i + 1]), ..c })
            } else {
                Reading::Failed("--channel requires a value"@)
            }
        } else if a == "-j"@ {
            if i + 1 < args.len() {
                match job_count(args[i + 1]) {
                    Some(n) => read_args(args, command, i + 2, CommandLine { jobs: n, ..c }),
                    None => Reading::Failed("invalid job count"@),
                }
            } else {
                Reading::Failed("-j requires a value"@)
            }
        } else if a.len() > 2 && a[0] == '-' && a[1] == 'j' {
            match job_count(a.skip(2)) {
                Some(n) => read_args(args, command, i + 1, CommandLine { jobs: n, ..c }),
                None => Reading::Failed("invalid job count"@),
            }
        } else if a == "--release"@ {
            read_args(args, command, i + 1, CommandLine { configuration: "release"@, ..c })
        } else if a == "--debug"@ {
            read_args(args, command, i + 1, CommandLine { configuration: "debug"@, full_backtrace: c.full_backtrace || builds, ..c })
        } else if a == "--reconfigure"@ {
            read_args(args, command, i + 1, CommandLine { reconfigure: true, ..c })
        } else if a == "-C"@ || a == "--build-dir"@ {
            if i + 1 < args.len() {
                read_args(args, command, i + 2, CommandLine { build_dir_explicit: true, build_dir: args[i + 1], ..c })
            } else {
                Reading::Failed("--build-dir requires a path"@)
            }
        } else if a == "--compile-flag"@ {
            if i + 1 < args.len() {
                read_args(args, command, i + 2, CommandLine { compile_flags: c.compile_flags.push(args[i + 1]), ..c })
            } else {
                Reading::Failed("--compile-flag requires a value"@)
            }
        } else if a == "--prefix"@ {
            if i + 1 < args.len() {
                read_args(args, command, i + 2, CommandLine { prefix: args[i + 1], ..c })
            } else {
                Reading::Failed("--prefix requires a path"@)
            }
        } else if a == "--name"@ {
            if i + 1 < args.len() {
                read_args(args, command, i + 2, CommandLine { name: Some(args[i + 1]), ..c })
            } else {
                Reading::Failed("--name requires a value"@)
            }
        } else if a == "--language"@ {
            if i + 1 < args.len() {
                read_args(args, command, i + 2, CommandLine { language: Some(args[i + 1]), ..c })
            } else {
                Reading::Failed("--language requires a value"@)
            }
        } else if a == "--type"@ {
            if i + 1 < args.len() {
                read_args(args, command, i + 2, CommandLine { project_type: Some(args[i + 1]), ..c })
            } else {
                Reading::Failed("--type requires a value"@)
            }
        } else if a == "--template"@ {
            if i + 1 < args.len() {
                read_args(args, command, i + 2, CommandLine { template: Some(args[i + 1]), ..c })
            } else {
                Reading::Failed("--template requires a value"@)
            }
        } else if a == "--no-noxfile"@ {
            read_args(args, command, i + 1, CommandLine { noxfile: false, ..c })
        } else if a == "--no-nix"@ {
            read_args(args, command, i + 1, CommandLine { nix: false, ..c })
        } else if a == "--formatter"@ {
            read_args(args, command, i + 1, CommandLine { formatter: true, ..c })
        } else if a.len() > 0 && a[0] == '-' {
            Reading::Failed("unknown option '"@ + a + "'"@)
        } else {
            read_args(args, command, i + 1, CommandLine { positional: c.positional.push(a), ..c })
        }
    }
}

/// The first positional argument names the project for `init` and the
/// build directory for `setup`, `build` and `compile`.
pub open spec fn settled(c: CommandLine, command: Seq<char>) -> CommandLine {
    if c.positional.len() > 0 {
        let v = c.positional[0];
        let named = if command == "init"@ {
            CommandLine { project_name: Some(v), ..c }
        } else {
            c
        };
        if command == "setup"@ || command == "build"@ || command == "compile"@ {
            CommandLine { build_dir_explicit: true, build_dir: v, ..named }
        } else {
            named
        }
    } else {
        c
    }
}

/// How the arguments after the program name read: a version flag first
/// asks for the version; otherwise the command is named and the options
/// after it are read in order.
pub open spec fn reading(args: Seq<String>, rules: BaseRules, prefix: Seq<char>, jobs: usize) -> Reading {
    if args.len() > 0 && is_version_flag(args[0]@) {
        Reading::Version
    } else {
        let command = command_named(args, rules);
        match read_args(text::views(args), command, 1, initial_line(prefix, jobs)) {
            Reading::Line(c) => Reading::Line(settled(c, command)),
            other => other,
        }
    }
}

/// The arguments from the `start`th on.
fn arguments_from(args: &Vec<String>, start: usize) -> (r: Vec<String>)
    requires
        start <= args@.len(),
    ensures
        text::views(r@) == text::views(args@).skip(start as int),
{
    let mut out: Vec<String> = Vec::new();
    let mut i = start;
    while i < args.len()
        invariant
            start <= i <= args@.len(),
            text::views(out@) == text::views(args@).subrange(start as int, i as int),
        decreases args@.len() - i,
    {
        let ghost prev = out@;
        out.push(args[i].clone());
        assert(text::views(out@) =~= text::views(prev).push(args@[i as int]@));
        assert(text::views(args@).subrange(start as int, i + 1) =~= text::views(args@).subrange(start as int, i as int).push(args@[i as int]@));
        i = i + 1;
    }
    assert(text::views(args@).subrange(start as int, i as int) =~= text::views(args@).skip(start as int));
    out
}

/// Reads a command line (the arguments after the program name).
#[verifier::rlimit(100)]
pub fn parse_invocation(args: &Vec<String>, rules: &BaseRules, default_prefix: &str, default_jobs: usize) -> (r: Result<Parsed, Error>)
    ensures
        match reading(args@, *rules, default_prefix@, default_jobs) {
            Reading::Version => r matches Ok(Parsed::Version),
            Reading::Failed(m) => r matches Err(Error::Config(e)) && e@ == m,
            Reading::Line(c) => r matches Ok(Parsed::Invocation(inv)) && inv.command@ == command_named(args@, *rules)
                && command_line(inv) == c,
        },
{
    proof {
        reveal_strlit("--version");
        reveal_strlit("-V");
        reveal_strlit("-v");
        reveal_strlit("--help");
        reveal_strlit("-h");
    }
    let first: Option<&str> = if args.len() > 0 {
        Some(args[0].as_str())
    } else {
        None
    };
    match first {
        Some(f) => {
            if text::same(f, "--version") || text::same(f, "-V") || text::same(f, "-v") {
                return Ok(Parsed::Version);
            }
        },
        None => {},
    }
    let command: String = match first {
        None => text::owned("help"),
        Some(f) => {
            if text::same(f, "--help") || text::same(f, "-h") {
                text::owned("help")
            } else {
                match rules.command_name(f) {
                    Some(c) => text::owned(c),
                    None => text::owned(f),
                }
            }
        },
    };
    let is_update = text::same(command.as_str(), "update");
    let is_run = text::same(command.as_str(), "run");
    let builds = text::same(command.as_str(), "build") || text::same(command.as_str(), "compile") || is_run;
    let mut inv = Invocation {
        command,
        build_dir: text::owned("build"),
        build_dir_explicit: false,
        configuration: text::owned("debug"),
        prefix: text::owned(default_prefix),
        help_requested: false,
        reconfigure: false,
        compile_flags: Vec::new(),
        jobs: default_jobs,
        positional: Vec::new(),
        run_arguments: Vec::new(),
        init_options: Options::default(),
        update_channel: None,
        update_version: None,
        update_dev: false,
        full_backtrace: false,
    };
    let ghost named = inv.command@;
    let ghost argv = text::views(args@);
    assert(text::views(inv.compile_flags@) =~= Seq::<Seq<char>>::empty());
    assert(text::views(inv.positional@) =~= Seq::<Seq<char>>::empty());
    assert(text::views(inv.run_arguments@) =~= Seq::<Seq<char>>::empty());
    assert(command_line(inv) =~= initial_line(default_prefix@, default_jobs));
    assert(named == command_named(args@, *rules));
    let ghost result = read_args(argv, named, 1, initial_line(default_prefix@, default_jobs));
    let mut i: usize = 1;
    while i < args.len()
        invariant
            1 <= i,
            i <= args@.len() || args@.len() == 0,
            argv == text::views(args@),
            inv.command@ == named,
            named == command_named(args@, *rules),
            !(args@.len() > 0 && is_version_flag(args@[0]@)),
            is_update == (named == "update"@),
            is_run == (named == "run"@),
            builds == (named == "build"@ || named == "compile"@ || named == "run"@),
            result == read_args(argv, named, 1, initial_line(default_prefix@, default_jobs)),
            result == read_args(argv, named, i as int, command_line(inv)),
        decreases args@.len() - i,
    {
        let argument = args[i].as_str();
        let ghost at = i as int;
        let ghost before = command_line(inv);
        assert(argument@ == argv[at]);
        i = i + 1;
        if is_run && text::same(argument, "--") {
            let rest = arguments_from(args, i);
            let ghost prev = inv.run_arguments@;
            inv.run_arguments.append(&mut rest.clone());
            assert(text::views(inv.run_arguments@) =~= text::views(prev) + argv.skip(at + 1));
            i = args.len();
            assert(command_line(inv) =~= (CommandLine { run_arguments: before.run_arguments + argv.skip(at + 1), ..before }));
            assert(read_args(argv, named, i as int, command_line(inv)) == Reading::Line(command_line(inv)));
        } else if text::same(argument, "--help") || text::same(argument, "-h") {
            inv.help_requested = true;
        } else if is_update && text::same(argument, "--version") {
            let value = option_value(args, i, "--version requires a value for update")?;
            inv.update_version = Some(value);
            i = i + 1;
        } else if text::same(argument, "--version") || text::same(argument, "-V") || text::same(argument, "-v") {
            return Ok(Parsed::Version);
        } else if is_update && text::same(argument, "--dev") {
            inv.update_dev = true;
        } else if is_update && text::same(argument, "--channel") {
            let value = option_value(args, i, "--channel requires a value")?;
            inv.update_channel = Some(value);
            i = i + 1;
        } else if text::same(argument, "-j") {
            let value = option_value(args, i, "-j requires a value")?;
            i = i + 1;
            match parse_usize(value.as_str()) {
                Some(jobs) => inv.jobs = jobs,
                None => return Err(config_error("invalid job count")),
            }
        } else if is_job_prefix(argument) {
            let cs = text::chars_of(argument);
            let rest = text::slice_chars(&cs, 2, cs.len());
            let rest_text = text::string_of(&rest);
            assert(rest_text@ == argument@.skip(2));
            match parse_usize(rest_text.as_str()) {
                Some(jobs) => inv.jobs = jobs,
                None => return Err(config_error("invalid job count")),
            }
        } else if text::same(argument, "--release") {
            inv.configuration = text::owned("release");
        } else if text::same(argument, "--debug") {
            inv.configuration = text::owned("debug");
            if builds {
                inv.full_backtrace = true;
            }
        } else if text::same(argument, "--reconfigure") {
            inv.reconfigure = true;
        } else if text::same(argument, "-C") || text::same(argument, "--build-dir") {
            let value = option_value(args, i, "--build-dir requires a path")?;
            inv.build_dir_explicit = true;
            inv.build_dir = value;
            i = i + 1;
        } else if text::same(argument, "--compile-flag") {
            let value = option_value(args, i, "--compile-flag requires a value")?;
            let ghost prev = inv.compile_flags@;
            inv.compile_flags.push(value);
            assert(text::views(inv.compile_flags@) =~= text::views(prev).push(argv[at + 1]));
            i = i + 1;
        } else if text::same(argument, "--prefix") {
            let value = option_value(args, i, "--prefix requires a path")?;
            inv.prefix = value;
            i = i + 1;
        } else if text::same(argument, "--name") {
            let value = option_value(args, i, "--name requires a value")?;
            inv.init_options.name = Some(value);
            i = i + 1;
        } else if text::same(argument, "--language") {
            let value = option_value(args, i, "--language requires a value")?;
            inv.init_options.language = Some(value);
            i = i + 1;
        } else if text::same(argument, "--type") {
            let value = option_value(args, i, "--type requires a value")?;
            inv.init_options.project_type = Some(value);
            i = i + 1;
        } else if text::same(argument, "--template") {
            let value = option_value(args, i, "--template requires a value")?;
            inv.init_options.template = Some(value);
            i = i + 1;
        } else if text::same(argument, "--no-noxfile") {
            inv.init_options.noxfile = false;
        } else if text::same(argument, "--no-nix") {
            inv.init_options.nix = false;
        } else if text::same(argument, "--formatter") {
            inv.init_options.formatter = true;
        } else if starts_with_dash(argument) {
            let mut m = text::owned("unknown option '");
            text::push_str(&mut m, argument);
            text::push_str(&mut m, "'");
            return Err(Error::Config(m));
        } else {
            let ghost prev = inv.positional@;
            inv.positional.push(text::owned(argument));
            assert(text::views(inv.positional@) =~= text::views(prev).push(argv[at]));
        }
    }
    let ghost read = command_line(inv);
    if inv.positional.len() > 0 {
        let value = inv.positional[0].clone();
        let c = inv.command.as_str();
        if text::same(c, "init") {
            inv.init_options.project_name = Some(value.clone());
        }
        if text::same(c, "setup") || text::same(c, "build") || text::same(c, "compile") {
            inv.build_dir_explicit = true;
            inv.build_dir = value;
        }
    }
    assert(command_line(inv) =~= settled(read, named));
    Ok(Parsed::Invocation(inv))
}

fn starts_with_dash(s: &str) -> (r: bool)
    ensures
        r == (s@.len() > 0 && s@[0] == '-'),
{
    let cs = text::chars_of(s);
    cs.len() > 0 && cs[0] == '-'
}

/// `-jN` with something after `-j`.
fn is_job_prefix(s: &str) -> (r: bool)
    ensures
        r == (s@.len() > 2 && s@[0] == '-' && s@[1] == 'j'),
{
    let cs = text::chars_of(s);
    cs.len() > 2 && cs[0] == '-' && cs[1] == 'j'
}

/// What the program does for an invocation.
pub enum Dispatch {
    /// Initialize a project (or print its help).
    Init,
    /// Print help on a topic (empty for the general help).
    Help(String),
    /// Run a source file given on the command line.
    RunFile(String),
    PrintVersion,
    /// Update Nox from a channel or to a version.
    Update(Option<UpdateChannel>, Option<String>),
    ListRiders,
    /// Format the NOML files at a path.
    FormatNoml(String),
    /// A command that works on the project; whether it configures the
    /// build directory first when that is not done.
    WithProject(bool),
}

/// What an invocation does, as text.
pub enum DispatchText {
    Init,
    Help(Seq<char>),
    RunFile(Seq<char>),
    PrintVersion,
    Update(Option<UpdateChannel>, Option<Seq<char>>),
    ListRiders,
    FormatNoml(Seq<char>),
    WithProject(bool),
    Failed(Seq<char>),
}

pub open spec fn dispatch_text(d: Dispatch) -> DispatchText {
    match d {
        Dispatch::Init => DispatchText::Init,
        Dispatch::Help(t) => DispatchText::Help(t@),
        Dispatch::RunFile(p) => DispatchText::RunFile(p@),
        Dispatch::PrintVersion => DispatchText::PrintVersion,
        Dispatch::Update(c, v) => DispatchText::Update(c, opt_text(v)),
        Dispatch::ListRiders => DispatchText::ListRiders,
        Dispatch::FormatNoml(p) => DispatchText::FormatNoml(p@),
        Dispatch::WithProject(b) => DispatchText::WithProject(b),
    }
}

/// The channel `nox update` follows: `--dev`, else the named channel.
pub open spec fn update_dispatch(inv: Invocation) -> DispatchText {
    if inv.update_dev && inv.update_channel is Some {
        DispatchText::Failed("--dev and --channel cannot be used together"@)
    } else if inv.update_version is Some && (inv.update_dev || inv.update_channel is Some) {
        DispatchText::Failed("--version cannot be combined with --channel or --dev"@)
    } else if inv.update_dev {
        DispatchText::Update(Some(UpdateChannel::Dev), opt_text(inv.update_version))
    } else {
        match inv.update_channel {
            Some(name) => if name@ == "stable"@ {
                DispatchText::Update(Some(UpdateChannel::Stable), opt_text(inv.update_version))
            } else if name@ == "dev"@ {
                DispatchText::Update(Some(UpdateChannel::Dev), opt_text(inv.update_version))
            } else {
                DispatchText::Failed("unknown update channel '"@ + name@ + "' (expected stable or dev)"@)
            },
            None => DispatchText::Update(None, opt_text(inv.update_version)),
        }
    }
}

/// What an invocation does: initialize; print help; run a given source
/// file; print the version; update; list the Riders; format NOML files;
/// or work on the project. A command without a rule is an error.
pub open spec fn dispatched(inv: Invocation, rules: BaseRules, first_is_file: bool) -> DispatchText {
    let c = inv.command@;
    let unknown = DispatchText::Failed("unknown command '"@ + c + "'"@);
    if c == "init"@ {
        DispatchText::Init
    } else if c == "help"@ {
        DispatchText::Help(if inv.positional@.len() > 0 { inv.positional@[0]@ } else { Seq::empty() })
    } else if inv.help_requested {
        DispatchText::Help(c)
    } else {
        match first_command(rules.commands@, c) {
            None => unknown,
            Some(k) => if text::views(rules.accepts_files_as_input@).contains(c) && inv.positional@.len() > 0 && first_is_file {
                DispatchText::RunFile(inv.positional@[0]@)
            } else if c == "version"@ {
                DispatchText::PrintVersion
            } else if c == "update"@ {
                update_dispatch(inv)
            } else if c == "riders"@ {
                DispatchText::ListRiders
            } else if c == "nomlfmt"@ {
                if inv.positional@.len() == 0 {
                    DispatchText::Failed("nomlfmt requires a NOML file or directory"@)
                } else if inv.positional@.len() > 1 {
                    DispatchText::Failed("nomlfmt accepts exactly one file or directory"@)
                } else {
                    DispatchText::FormatNoml(inv.positional@[0]@)
                }
            } else if rules.commands@[k].requires_project {
                DispatchText::WithProject(text::views(rules.requires_initialization@).contains(c))
            } else {
                unknown
            },
        }
    }
}

/// Decides what an invocation does. `first_is_file` says whether the first
/// positional argument names an existing file.
pub fn dispatch(inv: &Invocation, rules: &BaseRules, first_is_file: bool) -> (r: Result<Dispatch, Error>)
    ensures
        match dispatched(*inv, *rules, first_is_file) {
            DispatchText::Failed(m) => r matches Err(Error::Config(e)) && e@ == m,
            d => r matches Ok(x) && dispatch_text(x) == d,
        },
{
    proof {
        reveal_strlit("init");
        reveal_strlit("help");
        reveal_strlit("version");
        reveal_strlit("update");
        reveal_strlit("riders");
        reveal_strlit("nomlfmt");
    }
    let command = inv.command.as_str();
    if text::same(command, "init") {
        return Ok(Dispatch::Init);
    }
    if text::same(command, "help") {
        let topic = if inv.positional.len() > 0 {
            inv.positional[0].clone()
        } else {
            String::new()
        };
        return Ok(Dispatch::Help(topic));
    }
    if inv.help_requested {
        return Ok(Dispatch::Help(inv.command.clone()));
    }
    let rule = match rules.command(command) {
        Some(rule) => rule,
        None => {
            let mut m = text::owned("unknown command '");
            text::push_str(&mut m, command);
            text::push_str(&mut m, "'");
            return Err(Error::Config(m));
        },
    };
    if rules.accepts_files_as_input(command) && inv.positional.len() > 0 && first_is_file {
        return Ok(Dispatch::RunFile(inv.positional[0].clone()));
    }
    if text::same(command, "version") {
        return Ok(Dispatch::PrintVersion);
    }
    if text::same(command, "update") {
        if inv.update_dev && inv.update_channel.is_some() {
            return Err(config_error("--dev and --channel cannot be used together"));
        }
        if inv.update_version.is_some() && (inv.update_dev || inv.update_channel.is_some()) {
            return Err(config_error("--version cannot be combined with --channel or --dev"));
        }
        let channel = if inv.update_dev {
            Some(UpdateChannel::Dev)
        } else {
            match &inv.update_channel {
                Some(name) => Some(UpdateChannel::parse(name.as_str())?),
                None => None,
            }
        };
        let version = match &inv.update_version {
            Some(v) => Some(v.clone()),
            None => None,
        };
        return Ok(Dispatch::Update(channel, version));
    }
    if text::same(command, "riders") {
        return Ok(Dispatch::ListRiders);
    }
    if text::same(command, "nomlfmt") {
        if inv.positional.len() == 0 {
            return Err(config_error("nomlfmt requires a NOML file or directory"));
        }
        if inv.positional.len() > 1 {
            return Err(config_error("nomlfmt accepts exactly one file or directory"));
        }
        return Ok(Dispatch::FormatNoml(inv.positional[0].clone()));
    }
    if rule.requires_project {
        return Ok(Dispatch::WithProject(rules.requires_initialization(command)));
    }
    let mut m = text::owned("unknown command '");
    text::push_str(&mut m, command);
    text::push_str(&mut m, "'");
    Err(Error::Config(m))
}

/// Law: a job count reads the same attached to `-j` and apart from it:
/// `-jN` and `-j N` both set the job count to the number that `N` writes and
/// go on with the next argument, and both refuse an `N` that is no number.
pub proof fn lemma_job_count_forms(args: Seq<Seq<char>>, command: Seq<char>, i: int, c: CommandLine, n: Seq<char>)
    requires
        1 <= i < args.len(),
        n.len() > 0,
    ensures
        args[i] == "-j"@ + n ==> read_args(args, command, i, c) == match job_count(n) {
            Some(k) => read_args(args, command, i + 1, CommandLine { jobs: k, ..c }),
            None => Reading::Failed("invalid job count"@),
        },
        args[i] == "-j"@ && i + 1 < args.len() && args[i + 1] == n ==> read_args(args, command, i, c)
            == match job_count(n) {
            Some(k) => read_args(args, command, i + 2, CommandLine { jobs: k, ..c }),
            None => Reading::Failed("invalid job count"@),
        },
{
    reveal_strlit("-j");
    reveal_strlit("--");
    reveal_strlit("--help");
    reveal_strlit("-h");
    reveal_strlit("--version");
    reveal_strlit("-V");
    reveal_strlit("-v");
    reveal_strlit("--dev");
    reveal_strlit("--channel");
    let a = args[i];
    if a == "-j"@ + n {
        assert(a.len() > 2 && a[0] == '-' && a[1] == 'j');
        assert(a != "--"@ && a != "--help"@ && a != "-h"@ && a != "--version"@ && a != "-V"@ && a != "-v"@);
        assert(a != "--dev"@ && a != "--channel"@ && a != "-j"@);
        assert(a.skip(2) =~= n);
    }
    if a == "-j"@ {
        assert(a.len() == 2 && a[1] == 'j');
        assert(a[1] != "--"@[1] && a[1] != "-h"@[1] && a[1] != "-V"@[1] && a[1] != "-v"@[1]);
        assert(a.len() != "--help"@.len() && a.len() != "--version"@.len());
        assert(a.len() != "--dev"@.len() && a.len() != "--channel"@.len());
    }
}

/// Law: each option sets what it names and reading goes on after it (and
/// after its value): `--release` and `--debug` choose the configuration
/// (`--debug` also asks for full backtraces of builds and runs), `-C` and
/// `--build-dir` the build directory, `--prefix` the install prefix,
/// `--compile-flag` adds a compile flag after those before it, and the
/// `init` options set the name, language, type, template, noxfile, Nix
/// and formatter choices.
pub proof fn lemma_options_set_their_field(args: Seq<Seq<char>>, command: Seq<char>, i: int, c: CommandLine)
    requires
        1 <= i < args.len(),
    ensures
        args[i] == "--release"@ ==> read_args(args, command, i, c) == read_args(args, command, i + 1, CommandLine { configuration: "release"@, ..c }),
        args[i] == "--debug"@ ==> read_args(args, command, i, c) == read_args(args, command, i + 1, CommandLine { configuration: "debug"@, full_backtrace: c.full_backtrace || command == "build"@ || command == "compile"@ || command == "run"@, ..c }),
        args[i] == "--reconfigure"@ ==> read_args(args, command, i, c) == read_args(args, command, i + 1, CommandLine { reconfigure: true, ..c }),
        args[i] == "-C"@ && i + 1 < args.len() ==> read_args(args, command, i, c) == read_args(args, command, i + 2, CommandLine { build_dir_explicit: true, build_dir: args[i + 1], ..c }),
        args[i] == "--build-dir"@ && i + 1 < args.len() ==> read_args(args, command, i, c) == read_args(args, command, i + 2, CommandLine { build_dir_explicit: true, build_dir: args[i + 1], ..c }),
        args[i] == "--compile-flag"@ && i + 1 < args.len() ==> read_args(args, command, i, c) == read_args(args, command, i + 2, CommandLine { compile_flags: c.compile_flags.push(args[i + 1]), ..c }),
        args[i] == "--prefix"@ && i + 1 < args.len() ==> read_args(args, command, i, c) == read_args(args, command, i + 2, CommandLine { prefix: args[i + 1], ..c }),
        args[i] == "--name"@ && i + 1 < args.len() ==> read_args(args, command, i, c) == read_args(args, command, i + 2, CommandLine { name: Some(args[i + 1]), ..c }),
        args[i] == "--language"@ && i + 1 < args.len() ==> read_args(args, command, i, c) == read_args(args, command, i + 2, CommandLine { language: Some(args[i + 1]), ..c }),
        args[i] == "--type"@ && i + 1 < args.len() ==> read_args(args, command, i, c) == read_args(args, command, i + 2, CommandLine { project_type: Some(args[i + 1]), ..c }),
        args[i] == "--template"@ && i + 1 < args.len() ==> read_args(args, command, i, c) == read_args(args, command, i + 2, CommandLine { template: Some(args[i + 1]), ..c }),
        args[i] == "--no-noxfile"@ ==> read_args(args, command, i, c) == read_args(args, command, i + 1, CommandLine { noxfile: false, ..c }),
        args[i] == "--no-nix"@ ==> read_args(args, command, i, c) == read_args(args, command, i + 1, CommandLine { nix: false, ..c }),
        args[i] == "--formatter"@ ==> read_args(args, command, i, c) == read_args(args, command, i + 1, CommandLine { formatter: true, ..c }),
{
    reveal_strlit("--");
    reveal_strlit("--help");
    reveal_strlit("-h");
    reveal_strlit("--version");
    reveal_strlit("-V");
    reveal_strlit("-v");
    reveal_strlit("--dev");
    reveal_strlit("--channel");
    reveal_strlit("-j");
    reveal_strlit("--release");
    reveal_strlit("--debug");
    reveal_strlit("--reconfigure");
    reveal_strlit("-C");
    reveal_strlit("--build-dir");
    reveal_strlit("--compile-flag");
    reveal_strlit("--prefix");
    reveal_strlit("--name");
    reveal_strlit("--language");
    reveal_strlit("--type");
    reveal_strlit("--template");
    reveal_strlit("--no-noxfile");
    reveal_strlit("--no-nix");
    reveal_strlit("--formatter");
    assert("--release"@.len() != "--"@.len());
    assert("--release"@.len() != "--help"@.len());
    assert("--release"@.len() != "-h"@.len());
    assert("--release"@[2] != "--version"@[2]);
    assert("--release"@.len() != "-V"@.len());
    assert("--release"@.len() != "-v"@.len());
    assert("--release"@.len() != "--dev"@.len());
    assert("--release"@[2] != "--channel"@[2]);
    assert("--release"@.len() != "-j"@.len());
    assert("--release"@[1] != 'j');
    assert("--debug"@.len() != "--"@.len());
    assert("--debug"@.len() != "--help"@.len());
    assert("--debug"@.len() != "-h"@.len());
    assert("--debug"@.len() != "--version"@.len());
    assert("--debug"@.len() != "-V"@.len());
    assert("--debug"@.len() != "-v"@.len());
    assert("--debug"@.len() != "--dev"@.len());
    assert("--debug"@.len() != "--channel"@.len());
    assert("--debug"@.len() != "-j"@.len());
    assert("--debug"@.len() != "--release"@.len());
    assert("--debug"@[1] != 'j');
    assert("--reconfigure"@.len() != "--"@.len());
    assert("--reconfigure"@.len() != "--help"@.len());
    assert("--reconfigure"@.len() != "-h"@.len());
    assert("--reconfigure"@.len() != "--version"@.len());
    assert("--reconfigure"@.len() != "-V"@.len());
    assert("--reconfigure"@.len() != "-v"@.len());
    assert("--reconfigure"@.len() != "--dev"@.len());
    assert("--reconfigure"@.len() != "--channel"@.len());
    assert("--reconfigure"@.len() != "-j"@.len());
    assert("--reconfigure"@.len() != "--release"@.len());
    assert("--reconfigure"@.len() != "--debug"@.len());
    assert("--reconfigure"@[1] != 'j');
    assert("-C"@[1] != "--"@[1]);
    assert("-C"@.len() != "--help"@.len());
    assert("-C"@[1] != "-h"@[1]);
    assert("-C"@.len() != "--version"@.len());
    assert("-C"@[1] != "-V"@[1]);
    assert("-C"@[1] != "-v"@[1]);
    assert("-C"@.len() != "--dev"@.len());
    assert("-C"@.len() != "--channel"@.len());
    assert("-C"@[1] != "-j"@[1]);
    assert("-C"@.len() != "--release"@.len());
    assert("-C"@.len() != "--debug"@.len());
    assert("-C"@.len() != "--reconfigure"@.len());
    assert("-C"@[1] != 'j');
    assert("--build-dir"@.len() != "--"@.len());
    assert("--build-dir"@.len() != "--help"@.len());
    assert("--build-dir"@.len() != "-h"@.len());
    assert("--build-dir"@.len() != "--version"@.len());
    assert("--build-dir"@.len() != "-V"@.len());
    assert("--build-dir"@.len() != "-v"@.len());
    assert("--build-dir"@.len() != "--dev"@.len());
    assert("--build-dir"@.len() != "--channel"@.len());
    assert("--build-dir"@.len() != "-j"@.len());
    assert("--build-dir"@.len() != "--release"@.len());
    assert("--build-dir"@.len() != "--debug"@.len());
    assert("--build-dir"@.len() != "--reconfigure"@.len());
    assert("--build-dir"@.len() != "-C"@.len());
    assert("--build-dir"@[1] != 'j');
    assert("--compile-flag"@.len() != "--"@.len());
    assert("--compile-flag"@.len() != "--help"@.len());
    assert("--compile-flag"@.len() != "-h"@.len());
    assert("--compile-flag"@.len() != "--version"@.len());
    assert("--compile-flag"@.len() != "-V"@.len());
    assert("--compile-flag"@.len() != "-v"@.len());
    assert("--compile-flag"@.len() != "--dev"@.len());
    assert("--compile-flag"@.len() != "--channel"@.len());
    assert("--compile-flag"@.len() != "-j"@.len());
    assert("--compile-flag"@.len() != "--release"@.len());
    assert("--compile-flag"@.len() != "--debug"@.len());
    assert("--compile-flag"@.len() != "--reconfigure"@.len());
    assert("--compile-flag"@.len() != "-C"@.len());
    assert("--compile-flag"@.len() != "--build-dir"@.len());
    assert("--compile-flag"@[1] != 'j');
    assert("--prefix"@.len() != "--"@.len());
    assert("--prefix"@.len() != "--help"@.len());
    assert("--prefix"@.len() != "-h"@.len());
    assert("--prefix"@.len() != "--version"@.len());
    assert("--prefix"@.len() != "-V"@.len());
    assert("--prefix"@.len() != "-v"@.len());
    assert("--prefix"@.len() != "--dev"@.len());
    assert("--prefix"@.len() != "--channel"@.len());
    assert("--prefix"@.len() != "-j"@.len());
    assert("--prefix"@.len() != "--release"@.len());
    assert("--prefix"@.len() != "--debug"@.len());
    assert("--prefix"@.len() != "--reconfigure"@.len());
    assert("--prefix"@.len() != "-C"@.len());
    assert("--prefix"@.len() != "--build-dir"@.len());
    assert("--prefix"@.len() != "--compile-flag"@.len());
    assert("--prefix"@[1] != 'j');
    assert("--name"@.len() != "--"@.len());
    assert("--name"@[2] != "--help"@[2]);
    assert("--name"@.len() != "-h"@.len());
    assert("--name"@.len() != "--version"@.len());
    assert("--name"@.len() != "-V"@.len());
    assert("--name"@.len() != "-v"@.len());
    assert("--name"@.len() != "--dev"@.len());
    assert("--name"@.len() != "--channel"@.len());
    assert("--name"@.len() != "-j"@.len());
    assert("--name"@.len() != "--release"@.len());
    assert("--name"@.len() != "--debug"@.len());
    assert("--name"@.len() != "--reconfigure"@.len());
    assert("--name"@.len() != "-C"@.len());
    assert("--name"@.len() != "--build-dir"@.len());
    assert("--name"@.len() != "--compile-flag"@.len());
    assert("--name"@.len() != "--prefix"@.len());
    assert("--name"@[1] != 'j');
    assert("--language"@.len() != "--"@.len());
    assert("--language"@.len() != "--help"@.len());
    assert("--language"@.len() != "-h"@.len());
    assert("--language"@.len() != "--version"@.len());
    assert("--language"@.len() != "-V"@.len());
    assert("--language"@.len() != "-v"@.len());
    assert("--language"@.len() != "--dev"@.len());
    assert("--language"@.len() != "--channel"@.len());
    assert("--language"@.len() != "-j"@.len());
    assert("--language"@.len() != "--release"@.len());
    assert("--language"@.len() != "--debug"@.len());
    assert("--language"@.len() != "--reconfigure"@.len());
    assert("--language"@.len() != "-C"@.len());
    assert("--language"@.len() != "--build-dir"@.len());
    assert("--language"@.len() != "--compile-flag"@.len());
    assert("--language"@.len() != "--prefix"@.len());
    assert("--language"@.len() != "--name"@.len());
    assert("--language"@[1] != 'j');
    assert("--type"@.len() != "--"@.len());
    assert("--type"@[2] != "--help"@[2]);
    assert("--type"@.len() != "-h"@.len());
    assert("--type"@.len() != "--version"@.len());
    assert("--type"@.len() != "-V"@.len());
    assert("--type"@.len() != "-v"@.len());
    assert("--type"@.len() != "--dev"@.len());
    assert("--type"@.len() != "--channel"@.len());
    assert("--type"@.len() != "-j"@.len());
    assert("--type"@.len() != "--release"@.len());
    assert("--type"@.len() != "--debug"@.len());
    assert("--type"@.len() != "--reconfigure"@.len());
    assert("--type"@.len() != "-C"@.len());
    assert("--type"@.len() != "--build-dir"@.len());
    assert("--type"@.len() != "--compile-flag"@.len());
    assert("--type"@.len() != "--prefix"@.len());
    assert("--type"@[2] != "--name"@[2]);
    assert("--type"@.len() != "--language"@.len());
    assert("--type"@[1] != 'j');
    assert("--template"@.len() != "--"@.len());
    assert("--template"@.len() != "--help"@.len());
    assert("--template"@.len() != "-h"@.len());
    assert("--template"@.len() != "--version"@.len());
    assert("--template"@.len() != "-V"@.len());
    assert("--template"@.len() != "-v"@.len());
    assert("--template"@.len() != "--dev"@.len());
    assert("--template"@.len() != "--channel"@.len());
    assert("--template"@.len() != "-j"@.len());
    assert("--template"@.len() != "--release"@.len());
    assert("--template"@.len() != "--debug"@.len());
    assert("--template"@.len() != "--reconfigure"@.len());
    assert("--template"@.len() != "-C"@.len());
    assert("--template"@.len() != "--build-dir"@.len());
    assert("--template"@.len() != "--compile-flag"@.len());
    assert("--template"@.len() != "--prefix"@.len());
    assert("--template"@.len() != "--name"@.len());
    assert("--template"@[2] != "--language"@[2]);
    assert("--template"@.len() != "--type"@.len());
    assert("--template"@[1] != 'j');
    assert("--no-noxfile"@.len() != "--"@.len());
    assert("--no-noxfile"@.len() != "--help"@.len());
    assert("--no-noxfile"@.len() != "-h"@.len());
    assert("--no-noxfile"@.len() != "--version"@.len());
    assert("--no-noxfile"@.len() != "-V"@.len());
    assert("--no-noxfile"@.len() != "-v"@.len());
    assert("--no-noxfile"@.len() != "--dev"@.len());
    assert("--no-noxfile"@.len() != "--channel"@.len());
    assert("--no-noxfile"@.len() != "-j"@.len());
    assert("--no-noxfile"@.len() != "--release"@.len());
    assert("--no-noxfile"@.len() != "--debug"@.len());
    assert("--no-noxfile"@.len() != "--reconfigure"@.len());
    assert("--no-noxfile"@.len() != "-C"@.len());
    assert("--no-noxfile"@.len() != "--build-dir"@.len());
    assert("--no-noxfile"@.len() != "--compile-flag"@.len());
    assert("--no-noxfile"@.len() != "--prefix"@.len());
    assert("--no-noxfile"@.len() != "--name"@.len());
    assert("--no-noxfile"@.len() != "--language"@.len());
    assert("--no-noxfile"@.len() != "--type"@.len());
    assert("--no-noxfile"@.len() != "--template"@.len());
    assert("--no-noxfile"@[1] != 'j');
    assert("--no-nix"@.len() != "--"@.len());
    assert("--no-nix"@.len() != "--help"@.len());
    assert("--no-nix"@.len() != "-h"@.len());
    assert("--no-nix"@.len() != "--version"@.len());
    assert("--no-nix"@.len() != "-V"@.len());
    assert("--no-nix"@.len() != "-v"@.len());
    assert("--no-nix"@.len() != "--dev"@.len());
    assert("--no-nix"@.len() != "--channel"@.len());
    assert("--no-nix"@.len() != "-j"@.len());
    assert("--no-nix"@.len() != "--release"@.len());
    assert("--no-nix"@.len() != "--debug"@.len());
    assert("--no-nix"@.len() != "--reconfigure"@.len());
    assert("--no-nix"@.len() != "-C"@.len());
    assert("--no-nix"@.len() != "--build-dir"@.len());
    assert("--no-nix"@.len() != "--compile-flag"@.len());
    assert("--no-nix"@[2] != "--prefix"@[2]);
    assert("--no-nix"@.len() != "--name"@.len());
    assert("--no-nix"@.len() != "--language"@.len());
    assert("--no-nix"@.len() != "--type"@.len());
    assert("--no-nix"@.len() != "--template"@.len());
    assert("--no-nix"@.len() != "--no-noxfile"@.len());
    assert("--no-nix"@[1] != 'j');
    assert("--formatter"@.len() != "--"@.len());
    assert("--formatter"@.len() != "--help"@.len());
    assert("--formatter"@.len() != "-h"@.len());
    assert("--formatter"@.len() != "--version"@.len());
    assert("--formatter"@.len() != "-V"@.len());
    assert("--formatter"@.len() != "-v"@.len());
    assert("--formatter"@.len() != "--dev"@.len());
    assert("--formatter"@.len() != "--channel"@.len());
    assert("--formatter"@.len() != "-j"@.len());
    assert("--formatter"@.len() != "--release"@.len());
    assert("--formatter"@.len() != "--debug"@.len());
    assert("--formatter"@.len() != "--reconfigure"@.len());
    assert("--formatter"@.len() != "-C"@.len());
    assert("--formatter"@[2] != "--build-dir"@[2]);
    assert("--formatter"@.len() != "--compile-flag"@.len());
    assert("--formatter"@.len() != "--prefix"@.len());
    assert("--formatter"@.len() != "--name"@.len());
    assert("--formatter"@.len() != "--language"@.len());
    assert("--formatter"@.len() != "--type"@.len());
    assert("--formatter"@.len() != "--template"@.len());
    assert("--formatter"@.len() != "--no-noxfile"@.len());
    assert("--formatter"@.len() != "--no-nix"@.len());
    assert("--formatter"@[1] != 'j');
}

/// Law: an argument that is no option is kept as a positional argument,
/// after those before it, and reading goes on with the next one.
pub proof fn lemma_positional_kept(args: Seq<Seq<char>>, command: Seq<char>, i: int, c: CommandLine)
    requires
        1 <= i < args.len(),
        !(args[i].len() > 0 && args[i][0] == '-'),
    ensures
        read_args(args, command, i, c) == read_args(args, command, i + 1, CommandLine { positional: c.positional.push(args[i]), ..c }),
{
    reveal_strlit("--");
    reveal_strlit("--help");
    reveal_strlit("-h");
    reveal_strlit("--version");
    reveal_strlit("-V");
    reveal_strlit("-v");
    reveal_strlit("--dev");
    reveal_strlit("--channel");
    reveal_strlit("-j");
    reveal_strlit("--release");
    reveal_strlit("--debug");
    reveal_strlit("--reconfigure");
    reveal_strlit("-C");
    reveal_strlit("--build-dir");
    reveal_strlit("--compile-flag");
    reveal_strlit("--prefix");
    reveal_strlit("--name");
    reveal_strlit("--language");
    reveal_strlit("--type");
    reveal_strlit("--template");
    reveal_strlit("--no-noxfile");
    reveal_strlit("--no-nix");
    reveal_strlit("--formatter");
    let a = args[i];
    if a.len() > 0 {
        assert("--"@[0] == '-');
        assert("--help"@[0] == '-');
        assert("-h"@[0] == '-');
        assert("--version"@[0] == '-');
        assert("-V"@[0] == '-');
        assert("-v"@[0] == '-');
        assert("--dev"@[0] == '-');
        assert("--channel"@[0] == '-');
        assert("-j"@[0] == '-');
        assert("--release"@[0] == '-');
        assert("--debug"@[0] == '-');
        assert("--reconfigure"@[0] == '-');
        assert("-C"@[0] == '-');
        assert("--build-dir"@[0] == '-');
        assert("--compile-flag"@[0] == '-');
        assert("--prefix"@[0] == '-');
        assert("--name"@[0] == '-');
        assert("--language"@[0] == '-');
        assert("--type"@[0] == '-');
        assert("--template"@[0] == '-');
        assert("--no-noxfile"@[0] == '-');
        assert("--no-nix"@[0] == '-');
        assert("--formatter"@[0] == '-');
    }
}

/// Law: the first positional argument names the build directory of
/// `setup`, `build` and `compile` and the project of `init`; other commands
/// keep it only as a positional argument, and the positional arguments stay
/// as they were read.
pub proof fn lemma_first_positional(c: CommandLine, command: Seq<char>)
    requires
        c.positional.len() > 0,
    ensures
        settled(c, command).positional == c.positional,
        command == "setup"@ || command == "build"@ || command == "compile"@ ==> settled(c, command).build_dir
            == c.positional[0] && settled(c, command).build_dir_explicit,
        command == "init"@ ==> settled(c, command).project_name == Some(c.positional[0]) && settled(c, command).build_dir
            == c.build_dir,
        !(command == "setup"@ || command == "build"@ || command == "compile"@ || command == "init"@) ==> settled(c, command)
            == c,
{
    reveal_strlit("init");
    reveal_strlit("setup");
    reveal_strlit("build");
    reveal_strlit("compile");
    assert("init"@.len() != "setup"@.len() && "init"@.len() != "build"@.len() && "init"@.len() != "compile"@.len());
}

/// Law: `nox update` follows at most one choice: `--dev` and `--channel`
/// together are refused, and so is `--version` beside either; `--dev`
/// follows the development channel, `--channel stable|dev` that channel,
/// and with no choice the channel is left to the installation.
pub proof fn lemma_update_choice(inv: Invocation)
    ensures
        inv.update_dev && inv.update_channel is Some ==> update_dispatch(inv) is Failed,
        inv.update_version is Some && (inv.update_dev || inv.update_channel is Some) ==> update_dispatch(inv) is Failed,
        inv.update_dev && inv.update_channel is None && inv.update_version is None ==> update_dispatch(inv)
            == DispatchText::Update(Some(UpdateChannel::Dev), None),
        !inv.update_dev && inv.update_channel is None ==> update_dispatch(inv) == DispatchText::Update(None, opt_text(inv.update_version)),
        !inv.update_dev && inv.update_version is None && (inv.update_channel matches Some(n) && n@ == "stable"@)
            ==> update_dispatch(inv) == DispatchText::Update(Some(UpdateChannel::Stable), None),
        !inv.update_dev && inv.update_version is None && (inv.update_channel matches Some(n) && n@ == "dev"@)
            ==> update_dispatch(inv) == DispatchText::Update(Some(UpdateChannel::Dev), None),
{
    reveal_strlit("stable");
    reveal_strlit("dev");
    assert("dev"@.len() != "stable"@.len());
}

/// Law: a command that no rule names is refused as unknown, unless it is
/// `init` or `help` or help was asked for; `--help` after any command gives
/// that command's help.
pub proof fn lemma_unknown_and_help(inv: Invocation, rules: BaseRules, first_is_file: bool)
    ensures
        first_command(rules.commands@, inv.command@) is None && inv.command@ != "init"@ && inv.command@ != "help"@
            && !inv.help_requested ==> dispatched(inv, rules, first_is_file) == DispatchText::Failed(
            "unknown command '"@ + inv.command@ + "'"@,
        ),
        inv.help_requested && inv.command@ != "init"@ && inv.command@ != "help"@ ==> dispatched(inv, rules, first_is_file)
            == DispatchText::Help(inv.command@),
{
}

} // verus!
