//! Command-line argument handling for the `hyperwm` front end: subcommand
//! selection, `-h`/`--help` detection, `verify`'s own arguments, and which
//! default config file the `status` view marks as in play.
use crate::config::{join, join_path};
use crate::text::str_equal;
use vstd::prelude::*;

verus! {

/// `s` is `-h` or `--help`.
pub open spec fn is_help_flag(s: Seq<char>) -> bool {
    s == "-h"@ || s == "--help"@
}

/// Whether any argument asks for help. Every subcommand checks this before
/// doing anything with side effects.
pub fn wants_help(args: &[String]) -> (r: bool)
    ensures
        r == exists|i: int| 0 <= i < args@.len() && is_help_flag(#[trigger] args@[i]@),
{
    let mut i: usize = 0;
    while i < args.len()
        invariant
            i <= args@.len(),
            forall|j: int| 0 <= j < i ==> !is_help_flag(#[trigger] args@[j]@),
        decreases args@.len() - i,
    {
        if str_equal(args[i].as_str(), "-h") || str_equal(args[i].as_str(), "--help") {
            proof {
                assert(is_help_flag(args@[i as int]@));
            }
            return true;
        }
        i = i + 1;
    }
    false
}

/// The top-level subcommand.
#[derive(Debug, Clone, PartialEq, Eq)]
pub enum Command {
    Reload,
    Status,
    Verify,
    Daemon,
    InstallKeymap,
    Help,
    Version,
    /// An unrecognized subcommand, as written.
    Unknown(String),
    /// No subcommand at all.
    Missing,
}

/// `Command`, taken by view.
pub enum CommandView {
    Reload,
    Status,
    Verify,
    Daemon,
    InstallKeymap,
    Help,
    Version,
    Unknown(Seq<char>),
    Missing,
}

impl View for Command {
    type V = CommandView;

    open spec fn view(&self) -> CommandView {
        match self {
            Command::Reload => CommandView::Reload,
            Command::Status => CommandView::Status,
            Command::Verify => CommandView::Verify,
            Command::Daemon => CommandView::Daemon,
            Command::InstallKeymap => CommandView::InstallKeymap,
            Command::Help => CommandView::Help,
            Command::Version => CommandView::Version,
            Command::Unknown(s) => CommandView::Unknown(s@),
            Command::Missing => CommandView::Missing,
        }
    }
}

/// The subcommand named by `word`.
pub open spec fn command_named(word: Seq<char>) -> CommandView {
    if word == "reload"@ {
        CommandView::Reload
    } else if word == "status"@ {
        CommandView::Status
    } else if word == "verify"@ {
        CommandView::Verify
    } else if word == "daemon"@ {
        CommandView::Daemon
    } else if word == "install-keymap"@ {
        CommandView::InstallKeymap
    } else if word == "-h"@ || word == "--help"@ {
        CommandView::Help
    } else if word == "-v"@ || word == "--version"@ {
        CommandView::Version
    } else {
        CommandView::Unknown(word)
    }
}

/// The subcommand selected by a full argument list (`args[0]` is the
/// program name).
pub fn parse_command(args: &[String]) -> (c: Command)
    ensures
        c@ == (if args@.len() < 2 {
            CommandView::Missing
        } else {
            command_named(args@[1]@)
        }),
{
    if args.len() < 2 {
        return Command::Missing;
    }
    let w = args[1].as_str();
    if str_equal(w, "reload") {
        Command::Reload
    } else if str_equal(w, "status") {
        Command::Status
    } else if str_equal(w, "verify") {
        Command::Verify
    } else if str_equal(w, "daemon") {
        Command::Daemon
    } else if str_equal(w, "install-keymap") {
        Command::InstallKeymap
    } else if str_equal(w, "-h") || str_equal(w, "--help") {
        Command::Help
    } else if str_equal(w, "-v") || str_equal(w, "--version") {
        Command::Version
    } else {
        Command::Unknown(args[1].clone())
    }
}

/// The words the usage text documents, each with the command it selects:
/// the five subcommands, and the help and version flags in their short and
/// long forms.
pub open spec fn usage_table() -> Seq<(Seq<char>, CommandView)> {
    seq![
        ("reload"@, CommandView::Reload),
        ("status"@, CommandView::Status),
        ("verify"@, CommandView::Verify),
        ("daemon"@, CommandView::Daemon),
        ("install-keymap"@, CommandView::InstallKeymap),
        ("-h"@, CommandView::Help),
        ("--help"@, CommandView::Help),
        ("-v"@, CommandView::Version),
        ("--version"@, CommandView::Version),
    ]
}

/// Every documented word selects the command the usage text gives it (so
/// `-v` and `--version` both ask for the version, `-h` and `--help` both for
/// help), and any other word is reported back, as written, as unknown.
pub proof fn law_documented_commands(word: Seq<char>)
    ensures
        forall|i: int|
            0 <= i < usage_table().len() ==> command_named(#[trigger] usage_table()[i].0)
                == usage_table()[i].1,
        command_named(word) is Unknown <==> !(exists|i: int|
            0 <= i < usage_table().len() && #[trigger] usage_table()[i].0 == word),
        command_named(word) matches CommandView::Unknown(w) ==> w == word,
        command_named("-v"@) == command_named("--version"@),
        command_named("-h"@) == command_named("--help"@),
{
    reveal_strlit("reload");
    reveal_strlit("status");
    reveal_strlit("verify");
    reveal_strlit("daemon");
    reveal_strlit("install-keymap");
    reveal_strlit("-h");
    reveal_strlit("--help");
    reveal_strlit("-v");
    reveal_strlit("--version");
    let t = usage_table();
    assert(t[0].0 == "reload"@ && t[1].0 == "status"@ && t[2].0 == "verify"@);
    assert(t[3].0 == "daemon"@ && t[4].0 == "install-keymap"@ && t[5].0 == "-h"@);
    assert(t[6].0 == "--help"@ && t[7].0 == "-v"@ && t[8].0 == "--version"@);
    assert(command_named("reload"@) == CommandView::Reload);
    assert("status"@[0] != "reload"@[0]);
    assert("verify"@[0] != "reload"@[0] && "verify"@[0] != "status"@[0]);
    assert("daemon"@[0] != "reload"@[0] && "daemon"@[0] != "status"@[0] && "daemon"@[0]
        != "verify"@[0]);
    assert(command_named("status"@) == CommandView::Status);
    assert(command_named("verify"@) == CommandView::Verify);
    assert(command_named("daemon"@) == CommandView::Daemon);
    assert(command_named("install-keymap"@) == CommandView::InstallKeymap);
    assert(command_named("-h"@) == CommandView::Help);
    assert(command_named("--help"@) == CommandView::Help);
    assert("-v"@[1] != "-h"@[1]);
    assert(command_named("-v"@) == CommandView::Version);
    assert(command_named("--version"@) == CommandView::Version);
    assert forall|i: int|
        0 <= i < t.len() implies command_named(#[trigger] t[i].0) == t[i].1 by {
        if i == 0 {
        } else if i == 1 {
        } else if i == 2 {
        } else if i == 3 {
        } else if i == 4 {
        } else if i == 5 {
        } else if i == 6 {
        } else if i == 7 {
        } else {
        }
    }
    if !(command_named(word) is Unknown) {
        if word == "reload"@ {
            assert(t[0].0 == word);
        } else if word == "status"@ {
            assert(t[1].0 == word);
        } else if word == "verify"@ {
            assert(t[2].0 == word);
        } else if word == "daemon"@ {
            assert(t[3].0 == word);
        } else if word == "install-keymap"@ {
            assert(t[4].0 == word);
        } else if word == "-h"@ {
            assert(t[5].0 == word);
        } else if word == "--help"@ {
            assert(t[6].0 == word);
        } else if word == "-v"@ {
            assert(t[7].0 == word);
        } else {
            assert(t[8].0 == word);
        }
    }
}

/// `hyperwm daemon`'s subcommand.
#[derive(Debug, Clone, PartialEq, Eq)]
pub enum DaemonCommand {
    Start,
    Stop,
    Restart,
    Help,
    Unknown(String),
    Missing,
}

/// `DaemonCommand`, taken by view.
pub enum DaemonCommandView {
    Start,
    Stop,
    Restart,
    Help,
    Unknown(Seq<char>),
    Missing,
}

impl View for DaemonCommand {
    type V = DaemonCommandView;

    open spec fn view(&self) -> DaemonCommandView {
        match self {
            DaemonCommand::Start => DaemonCommandView::Start,
            DaemonCommand::Stop => DaemonCommandView::Stop,
            DaemonCommand::Restart => DaemonCommandView::Restart,
            DaemonCommand::Help => DaemonCommandView::Help,
            DaemonCommand::Unknown(s) => DaemonCommandView::Unknown(s@),
            DaemonCommand::Missing => DaemonCommandView::Missing,
        }
    }
}

/// The `daemon` subcommand named by `word`.
pub open spec fn daemon_command_named(word: Seq<char>) -> DaemonCommandView {
    if word == "start"@ {
        DaemonCommandView::Start
    } else if word == "stop"@ {
        DaemonCommandView::Stop
    } else if word == "restart"@ {
        DaemonCommandView::Restart
    } else if word == "-h"@ || word == "--help"@ {
        DaemonCommandView::Help
    } else {
        DaemonCommandView::Unknown(word)
    }
}

/// The `daemon` subcommand selected by the arguments after `daemon`.
pub fn parse_daemon_command(args: &[String]) -> (c: DaemonCommand)
    ensures
        c@ == (if args@.len() == 0 {
            DaemonCommandView::Missing
        } else {
            daemon_command_named(args@[0]@)
        }),
{
    if args.len() == 0 {
        return DaemonCommand::Missing;
    }
    let w = args[0].as_str();
    if str_equal(w, "start") {
        DaemonCommand::Start
    } else if str_equal(w, "stop") {
        DaemonCommand::Stop
    } else if str_equal(w, "restart") {
        DaemonCommand::Restart
    } else if str_equal(w, "-h") || str_equal(w, "--help") {
        DaemonCommand::Help
    } else {
        DaemonCommand::Unknown(args[0].clone())
    }
}

/// Why `verify`'s arguments were rejected.
#[derive(Debug, Clone, PartialEq, Eq)]
pub enum VerifyArgsError {
    /// `--config` was the last argument.
    MissingConfigPath,
    /// An argument other than `--config <path>`, as written.
    Unrecognized(String),
}

/// `VerifyArgsError`, taken by view.
pub enum VerifyArgsErrorView {
    MissingConfigPath,
    Unrecognized(Seq<char>),
}

impl View for VerifyArgsError {
    type V = VerifyArgsErrorView;

    open spec fn view(&self) -> VerifyArgsErrorView {
        match self {
            VerifyArgsError::MissingConfigPath => VerifyArgsErrorView::MissingConfigPath,
            VerifyArgsError::Unrecognized(s) => VerifyArgsErrorView::Unrecognized(s@),
        }
    }
}

/// What `verify`'s arguments `rest` give, starting from the config path
/// `acc`: each `--config <path>` replaces the path; anything else is
/// rejected.
pub open spec fn verify_args_outcome(rest: Seq<Seq<char>>, acc: Option<Seq<char>>) -> Result<
    Option<Seq<char>>,
    VerifyArgsErrorView,
>
    decreases rest.len(),
{
    if rest.len() == 0 {
        Ok(acc)
    } else if rest[0] == "--config"@ {
        if rest.len() < 2 {
            Err(VerifyArgsErrorView::MissingConfigPath)
        } else {
            verify_args_outcome(rest.skip(2), Some(rest[1]))
        }
    } else {
        Err(VerifyArgsErrorView::Unrecognized(rest[0]))
    }
}

/// The views of a list of strings.
pub open spec fn strings_view(v: Seq<String>) -> Seq<Seq<char>> {
    v.map_values(|s: String| s@)
}

/// Parses `verify [--config <path>]`: the config path given, if any.
pub fn parse_verify_args(args: &[String]) -> (r: Result<Option<String>, VerifyArgsError>)
    ensures
        match r {
            Ok(p) => verify_args_outcome(strings_view(args@), None) == Ok::<
                Option<Seq<char>>,
                VerifyArgsErrorView,
            >(
                match p {
                    Some(s) => Some(s@),
                    None => None,
                },
            ),
            Err(e) => verify_args_outcome(strings_view(args@), None) == Err::<
                Option<Seq<char>>,
                VerifyArgsErrorView,
            >(e@),
        },
{
    let ghost all = strings_view(args@);
    let mut path: Option<String> = None;
    let mut i: usize = 0;
    proof {
        assert(all.skip(0) =~= all);
    }
    while i < args.len()
        invariant
            i <= args@.len(),
            all == strings_view(args@),
            verify_args_outcome(all.skip(i as int), match path {
                Some(s) => Some(s@),
                None => None,
            }) == verify_args_outcome(all, None),
        decreases args@.len() - i,
    {
        let ghost rest = all.skip(i as int);
        if str_equal(args[i].as_str(), "--config") {
            if i + 1 >= args.len() {
                return Err(VerifyArgsError::MissingConfigPath);
            }
            proof {
                assert(rest.skip(2) =~= all.skip(i + 2));
            }
            path = Some(args[i + 1].clone());
            i = i + 2;
        } else {
            return Err(VerifyArgsError::Unrecognized(args[i].clone()));
        }
    }
    proof {
        assert(all.skip(i as int) =~= Seq::<Seq<char>>::empty());
    }
    Ok(path)
}

/// A config path the default lookup considers, and whether it exists.
#[derive(Debug, Clone)]
pub struct ConfigCandidate {
    pub path: String,
    pub exists: bool,
}

/// The default config paths under `home`, in lookup order.
pub open spec fn candidate_paths(home: Seq<char>) -> Seq<Seq<char>> {
    seq![
        join_path(home, ".config/hyperwm/config.toml"@),
        join_path(home, ".hyperwm/config.toml"@),
    ]
}

/// `~/.config/hyperwm/config.toml`, then `~/.hyperwm/config.toml`.
pub fn config_candidate_paths(home: &str) -> (r: Vec<String>)
    ensures
        strings_view(r@) == candidate_paths(home@),
{
    let mut r: Vec<String> = Vec::new();
    r.push(join(home, ".config/hyperwm/config.toml"));
    r.push(join(home, ".hyperwm/config.toml"));
    proof {
        assert(strings_view(r@) =~= candidate_paths(home@));
    }
    r
}

/// The path of the first candidate that exists, if any.
pub open spec fn first_existing(c: Seq<ConfigCandidate>) -> Option<Seq<char>>
    decreases c.len(),
{
    if c.len() == 0 {
        None
    } else if c[0].exists {
        Some(c[0].path@)
    } else {
        first_existing(c.drop_first())
    }
}

/// The config file the default lookup picks: the first candidate that
/// exists.
pub fn default_config_path(candidates: &[ConfigCandidate]) -> (r: Option<String>)
    ensures
        match first_existing(candidates@) {
            Some(p) => r matches Some(s) && s@ == p,
            None => r is None,
        },
{
    let mut i: usize = 0;
    proof {
        assert(candidates@.skip(0) =~= candidates@);
    }
    while i < candidates.len()
        invariant
            i <= candidates@.len(),
            first_existing(candidates@.skip(i as int)) == first_existing(candidates@),
        decreases candidates@.len() - i,
    {
        proof {
            assert(candidates@.skip(i as int).drop_first() =~= candidates@.skip(i + 1));
        }
        if candidates[i].exists {
            return Some(candidates[i].path.clone());
        }
        i = i + 1;
    }
    None
}

/// How `status` shows one config candidate.
#[derive(Debug, Clone, Copy, PartialEq, Eq, Structural)]
pub enum CandidateMark {
    /// The config that was loaded (or, with no daemon running, would be).
    Active,
    /// Exists, but not the one in play.
    Present,
    /// Doesn't exist.
    Absent,
}

/// The marks for `c`: with a loaded path, every candidate at that path is
/// active; without one, the first existing candidate is.
pub open spec fn candidate_marks(c: Seq<ConfigCandidate>, loaded: Option<Seq<char>>) -> Seq<
    CandidateMark,
>
    decreases c.len(),
{
    if c.len() == 0 {
        seq![]
    } else {
        let before = candidate_marks(c.drop_last(), loaded);
        let cand = c.last();
        let active = match loaded {
            Some(l) => l == cand.path@,
            None => !before.contains(CandidateMark::Active) && cand.exists,
        };
        before.push(
            if active {
                CandidateMark::Active
            } else if cand.exists {
                CandidateMark::Present
            } else {
                CandidateMark::Absent
            },
        )
    }
}

/// Marks each candidate for the `status` view.
pub fn mark_candidates(candidates: &[ConfigCandidate], loaded: Option<&str>) -> (r: Vec<
    CandidateMark,
>)
    ensures
        r@ == candidate_marks(candidates@, match loaded {
            Some(l) => Some(l@),
            None => None,
        }),
{
    let ghost lv = match loaded {
        Some(l) => Some(l@),
        None => None,
    };
    let mut marks: Vec<CandidateMark> = Vec::new();
    let mut marked = false;
    let mut i: usize = 0;
    while i < candidates.len()
        invariant
            i <= candidates@.len(),
            lv == (match loaded {
                Some(l) => Some(l@),
                None => None,
            }),
            marks@ == candidate_marks(candidates@.take(i as int), lv),
            marks@.len() == i,
            marked == marks@.contains(CandidateMark::Active),
        decreases candidates@.len() - i,
    {
        proof {
            assert(candidates@.take(i + 1).drop_last() =~= candidates@.take(i as int));
        }
        let c = &candidates[i];
        let active = match loaded {
            Some(l) => str_equal(l, c.path.as_str()),
            None => !marked && c.exists,
        };
        let m = if active {
            CandidateMark::Active
        } else if c.exists {
            CandidateMark::Present
        } else {
            CandidateMark::Absent
        };
        let ghost before = marks@;
        marks.push(m);
        if active {
            marked = true;
        }
        proof {
            if m == CandidateMark::Active {
                assert(marks@[i as int] == m);
            } else {
                if marks@.contains(CandidateMark::Active) {
                    let k = choose|k: int| 0 <= k < marks@.len() && marks@[k] == CandidateMark::Active;
                    assert(k != i);
                    assert(before[k] == marks@[k]);
                }
                if before.contains(CandidateMark::Active) {
                    let k = choose|k: int| 0 <= k < before.len() && before[k] == CandidateMark::Active;
                    assert(marks@[k] == before[k]);
                }
            }
        }
        i = i + 1;
    }
    proof {
        assert(candidates@.take(candidates@.len() as int) =~= candidates@);
    }
    marks
}

} // verus!
