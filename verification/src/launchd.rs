//! hyperwm's `launchd` user agents -- the daemon itself and the Caps Lock
//! remap's persistence agent: the `launchctl` command lines that address a
//! job by its `gui/<uid>/<label>` domain target, reading a job's state from
//! `launchctl print`, the decisions `daemon start|stop|restart` and
//! `install-keymap` make from that state, and the agent's plist.
use crate::config::{join, join_path};
use crate::text::{
    chars_of, joined, join_strings, owned, push_str, split_chars, split_on, trim, trimmed,
    chars_equal,
};
use vstd::prelude::*;

verus! {

/// The `gui/<uid>/<label>` domain target a job is addressed by.
pub open spec fn domain_target_text(uid: Seq<char>, label: Seq<char>) -> Seq<char> {
    "gui/"@ + uid + "/"@ + label
}

/// `gui/<uid>/<label>`.
pub fn domain_target(uid: &str, label: &str) -> (r: String)
    ensures
        r@ == domain_target_text(uid@, label@),
{
    let mut r = owned("gui/");
    push_str(&mut r, uid);
    push_str(&mut r, "/");
    push_str(&mut r, label);
    r
}

/// A bootstrapped job's state.
#[derive(Debug, Clone, Copy, PartialEq, Eq, Structural)]
pub enum JobState {
    /// Bootstrapped but not currently running.
    Loaded,
    Running,
}

/// Some line of `text`, once trimmed, reads `state = running`.
pub open spec fn reports_running(text: Seq<char>) -> bool {
    exists|i: int|
        0 <= i < split_on(text, '\n').len() && trim(#[trigger] split_on(text, '\n')[i])
            == "state = running"@
}

/// The job state `launchctl print gui/<uid>/<label>` reports: `None` when it
/// failed (the label is not bootstrapped at all), else running exactly when
/// some line of its output reads `state = running`.
pub open spec fn job_state_of(succeeded: bool, stdout: Seq<char>) -> Option<JobState> {
    if !succeeded {
        None
    } else if reports_running(stdout) {
        Some(JobState::Running)
    } else {
        Some(JobState::Loaded)
    }
}

/// Reads a job's state from `launchctl print`'s exit status and output.
pub fn job_state(succeeded: bool, stdout: &str) -> (r: Option<JobState>)
    ensures
        r == job_state_of(succeeded, stdout@),
{
    if !succeeded {
        return None;
    }
    let cs = chars_of(stdout);
    let lines = split_chars(&cs, '\n');
    let ghost pieces = split_on(stdout@, '\n');
    let mut i: usize = 0;
    while i < lines.len()
        invariant
            succeeded,
            i <= lines@.len(),
            crate::text::views(lines@) == pieces,
            pieces == split_on(stdout@, '\n'),
            forall|j: int| 0 <= j < i ==> trim(#[trigger] pieces[j]) != "state = running"@,
        decreases lines@.len() - i,
    {
        let t = trimmed(&lines[i]);
        proof {
            assert(pieces[i as int] == lines@[i as int]@);
        }
        if chars_equal(&t, "state = running") {
            proof {
                assert(pieces.len() == lines@.len());
                assert(trim(split_on(stdout@, '\n')[i as int]) == "state = running"@);
            }
            return Some(JobState::Running);
        }
        i = i + 1;
    }
    Some(JobState::Loaded)
}

/// Whether the job is bootstrapped at all (running or not).
pub fn is_bootstrapped(state: Option<JobState>) -> (r: bool)
    ensures
        r == state is Some,
{
    state.is_some()
}

/// Whether the job is bootstrapped and running.
pub fn is_running(state: Option<JobState>) -> (r: bool)
    ensures
        r == (state == Some(JobState::Running)),
{
    match state {
        Some(JobState::Running) => true,
        _ => false,
    }
}

/// What to do to a job through `launchctl`.
#[derive(Debug, Clone, Copy, PartialEq, Eq, Structural)]
pub enum LaunchStep {
    /// Nothing: the job is already where it should be.
    Nothing,
    /// Register the job from its plist (and start it, if the plist says so).
    Bootstrap,
    /// (Re)start the already-bootstrapped job; `kill_first` kills a running
    /// instance first.
    Kickstart { kill_first: bool },
    /// Unload the job, stopping it if running.
    Bootout,
}

/// `daemon start`, once the daemon is known not to be running: a job that is
/// bootstrapped but dead needs a kickstart, a job that is not bootstrapped a
/// bootstrap.
pub fn start_stopped_daemon(bootstrapped: bool) -> (s: LaunchStep)
    ensures
        s == (if bootstrapped {
            LaunchStep::Kickstart { kill_first: false }
        } else {
            LaunchStep::Bootstrap
        }),
{
    if bootstrapped {
        LaunchStep::Kickstart { kill_first: false }
    } else {
        LaunchStep::Bootstrap
    }
}

/// `daemon start`: nothing when the daemon already runs.
pub fn start_step(state: Option<JobState>) -> (s: LaunchStep)
    ensures
        s == (match state {
            Some(JobState::Running) => LaunchStep::Nothing,
            Some(JobState::Loaded) => LaunchStep::Kickstart { kill_first: false },
            None => LaunchStep::Bootstrap,
        }),
{
    if is_running(state) {
        LaunchStep::Nothing
    } else {
        start_stopped_daemon(is_bootstrapped(state))
    }
}

/// `daemon stop`: unload a bootstrapped job; nothing otherwise.
pub fn stop_step(state: Option<JobState>) -> (s: LaunchStep)
    ensures
        s == (if state is Some {
            LaunchStep::Bootout
        } else {
            LaunchStep::Nothing
        }),
{
    if is_bootstrapped(state) {
        LaunchStep::Bootout
    } else {
        LaunchStep::Nothing
    }
}

/// `daemon restart` and `install-keymap`: always a fresh process -- kill and
/// restart a bootstrapped job, bootstrap one that is not.
pub fn restart_inner(bootstrapped: bool) -> (s: LaunchStep)
    ensures
        s == (if bootstrapped {
            LaunchStep::Kickstart { kill_first: true }
        } else {
            LaunchStep::Bootstrap
        }),
{
    if bootstrapped {
        LaunchStep::Kickstart { kill_first: true }
    } else {
        LaunchStep::Bootstrap
    }
}

/// The views of a list of strings.
pub open spec fn args_view(v: Seq<String>) -> Seq<Seq<char>> {
    v.map_values(|s: String| s@)
}

/// `launchctl bootstrap gui/<uid> <plist_path>`'s arguments.
pub fn bootstrap(uid: &str, plist_path: &str) -> (args: Vec<String>)
    ensures
        args_view(args@) == seq!["bootstrap"@, "gui/"@ + uid@, plist_path@],
{
    let mut target = owned("gui/");
    push_str(&mut target, uid);
    let mut args: Vec<String> = Vec::new();
    args.push(owned("bootstrap"));
    args.push(target);
    args.push(owned(plist_path));
    proof {
        assert(args_view(args@) =~= seq!["bootstrap"@, "gui/"@ + uid@, plist_path@]);
    }
    args
}

/// `launchctl bootout gui/<uid>/<label>`'s arguments.
pub fn bootout(uid: &str, label: &str) -> (args: Vec<String>)
    ensures
        args_view(args@) == seq!["bootout"@, domain_target_text(uid@, label@)],
{
    let mut args: Vec<String> = Vec::new();
    args.push(owned("bootout"));
    args.push(domain_target(uid, label));
    proof {
        assert(args_view(args@) =~= seq!["bootout"@, domain_target_text(uid@, label@)]);
    }
    args
}

/// `launchctl kickstart [-k] gui/<uid>/<label>`'s arguments; `-k` when
/// `kill_first`.
pub fn kickstart(uid: &str, label: &str, kill_first: bool) -> (args: Vec<String>)
    ensures
        args_view(args@) == (if kill_first {
            seq!["kickstart"@, "-k"@, domain_target_text(uid@, label@)]
        } else {
            seq!["kickstart"@, domain_target_text(uid@, label@)]
        }),
{
    let mut args: Vec<String> = Vec::new();
    args.push(owned("kickstart"));
    if kill_first {
        args.push(owned("-k"));
    }
    args.push(domain_target(uid, label));
    proof {
        if kill_first {
            assert(args_view(args@) =~= seq![
                "kickstart"@,
                "-k"@,
                domain_target_text(uid@, label@),
            ]);
        } else {
            assert(args_view(args@) =~= seq!["kickstart"@, domain_target_text(uid@, label@)]);
        }
    }
    args
}

/// `launchctl print gui/<uid>/<label>`'s arguments.
pub fn print_args(uid: &str, label: &str) -> (args: Vec<String>)
    ensures
        args_view(args@) == seq!["print"@, domain_target_text(uid@, label@)],
{
    let mut args: Vec<String> = Vec::new();
    args.push(owned("print"));
    args.push(domain_target(uid, label));
    proof {
        assert(args_view(args@) =~= seq!["print"@, domain_target_text(uid@, label@)]);
    }
    args
}

/// The message for a `launchctl` invocation that exited unsuccessfully.
pub open spec fn launchctl_failure_text(args: Seq<Seq<char>>, label: Seq<char>, stderr: Seq<char>) -> Seq<
    char,
> {
    "launchctl "@ + joined(args, " "@) + " failed for "@ + label + ": "@ + trim(stderr)
}

/// `launchctl <args> failed for <label>: <stderr, trimmed>`.
pub fn launchctl_failure(args: &[String], label: &str, stderr: &str) -> (r: String)
    ensures
        r@ == launchctl_failure_text(args_view(args@), label@, stderr@),
{
    let mut r = owned("launchctl ");
    let j = join_strings(args, " ");
    push_str(&mut r, j.as_str());
    push_str(&mut r, " failed for ");
    push_str(&mut r, label);
    push_str(&mut r, ": ");
    let t = trimmed(&chars_of(stderr));
    let ts = crate::text::string_of(&t);
    push_str(&mut r, ts.as_str());
    proof {
        assert(args@.map_values(|s: String| s@) == args_view(args@));
    }
    r
}

/// `~/Library/LaunchAgents/<label>.plist`.
pub open spec fn plist_path_text(home: Seq<char>, label: Seq<char>) -> Seq<char> {
    join_path(join_path(home, "Library/LaunchAgents"@), label + ".plist"@)
}

/// The per-user agent plist for `label` under `home`.
pub fn plist_path(home: &str, label: &str) -> (r: String)
    ensures
        r@ == plist_path_text(home@, label@),
{
    let dir = join(home, "Library/LaunchAgents");
    let mut file = owned(label);
    push_str(&mut file, ".plist");
    join(dir.as_str(), file.as_str())
}

/// What a character becomes in XML text.
pub open spec fn xml_escape_char(c: char) -> Seq<char> {
    if c == '&' {
        "&amp;"@
    } else if c == '<' {
        "&lt;"@
    } else if c == '>' {
        "&gt;"@
    } else if c == '"' {
        "&quot;"@
    } else {
        seq![c]
    }
}

/// `s` with `&`, `<`, `>` and `"` replaced by their XML entities.
pub open spec fn xml_escaped(s: Seq<char>) -> Seq<char>
    decreases s.len(),
{
    if s.len() == 0 {
        seq![]
    } else {
        xml_escaped(s.drop_last()) + xml_escape_char(s.last())
    }
}

/// Escapes `raw` for XML text.
pub fn xml_escape(raw: &str) -> (r: String)
    ensures
        r@ == xml_escaped(raw@),
{
    let cs = chars_of(raw);
    let mut r = String::new();
    let mut i: usize = 0;
    while i < cs.len()
        invariant
            i <= cs@.len(),
            cs@ == raw@,
            r@ == xml_escaped(cs@.take(i as int)),
        decreases cs@.len() - i,
    {
        proof {
            assert(cs@.take(i + 1).drop_last() =~= cs@.take(i as int));
        }
        let c = cs[i];
        if c == '&' {
            push_str(&mut r, "&amp;");
        } else if c == '<' {
            push_str(&mut r, "&lt;");
        } else if c == '>' {
            push_str(&mut r, "&gt;");
        } else if c == '"' {
            push_str(&mut r, "&quot;");
        } else {
            crate::text::push_char(&mut r, c);
        }
        i = i + 1;
    }
    proof {
        assert(cs@.take(cs@.len() as int) =~= cs@);
    }
    r
}

/// The `<string>` lines of the program arguments.
pub open spec fn args_xml(args: Seq<Seq<char>>) -> Seq<char>
    decreases args.len(),
{
    if args.len() == 0 {
        seq![]
    } else {
        args_xml(args.drop_last()) + "        <string>"@ + xml_escaped(args.last())
            + "</string>\n"@
    }
}

/// The agent plist for `label` running `program_args` (the first being the
/// executable). The label is written as given; the arguments and log paths
/// are escaped.
pub open spec fn plist_text(
    label: Seq<char>,
    program_args: Seq<Seq<char>>,
    run_at_load: bool,
    stdout_path: Seq<char>,
    stderr_path: Seq<char>,
) -> Seq<char> {
    "<?xml version=\"1.0\" encoding=\"UTF-8\"?>\n<!DOCTYPE plist PUBLIC \"-//Apple//DTD PLIST 1.0//EN\" \"http://www.apple.com/DTDs/PropertyList-1.0.dtd\">\n<plist version=\"1.0\">\n<dict>\n    <key>Label</key>\n    <string>"@
        + label + "</string>\n    <key>ProgramArguments</key>\n    <array>\n"@ + args_xml(
        program_args,
    ) + "    </array>\n    <key>RunAtLoad</key>\n    <"@ + (if run_at_load {
        "true"@
    } else {
        "false"@
    }) + "/>\n    <key>StandardOutPath</key>\n    <string>"@ + xml_escaped(stdout_path)
        + "</string>\n    <key>StandardErrorPath</key>\n    <string>"@ + xml_escaped(stderr_path)
        + "</string>\n</dict>\n</plist>\n"@
}

/// The text of the agent plist (see `plist_text`).
pub fn plist_xml(
    label: &str,
    program_args: &[String],
    run_at_load: bool,
    stdout_path: &str,
    stderr_path: &str,
) -> (r: String)
    ensures
        r@ == plist_text(label@, args_view(program_args@), run_at_load, stdout_path@, stderr_path@),
{
    let ghost av = args_view(program_args@);
    let mut r = owned(
        "<?xml version=\"1.0\" encoding=\"UTF-8\"?>\n<!DOCTYPE plist PUBLIC \"-//Apple//DTD PLIST 1.0//EN\" \"http://www.apple.com/DTDs/PropertyList-1.0.dtd\">\n<plist version=\"1.0\">\n<dict>\n    <key>Label</key>\n    <string>",
    );
    push_str(&mut r, label);
    push_str(&mut r, "</string>\n    <key>ProgramArguments</key>\n    <array>\n");
    let ghost head = r@;
    let mut i: usize = 0;
    while i < program_args.len()
        invariant
            i <= program_args@.len(),
            av == args_view(program_args@),
            r@ == head + args_xml(av.take(i as int)),
        decreases program_args@.len() - i,
    {
        proof {
            assert(av.take(i + 1).drop_last() =~= av.take(i as int));
            assert(av.take(i + 1).last() == program_args@[i as int]@);
        }
        push_str(&mut r, "        <string>");
        let e = xml_escape(program_args[i].as_str());
        push_str(&mut r, e.as_str());
        push_str(&mut r, "</string>\n");
        i = i + 1;
    }
    proof {
        assert(av.take(program_args@.len() as int) =~= av);
    }
    push_str(&mut r, "    </array>\n    <key>RunAtLoad</key>\n    <");
    if run_at_load {
        push_str(&mut r, "true");
    } else {
        push_str(&mut r, "false");
    }
    push_str(&mut r, "/>\n    <key>StandardOutPath</key>\n    <string>");
    let o = xml_escape(stdout_path);
    push_str(&mut r, o.as_str());
    push_str(&mut r, "</string>\n    <key>StandardErrorPath</key>\n    <string>");
    let e = xml_escape(stderr_path);
    push_str(&mut r, e.as_str());
    push_str(&mut r, "</string>\n</dict>\n</plist>\n");
    proof {
        assert(r@ =~= plist_text(label@, av, run_at_load, stdout_path@, stderr_path@));
    }
    r
}

/// `RunAtLoad` says what `run_at_load` asks: the plists written with
/// `true` and with `false` are the same text except for the value after the
/// `RunAtLoad` key, which is `<true/>` in the first and `<false/>` in the
/// second.
pub proof fn law_plist_run_at_load(
    label: Seq<char>,
    program_args: Seq<Seq<char>>,
    stdout_path: Seq<char>,
    stderr_path: Seq<char>,
)
    ensures
        exists|p: Seq<char>, q: Seq<char>|
            #![trigger p + "true"@ + q, p + "false"@ + q]
            {
                &&& p.len() >= 26
                &&& p.subrange(p.len() - 26, p.len() as int) == "<key>RunAtLoad</key>\n    <"@
                &&& q.len() >= 2
                &&& q.subrange(0, 2) == "/>"@
                &&& plist_text(label, program_args, true, stdout_path, stderr_path) == p + "true"@ + q
                &&& plist_text(label, program_args, false, stdout_path, stderr_path) == p + "false"@
                    + q
            },
{
    let head = "<?xml version=\"1.0\" encoding=\"UTF-8\"?>\n<!DOCTYPE plist PUBLIC \"-//Apple//DTD PLIST 1.0//EN\" \"http://www.apple.com/DTDs/PropertyList-1.0.dtd\">\n<plist version=\"1.0\">\n<dict>\n    <key>Label</key>\n    <string>"@
        + label + "</string>\n    <key>ProgramArguments</key>\n    <array>\n"@ + args_xml(
        program_args,
    ) + "    </array>\n    <key>RunAtLoad</key>\n    <"@;
    let mid = "/>\n    <key>StandardOutPath</key>\n    <string>"@;
    let tail = mid + xml_escaped(stdout_path)
        + "</string>\n    <key>StandardErrorPath</key>\n    <string>"@ + xml_escaped(stderr_path)
        + "</string>\n</dict>\n</plist>\n"@;
    let key = "    </array>\n    <key>RunAtLoad</key>\n    <"@;
    reveal_strlit("    </array>\n    <key>RunAtLoad</key>\n    <");
    reveal_strlit("<key>RunAtLoad</key>\n    <");
    reveal_strlit("/>\n    <key>StandardOutPath</key>\n    <string>");
    reveal_strlit("/>");
    assert(head.subrange(head.len() - 26, head.len() as int) =~= "<key>RunAtLoad</key>\n    <"@);
    assert(tail.subrange(0, 2) =~= "/>"@);
    assert(plist_text(label, program_args, true, stdout_path, stderr_path) =~= head + "true"@
        + tail);
    assert(plist_text(label, program_args, false, stdout_path, stderr_path) =~= head + "false"@
        + tail);
}

} // verus!
