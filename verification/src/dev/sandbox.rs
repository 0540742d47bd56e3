//! Offline sandbox driver: decisions of the interactive and scripted plugin test runner.
//!
//! The runner spawns one plugin host on an isolated endpoint and lets a developer call its
//! commands and tools. Processes, sockets and the terminal belong to the caller; reading the
//! developer's input, finding the plugin that declares a command and rendering replies are
//! decided here.
use vstd::prelude::*;

use crate::dev::lint::LintError;
use crate::message::{MediaSource, MessageSegment, PluginMeta, Segment};
use crate::supervisor::SupervisorError;
use crate::text::{chars_of, decimal, is_ws, owned, push_char, push_decimal, push_str, str_equal, strs, trim, words, split_words_str};

verus! {

/// Errors raised by the sandbox runner.
#[derive(Debug)]
pub enum SandboxError {
    /// The manifest could not be located.
    Lint(LintError),
    /// The host could not be supervised.
    Supervisor(SupervisorError),
    /// File I/O failed.
    Io(String),
    /// The host answered with an RPC error.
    Rpc(String),
    /// No plugin declares the command.
    CommandNotFound(String),
    /// No plugin declares the tool.
    ToolNotFound(String),
    /// Tool arguments are not valid JSON.
    Json(String),
}

/// Options of a sandbox run.
pub struct SandboxOptions {
    /// Command to execute (e.g. `pycalc` or `/pycalc`).
    pub command: Option<String>,
    /// Tool to invoke.
    pub tool: Option<String>,
    /// Arguments of the command or tool.
    pub args: Vec<String>,
    /// Whether to run without the interactive prompt.
    pub non_interactive: bool,
}

impl Default for SandboxOptions {
    /// No command, no tool, no arguments, interactive.
    fn default() -> (r: Self)
        ensures
            r.command is None,
            r.tool is None,
            r.args@.len() == 0,
            !r.non_interactive,
    {
        SandboxOptions { command: None, tool: None, args: Vec::new(), non_interactive: false }
    }
}

/// What a sandbox run does.
pub enum SandboxMode {
    /// Execute one command and stop.
    Command(String),
    /// Invoke one tool and stop.
    Tool(String),
    /// Only check that the host starts.
    Probe,
    /// Open the interactive prompt.
    Interactive,
}

/// Mode of a run: a command wins over a tool, which wins over a probe.
pub fn sandbox_mode(opts: &SandboxOptions) -> (r: SandboxMode)
    ensures
        opts.command matches Some(c) ==> (r matches SandboxMode::Command(x) && x == c),
        (opts.command is None && opts.tool is Some) ==> (r matches SandboxMode::Tool(x) && x == opts.tool->0),
        opts.command is None && opts.tool is None && opts.non_interactive ==> r is Probe,
        opts.command is None && opts.tool is None && !opts.non_interactive ==> r is Interactive,
{
    if let Some(c) = &opts.command {
        SandboxMode::Command(c.clone())
    } else if let Some(t) = &opts.tool {
        SandboxMode::Tool(t.clone())
    } else if opts.non_interactive {
        SandboxMode::Probe
    } else {
        SandboxMode::Interactive
    }
}

// ---------------------------------------------------------------------------------------------
// Rendering
// ---------------------------------------------------------------------------------------------

/// Rendering of a media reference of kind `kind` (`Image` or `Audio`).
pub open spec fn media_text(kind: Seq<char>, source: Option<MediaSource>) -> Seq<char> {
    match source {
        Some(MediaSource::Url(u)) => "["@ + kind + " URL: "@ + u@ + "]"@,
        Some(MediaSource::FilePath(p)) => "["@ + kind + " File: "@ + p@ + "]"@,
        Some(MediaSource::RawBytes(b)) => "["@ + kind + " Bytes: "@ + decimal(b@.len()) + "B]"@,
        None => "["@ + kind + "]"@,
    }
}

/// Rendering of one segment.
pub open spec fn segment_text(seg: MessageSegment) -> Seq<char> {
    match seg.segment {
        Some(Segment::Text { content }) => content@,
        Some(Segment::Image { source, .. }) => media_text("Image"@, source),
        Some(Segment::Audio { source, .. }) => media_text("Audio"@, source),
        Some(Segment::Mention { target_user_id, .. }) => "@"@ + target_user_id@,
        Some(Segment::Reply { target_message_id, snippet }) => "[Reply to "@ + target_message_id@ + ": "@ + snippet@ + "]"@,
        Some(Segment::Custom { custom_type }) => "[Custom: "@ + custom_type@ + "]"@,
        None => Seq::empty(),
    }
}

/// Rendering of a list of segments, concatenated.
pub open spec fn segments_text(segs: Seq<MessageSegment>) -> Seq<char>
    decreases segs.len(),
{
    if segs.len() == 0 {
        Seq::empty()
    } else {
        segments_text(segs.drop_last()) + segment_text(segs.last())
    }
}

fn push_media(out: &mut String, kind: &str, source: &Option<MediaSource>)
    ensures
        final(out)@ == old(out)@ + media_text(kind@, *source),
{
    push_str(out, "[");
    push_str(out, kind);
    match source {
        Some(MediaSource::Url(u)) => {
            push_str(out, " URL: ");
            push_str(out, u.as_str());
            push_str(out, "]");
        },
        Some(MediaSource::FilePath(p)) => {
            push_str(out, " File: ");
            push_str(out, p.as_str());
            push_str(out, "]");
        },
        Some(MediaSource::RawBytes(b)) => {
            push_str(out, " Bytes: ");
            push_decimal(out, b.len() as u64);
            push_str(out, "B]");
        },
        None => {
            push_str(out, "]");
        },
    }
    assert(final(out)@ =~= old(out)@ + media_text(kind@, *source));
}

/// Renders reply segments as one readable line.
pub fn format_segments(segments: &[MessageSegment]) -> (r: String)
    ensures
        r@ == segments_text(segments@),
{
    let mut out = String::new();
    for i in 0..segments.len()
        invariant
            out@ == segments_text(segments@.take(i as int)),
    {
        proof {
            assert(segments@.take(i + 1).drop_last() =~= segments@.take(i as int));
        }
        let ghost before = out@;
        match &segments[i].segment {
            Some(Segment::Text { content }) => push_str(&mut out, content.as_str()),
            Some(Segment::Image { source, .. }) => push_media(&mut out, "Image", source),
            Some(Segment::Audio { source, .. }) => push_media(&mut out, "Audio", source),
            Some(Segment::Mention { target_user_id, .. }) => {
                push_str(&mut out, "@");
                push_str(&mut out, target_user_id.as_str());
            },
            Some(Segment::Reply { target_message_id, snippet }) => {
                push_str(&mut out, "[Reply to ");
                push_str(&mut out, target_message_id.as_str());
                push_str(&mut out, ": ");
                push_str(&mut out, snippet.as_str());
                push_str(&mut out, "]");
            },
            Some(Segment::Custom { custom_type }) => {
                push_str(&mut out, "[Custom: ");
                push_str(&mut out, custom_type.as_str());
                push_str(&mut out, "]");
            },
            None => {},
        }
        assert(out@ =~= before + segment_text(segments@[i as int]));
    }
    assert(segments@.take(segments@.len() as int) =~= segments@);
    out
}

// ---------------------------------------------------------------------------------------------
// Interactive input
// ---------------------------------------------------------------------------------------------

/// One line typed at the sandbox prompt.
pub enum ReplInput {
    /// Nothing but whitespace.
    Empty,
    /// `exit`, `quit` or `/exit`.
    Exit,
    /// `help` or `/help`.
    Help,
    /// `/<command> [args...]`.
    Command {
        /// Command name without leading slashes.
        name: String,
        /// Whitespace-separated arguments.
        args: Vec<String>,
    },
    /// `call <tool> [json]`.
    ToolCall {
        /// Tool name.
        tool: String,
        /// JSON argument text (`{}` when absent).
        arguments: String,
    },
    /// Anything else.
    Unrecognized,
}

/// `s` without leading `/` characters.
pub open spec fn drop_slashes(s: Seq<char>) -> Seq<char>
    decreases s.len(),
{
    if s.len() > 0 && s[0] == '/' {
        drop_slashes(s.drop_first())
    } else {
        s
    }
}

/// `s` without any number of leading `call ` prefixes (`str::trim_start_matches("call ")`).
pub open spec fn drop_call_prefixes(s: Seq<char>) -> Seq<char>
    decreases s.len(),
{
    if s.len() >= 5 && s.take(5) == "call "@ {
        drop_call_prefixes(s.skip(5))
    } else {
        s
    }
}

/// Position of the first space of `s`, if any.
pub open spec fn first_space(s: Seq<char>) -> Option<int> {
    if exists|i: int| 0 <= i < s.len() && s[i] == ' ' {
        Some(choose|i: int| 0 <= i < s.len() && s[i] == ' ' && forall|j: int| 0 <= j < i ==> s[j] != ' ')
    } else {
        None
    }
}

/// Meaning of a prompt line.
pub open spec fn repl_meaning(line: Seq<char>) -> ReplInputModel {
    let t = trim(line);
    if t.len() == 0 {
        ReplInputModel::Empty
    } else if t == "exit"@ || t == "quit"@ || t == "/exit"@ {
        ReplInputModel::Exit
    } else if t == "help"@ || t == "/help"@ {
        ReplInputModel::Help
    } else if t[0] == '/' {
        let ws = words(t);
        ReplInputModel::Command { name: drop_slashes(ws[0]), args: ws.drop_first() }
    } else if "call "@.is_prefix_of(t) {
        let rest = trim(drop_call_prefixes(t));
        match first_space(rest) {
            Some(i) => ReplInputModel::ToolCall { tool: rest.take(i), arguments: rest.skip(i + 1) },
            None => ReplInputModel::ToolCall { tool: rest, arguments: "{}"@ },
        }
    } else {
        ReplInputModel::Unrecognized
    }
}

/// Mathematical form of [`ReplInput`].
pub enum ReplInputModel {
    Empty,
    Exit,
    Help,
    Command { name: Seq<char>, args: Seq<Seq<char>> },
    ToolCall { tool: Seq<char>, arguments: Seq<char> },
    Unrecognized,
}

/// Mathematical form of a parsed prompt line.
pub open spec fn repl_model(r: ReplInput) -> ReplInputModel {
    match r {
        ReplInput::Empty => ReplInputModel::Empty,
        ReplInput::Exit => ReplInputModel::Exit,
        ReplInput::Help => ReplInputModel::Help,
        ReplInput::Command { name, args } => ReplInputModel::Command { name: name@, args: strs(args@) },
        ReplInput::ToolCall { tool, arguments } => ReplInputModel::ToolCall { tool: tool@, arguments: arguments@ },
        ReplInput::Unrecognized => ReplInputModel::Unrecognized,
    }
}

fn drop_slashes_exec(s: &str) -> (r: String)
    ensures
        r@ == drop_slashes(s@),
{
    let v = chars_of(s);
    let n = v.len();
    let mut a: usize = 0;
    assert(v@.skip(0) =~= v@);
    while a < n && v[a] == '/'
        invariant
            a <= n == v@.len(),
            drop_slashes(v@.skip(a as int)) == drop_slashes(v@),
        decreases n - a,
    {
        assert(v@.skip(a as int).drop_first() =~= v@.skip(a + 1));
        a = a + 1;
    }
    assert(v@.subrange(a as int, n as int) =~= v@.skip(a as int));
    crate::text::string_of_range(v.as_slice(), a, n)
}

fn drop_call_exec(v: &Vec<char>) -> (r: usize)
    ensures
        r <= v@.len(),
        v@.skip(r as int) == drop_call_prefixes(v@),
{
    let p = chars_of("call ");
    proof {
        reveal_strlit("call ");
    }
    let n = v.len();
    let mut a: usize = 0;
    assert(v@.skip(0) =~= v@);
    while n - a >= 5 && v[a] == 'c' && v[a + 1] == 'a' && v[a + 2] == 'l' && v[a + 3] == 'l' && v[a + 4] == ' '
        invariant
            a <= n == v@.len(),
            drop_call_prefixes(v@.skip(a as int)) == drop_call_prefixes(v@),
        decreases n - a,
    {
        proof {
            reveal_strlit("call ");
            let s = v@.skip(a as int);
            assert(s.take(5) =~= "call "@);
            assert(s.skip(5) =~= v@.skip(a + 5));
        }
        a = a + 5;
    }
    proof {
        reveal_strlit("call ");
        let s = v@.skip(a as int);
        if s.len() >= 5 && s.take(5) == "call "@ {
            assert(s.take(5)[0] == 'c' && s.take(5)[1] == 'a' && s.take(5)[2] == 'l' && s.take(5)[3] == 'l' && s.take(5)[4] == ' ');
            assert(s[0] == 'c' && s[1] == 'a' && s[2] == 'l' && s[3] == 'l' && s[4] == ' ');
            assert(false);
        }
    }
    a
}

/// Reads a line typed at the sandbox prompt.
pub fn parse_repl_line(line: &str) -> (r: ReplInput)
    ensures
        repl_model(r) == repl_meaning(line@),
{
    proof {
        reveal_strlit("exit");
        reveal_strlit("quit");
        reveal_strlit("/exit");
        reveal_strlit("help");
        reveal_strlit("/help");
        reveal_strlit("call ");
        reveal_strlit("{}");
    }
    let t = crate::text::trimmed(line);
    let ts = t.as_str();
    if ts.is_empty() {
        return ReplInput::Empty;
    }
    if str_equal(ts, "exit") || str_equal(ts, "quit") || str_equal(ts, "/exit") {
        return ReplInput::Exit;
    }
    if str_equal(ts, "help") || str_equal(ts, "/help") {
        return ReplInput::Help;
    }
    let v = chars_of(ts);
    if v[0] == '/' {
        let mut ws = split_words_str(ts);
        proof {
            crate::text::lemma_words_nonempty(t@);
        }
        let ghost all = strs(ws@);
        let first = ws.remove(0);
        assert(strs(ws@) =~= all.drop_first());
        let name = drop_slashes_exec(first.as_str());
        return ReplInput::Command { name, args: ws };
    }
    let p = chars_of("call ");
    if crate::text::starts_with_chars(v.as_slice(), p.as_slice()) {
        assert(v@.take(5) =~= "call "@);
        let a = drop_call_exec(&v);
        let rest0 = crate::text::string_of_range(v.as_slice(), a, v.len());
        assert(rest0@ =~= v@.skip(a as int));
        let rest = crate::text::trimmed(rest0.as_str());
        let rv = chars_of(rest.as_str());
        let mut i: usize = 0;
        while i < rv.len() && rv[i] != ' '
            invariant
                i <= rv@.len(),
                forall|j: int| 0 <= j < i ==> rv@[j] != ' ',
            decreases rv@.len() - i,
        {
            i = i + 1;
        }
        if i < rv.len() {
            proof {
                let k = choose|k: int| 0 <= k < rv@.len() && rv@[k] == ' ' && forall|j: int| 0 <= j < k ==> rv@[j] != ' ';
                if k < i {
                    assert(rv@[k] != ' ');
                }
                if i < k {
                    assert(rv@[i as int] != ' ');
                }
                assert(first_space(rv@) == Some(i as int));
            }
            let tool = crate::text::string_of_range(rv.as_slice(), 0, i);
            let arguments = crate::text::string_of_range(rv.as_slice(), i + 1, rv.len());
            assert(tool@ =~= rv@.take(i as int));
            assert(arguments@ =~= rv@.skip(i + 1));
            return ReplInput::ToolCall { tool, arguments };
        } else {
            return ReplInput::ToolCall { tool: rest, arguments: owned("{}") };
        }
    }
    ReplInput::Unrecognized
}

// ---------------------------------------------------------------------------------------------
// Commands and tools
// ---------------------------------------------------------------------------------------------

/// Whether plugin `p` declares command `name`.
pub open spec fn declares_command(p: PluginMeta, name: Seq<char>) -> bool {
    exists|j: int| 0 <= j < p.commands@.len() && (#[trigger] p.commands@[j]).name@ == name
}

/// Whether plugin `p` declares tool `name`.
pub open spec fn declares_tool(p: PluginMeta, name: Seq<char>) -> bool {
    exists|j: int| 0 <= j < p.tools@.len() && (#[trigger] p.tools@[j]).name@ == name
}

fn plugin_declares_command(p: &PluginMeta, name: &str) -> (r: bool)
    ensures
        r == declares_command(*p, name@),
{
    for j in 0..p.commands.len()
        invariant
            forall|k: int| 0 <= k < j ==> p.commands@[k].name@ != name@,
    {
        if str_equal(p.commands[j].name.as_str(), name) {
            return true;
        }
    }
    false
}

/// Finds the plugin declaring `command` (leading `/` ignored): the first in `meta`, with the
/// cleaned command name.
pub fn command_plugin(meta: &[PluginMeta], command: &str) -> (r: Result<(String, String), SandboxError>)
    ensures
        ({
            let clean = drop_slashes(command@);
            &&& (exists|i: int| 0 <= i < meta@.len() && declares_command(#[trigger] meta@[i], clean)) ==>
                (r matches Ok((plugin_id, name)) && name@ == clean && exists|i: int| 0 <= i < meta@.len()
                    && declares_command(#[trigger] meta@[i], clean) && meta@[i].id@ == plugin_id@
                    && forall|k: int| 0 <= k < i ==> !declares_command(meta@[k], clean))
            &&& !(exists|i: int| 0 <= i < meta@.len() && declares_command(#[trigger] meta@[i], clean)) ==>
                (r matches Err(SandboxError::CommandNotFound(n)) && n@ == clean)
        }),
{
    let clean = drop_slashes_exec(command);
    for i in 0..meta.len()
        invariant
            clean@ == drop_slashes(command@),
            forall|k: int| 0 <= k < i ==> !declares_command(#[trigger] meta@[k], clean@),
    {
        if plugin_declares_command(&meta[i], clean.as_str()) {
            return Ok((meta[i].id.clone(), clean));
        }
    }
    Err(SandboxError::CommandNotFound(clean))
}

/// Checks that some plugin declares tool `tool`.
pub fn check_tool_declared(meta: &[PluginMeta], tool: &str) -> (r: Result<(), SandboxError>)
    ensures
        (exists|i: int| 0 <= i < meta@.len() && declares_tool(#[trigger] meta@[i], tool@)) ==> r is Ok,
        !(exists|i: int| 0 <= i < meta@.len() && declares_tool(#[trigger] meta@[i], tool@)) ==>
            (r matches Err(SandboxError::ToolNotFound(n)) && n@ == tool@),
{
    for i in 0..meta.len()
        invariant
            forall|k: int| 0 <= k < i ==> !declares_tool(#[trigger] meta@[k], tool@),
    {
        let p = &meta[i];
        for j in 0..p.tools.len()
            invariant
                *p == meta@[i as int],
                i < meta@.len(),
                forall|k: int| 0 <= k < j ==> p.tools@[k].name@ != tool@,
        {
            if str_equal(p.tools[j].name.as_str(), tool) {
                assert(declares_tool(meta@[i as int], tool@));
                return Ok(());
            }
        }
    }
    Err(SandboxError::ToolNotFound(owned(tool)))
}

/// `parts` joined with single spaces.
pub open spec fn join_spaces(parts: Seq<Seq<char>>) -> Seq<char>
    decreases parts.len(),
{
    if parts.len() == 0 {
        Seq::empty()
    } else if parts.len() == 1 {
        parts[0]
    } else {
        join_spaces(parts.drop_last()) + " "@ + parts.last()
    }
}

/// JSON text of a tool call's arguments: the arguments joined with spaces, or `None` (an empty
/// object) when that is blank.
pub fn tool_arguments(args: &[String]) -> (r: Option<String>)
    ensures
        trim(join_spaces(strs(args@))).len() == 0 ==> r is None,
        trim(join_spaces(strs(args@))).len() > 0 ==> (r matches Some(t) && t@ == join_spaces(strs(args@))),
{
    let mut joined = String::new();
    for i in 0..args.len()
        invariant
            joined@ == join_spaces(strs(args@.take(i as int))),
    {
        let ghost j0 = joined@;
        if i > 0 {
            push_char(&mut joined, ' ');
        }
        push_str(&mut joined, args[i].as_str());
        proof {
            reveal_strlit(" ");
            let ps = strs(args@.take(i + 1));
            assert(ps.drop_last() =~= strs(args@.take(i as int)));
            assert(ps.last() == args@[i as int]@);
            assert(joined@ =~= join_spaces(ps));
        }
    }
    assert(args@.take(args@.len() as int) =~= args@);
    let t = crate::text::trimmed(joined.as_str());
    if t.as_str().is_empty() {
        None
    } else {
        Some(joined)
    }
}

/// Identifier of a sandbox tool call made at `unix_millis`.
pub fn sandbox_call_id(unix_millis: u64) -> (r: String)
    ensures
        r@ == "test_call_"@ + decimal(unix_millis as nat),
{
    let mut r = owned("test_call_");
    push_decimal(&mut r, unix_millis);
    r
}

} // verus!
