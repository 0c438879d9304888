//! The line protocol through which other programs talk to the status bar, and
//! the plugin state it updates.
//!
//! A message holds one command per line, `zjstatus::<command>::<args>`:
//!
//! - `zjstatus::rerun::<name>` marks the command `<name>` as due to run again;
//! - `zjstatus::notify::<message>` shows a notification;
//! - `zjstatus::pipe::<name>::<content>` stores `<content>` under `<name>`;
//! - `zjstatus::claude_status::<pane id>::<icon>` sets (or, with an empty icon,
//!   clears) the status icon of a pane and queues the change for the shared
//!   per-session icon file.

use std::collections::BTreeMap;

use vstd::prelude::*;

use crate::clock::{day_before_stamp, day_before_text, now_millis};
use crate::decimal::{parse_u32, parse_u32_text};
use crate::icons::{apply_status, icon_texts, status_update};
use crate::named::NamedMap;
use crate::text::{chars_eq, chars_of, split_char, split_chars, split_pair, split_pairs, string_from_chars, views};

verus! {

/// Which parts of the bar must be redrawn after an update.
pub enum UpdateEventMask {
    Always,
    Mode,
    Tab,
    Command,
    Session,
    Nothing,
}

impl UpdateEventMask {
    /// The bit pattern of the mask.
    pub open spec fn mask_bits(self) -> u8 {
        match self {
            UpdateEventMask::Always => 0x80,
            UpdateEventMask::Mode => 0x01,
            UpdateEventMask::Tab => 0x03,
            UpdateEventMask::Command => 0x04,
            UpdateEventMask::Session => 0x08,
            UpdateEventMask::Nothing => 0x00,
        }
    }

    /// The bit pattern of the mask.
    pub fn bits(&self) -> (b: u8)
        ensures
            b == self.mask_bits(),
    {
        match self {
            UpdateEventMask::Always => 0x80,
            UpdateEventMask::Mode => 0x01,
            UpdateEventMask::Tab => 0x03,
            UpdateEventMask::Command => 0x04,
            UpdateEventMask::Session => 0x08,
            UpdateEventMask::Nothing => 0x00,
        }
    }
}

/// The texts of a map whose values are strings.
pub open spec fn texts(m: Map<Seq<char>, String>) -> Map<Seq<char>, Seq<char>> {
    m.map_values(|s: String| s@)
}

/// The last result of a configured command, with its context values.
pub struct CommandResult {
    pub exit_code: Option<i32>,
    pub stdout: String,
    pub stderr: String,
    pub context: NamedMap<String>,
}

/// The contents of a `CommandResult`.
pub struct CommandView {
    pub exit_code: Option<i32>,
    pub stdout: Seq<char>,
    pub stderr: Seq<char>,
    pub context: Map<Seq<char>, Seq<char>>,
}

impl View for CommandResult {
    type V = CommandView;

    open spec fn view(&self) -> CommandView {
        CommandView {
            exit_code: self.exit_code,
            stdout: self.stdout@,
            stderr: self.stderr@,
            context: texts(self.context@),
        }
    }
}

/// A notification to show, with the time it arrived (milliseconds since the
/// Unix epoch).
pub struct Message {
    pub body: String,
    pub received_at_millis: i64,
}

/// A pane's status change still to be mirrored to its session's icon file.
pub struct IconWrite {
    pub session: String,
    pub pane_id: u32,
    pub value: String,
}

/// The plugin state that the line protocol reads and updates.
pub struct ZellijState {
    /// The last result of each configured command, by command name.
    pub command_results: NamedMap<CommandResult>,
    /// The contents received through `pipe` commands, by name.
    pub pipe_results: NamedMap<String>,
    /// The status icon of each pane, by pane id.
    pub claude_icons: BTreeMap<u32, String>,
    /// The name of the current session, once known.
    pub session_name: Option<String>,
    /// The parts of the bar to redraw.
    pub cache_mask: u8,
    /// The notification to show, if any.
    pub incoming_notification: Option<Message>,
    /// Pane status changes still to be written to the session's icon file, in
    /// the order they were made; whoever owns the files drains this queue.
    pub icon_writes: Vec<IconWrite>,
}

/// The contents of a `ZellijState`.
pub struct StateView {
    pub commands: Map<Seq<char>, CommandView>,
    pub pipes: Map<Seq<char>, Seq<char>>,
    pub icons: Map<u32, Seq<char>>,
    pub session: Option<Seq<char>>,
    pub cache_mask: u8,
    pub notification: Option<(Seq<char>, i64)>,
    pub writes: Seq<(Seq<char>, u32, Seq<char>)>,
}

impl View for ZellijState {
    type V = StateView;

    open spec fn view(&self) -> StateView {
        StateView {
            commands: self.command_results@.map_values(|c: CommandResult| c@),
            pipes: texts(self.pipe_results@),
            icons: icon_texts(self.claude_icons@),
            session: match self.session_name {
                Some(s) => Some(s@),
                None => None,
            },
            cache_mask: self.cache_mask,
            notification: match self.incoming_notification {
                Some(m) => Some((m.body@, m.received_at_millis)),
                None => None,
            },
            writes: self.icon_writes@.map_values(|w: IconWrite| (w.session@, w.pane_id, w.value@)),
        }
    }
}

impl Default for ZellijState {
    fn default() -> (s: Self)
        ensures
            s@ == (StateView {
                commands: Map::empty(),
                pipes: Map::empty(),
                icons: Map::empty(),
                session: None,
                cache_mask: 0,
                notification: None,
                writes: Seq::empty(),
            }),
    {
        let s = ZellijState {
            command_results: NamedMap::new(),
            pipe_results: NamedMap::new(),
            claude_icons: BTreeMap::new(),
            session_name: None,
            cache_mask: 0,
            incoming_notification: None,
            icon_writes: Vec::new(),
        };
        assert(s@.commands =~= Map::<Seq<char>, CommandView>::empty());
        assert(s@.pipes =~= Map::<Seq<char>, Seq<char>>::empty());
        assert(s@.icons =~= Map::<u32, Seq<char>>::empty());
        assert(s@.writes =~= Seq::<(Seq<char>, u32, Seq<char>)>::empty());
        s
    }
}

/// The name of the context value that a rerun request refreshes.
pub const TIMESTAMP_KEY: &'static str = "timestamp";

/// `s` after a rerun request for `name` at the instant `now_millis`: when a
/// command of that name has a result, its `timestamp` context value becomes the
/// time one day before `now_millis`, so that the command is due again.
pub open spec fn rerun_effect(s: StateView, name: Seq<char>, now_millis: i64) -> StateView {
    if s.commands.contains_key(name) {
        let c = s.commands[name];
        StateView {
            commands: s.commands.insert(
                name,
                CommandView {
                    context: c.context.insert(TIMESTAMP_KEY@, day_before_stamp(now_millis)),
                    ..c
                },
            ),
            ..s
        }
    } else {
        s
    }
}

/// `s` after a notification `body` arrived at `now_millis`.
pub open spec fn notify_effect(s: StateView, body: Seq<char>, now_millis: i64) -> StateView {
    StateView { notification: Some((body, now_millis)), ..s }
}

/// `s` after `content` was stored under `name`.
pub open spec fn pipe_effect(s: StateView, name: Seq<char>, content: Seq<char>) -> StateView {
    StateView { pipes: s.pipes.insert(name, content), ..s }
}

/// `s` after a status change `value` for the pane whose id is the text `pane_id`:
/// nothing happens unless the id parses as a `u32`; then the pane's icon is set
/// (cleared for an empty value) and, when the session is known, the change is
/// queued for the session's icon file.
pub open spec fn claude_status_effect(s: StateView, pane_id: Seq<char>, value: Seq<char>) -> StateView {
    match parse_u32_text(pane_id) {
        None => s,
        Some(id) => StateView {
            icons: status_update(s.icons, id, value),
            writes: match s.session {
                Some(session) => s.writes.push((session, id, value)),
                None => s.writes,
            },
            ..s
        },
    }
}

/// A recognised protocol command.
pub enum LineCommand {
    Rerun(Seq<char>),
    Notify(Seq<char>),
    Pipe(Seq<char>, Seq<char>),
    ClaudeStatus(Seq<char>, Seq<char>),
}

/// The command that a protocol line carries: the line split at `::` must have
/// at least three parts, the first being `zjstatus`; `pipe` and
/// `claude_status` need a fourth part.
pub open spec fn line_command(line: Seq<char>) -> Option<LineCommand> {
    let parts = split_pair(line, ':');
    if parts.len() < 3 || parts[0] != "zjstatus"@ {
        None
    } else if parts[1] == "rerun"@ {
        Some(LineCommand::Rerun(parts[2]))
    } else if parts[1] == "notify"@ {
        Some(LineCommand::Notify(parts[2]))
    } else if parts[1] == "pipe"@ {
        if parts.len() < 4 {
            None
        } else {
            Some(LineCommand::Pipe(parts[2], parts[3]))
        }
    } else if parts[1] == "claude_status"@ {
        if parts.len() < 4 {
            None
        } else {
            Some(LineCommand::ClaudeStatus(parts[2], parts[3]))
        }
    } else {
        None
    }
}

/// `s` after one protocol line was handled at the instant `now_millis` (the
/// instant matters only to `rerun` and `notify`). A `claude_status` command
/// also marks the tabs for redrawing.
pub open spec fn apply_line(s: StateView, line: Seq<char>, now_millis: i64) -> StateView {
    match line_command(line) {
        None => s,
        Some(LineCommand::Rerun(name)) => rerun_effect(s, name, now_millis),
        Some(LineCommand::Notify(body)) => notify_effect(s, body, now_millis),
        Some(LineCommand::Pipe(name, content)) => pipe_effect(s, name, content),
        Some(LineCommand::ClaudeStatus(pane_id, value)) => StateView {
            cache_mask: UpdateEventMask::Tab.mask_bits(),
            ..claude_status_effect(s, pane_id, value)
        },
    }
}

/// `s` after the lines `ls` were handled in order, line `i` at `clock[i]`.
pub open spec fn apply_lines(s: StateView, ls: Seq<Seq<char>>, clock: Seq<i64>) -> StateView
    decreases ls.len(),
{
    if ls.len() == 0 {
        s
    } else {
        apply_line(apply_lines(s, ls.drop_last(), clock.drop_last()), ls.last(), clock.last())
    }
}

/// Whether `a` and `b` hold the same commands, pipe results, icons, session,
/// redraw mask and notification. The queue of icon-file writes is not part of
/// this comparison: it records work for whoever owns the files.
pub open spec fn same_state(a: StateView, b: StateView) -> bool {
    &&& a.commands == b.commands
    &&& a.pipes == b.pipes
    &&& a.icons == b.icons
    &&& a.session == b.session
    &&& a.cache_mask == b.cache_mask
    &&& a.notification == b.notification
}

/// Whether handling the lines `ls` (line `i` at `clock[i]`) changed the state
/// at some line.
pub open spec fn lines_change(s: StateView, ls: Seq<Seq<char>>, clock: Seq<i64>) -> bool
    decreases ls.len(),
{
    if ls.len() == 0 {
        false
    } else {
        let before = apply_lines(s, ls.drop_last(), clock.drop_last());
        lines_change(s, ls.drop_last(), clock.drop_last()) || !same_state(
            before,
            apply_line(before, ls.last(), clock.last()),
        )
    }
}

/// Stores `content` under `name` in the pipe results; returns whether this
/// changed the state (it does not when `name` already holds `content`).
pub fn pipe(state: &mut ZellijState, name: &str, content: &str) -> (changed: bool)
    ensures
        final(state)@ == pipe_effect(old(state)@, name@, content@),
        changed == !same_state(old(state)@, final(state)@),
        final(state)@.pipes.contains_key(name@),
        final(state)@.pipes[name@] == content@,
        forall|other: Seq<char>|
            other != name@ ==> #[trigger] final(state)@.pipes.contains_key(other)
                == old(state)@.pipes.contains_key(other) && final(state)@.pipes[other] == old(
                state,
            )@.pipes[other],
        final(state)@ == (StateView { pipes: final(state)@.pipes, ..old(state)@ }),
{
    let ghost before = state@;
    let value = content.to_owned();
    let same = match state.pipe_results.get(name) {
        Some(v) => v.eq(&value),
        None => false,
    };
    state.pipe_results.insert(name.to_owned(), value);
    assert(state@.pipes =~= before.pipes.insert(name@, content@));
    proof {
        if same {
            assert(before.pipes.insert(name@, content@) =~= before.pipes);
        } else {
            assert(state@.pipes.contains_key(name@) && state@.pipes[name@] == content@);
        }
    }
    !same
}

/// Stores a per-pane status value keyed by pane id. An empty value clears the
/// entry; a pane id that is not a `u32` leaves everything as it is. The change
/// is queued in `icon_writes` for the shared per-session icon file when the
/// session is known, so that tabs opened later (which start with an empty icon
/// map) converge on the full icon set; the caller that owns the files must
/// drain that queue. Returns whether the icons changed.
pub fn claude_status(state: &mut ZellijState, pane_id: &str, value: &str) -> (changed: bool)
    ensures
        final(state)@ == claude_status_effect(old(state)@, pane_id@, value@),
        changed == !same_state(old(state)@, final(state)@),
        parse_u32_text(pane_id@) is None ==> final(state)@ == old(state)@,
        parse_u32_text(pane_id@) matches Some(id) ==> {
            &&& final(state)@.icons == if value@.len() == 0 {
                old(state)@.icons.remove(id)
            } else {
                old(state)@.icons.insert(id, value@)
            }
            &&& final(state)@.writes == match old(state)@.session {
                Some(session) => old(state)@.writes.push((session, id, value@)),
                None => old(state)@.writes,
            }
            &&& final(state)@ == (StateView {
                icons: final(state)@.icons,
                writes: final(state)@.writes,
                ..old(state)@
            })
        },
{
    let id_chars = chars_of(pane_id);
    let id = match parse_u32(&id_chars) {
        None => return false,
        Some(id) => id,
    };
    let ghost before = state@;
    let text = value.to_owned();
    let same = if value.is_empty() {
        !state.claude_icons.contains_key(&id)
    } else {
        match state.claude_icons.get(&id) {
            Some(v) => v.eq(&text),
            None => false,
        }
    };
    apply_status(&mut state.claude_icons, id, value);
    match &state.session_name {
        Some(session) => {
            let write = IconWrite { session: session.clone(), pane_id: id, value: text };
            state.icon_writes.push(write);
        },
        None => {},
    }
    assert(state@.writes =~= (match before.session {
        Some(session) => before.writes.push((session, id, value@)),
        None => before.writes,
    }));
    proof {
        if same {
            if value@.len() == 0 {
                assert(before.icons.remove(id) =~= before.icons);
            } else {
                assert(before.icons.insert(id, value@) =~= before.icons);
            }
        } else if value@.len() == 0 {
            assert(before.icons.contains_key(id) && !state@.icons.contains_key(id));
        } else {
            assert(state@.icons.contains_key(id) && state@.icons[id] == value@);
        }
    }
    !same
}

/// Shows `message` as a notification that arrived at `now_millis`; returns
/// whether this changed the state.
pub fn notify_at(state: &mut ZellijState, message: &str, now_millis: i64) -> (changed: bool)
    ensures
        final(state)@ == notify_effect(old(state)@, message@, now_millis),
        changed == !same_state(old(state)@, final(state)@),
        final(state)@.notification == Some((message@, now_millis)),
        final(state)@ == (StateView { notification: final(state)@.notification, ..old(state)@ }),
{
    let body = message.to_owned();
    let same = match &state.incoming_notification {
        Some(m) => m.received_at_millis == now_millis && m.body.eq(&body),
        None => false,
    };
    state.incoming_notification = Some(Message { body, received_at_millis: now_millis });
    !same
}

/// Shows `message` as a notification that arrived now; returns whether this
/// changed the state.
pub fn notify(state: &mut ZellijState, message: &str) -> (changed: bool)
    ensures
        exists|t: i64|
            final(state)@ == notify_effect(old(state)@, message@, t) && changed == !same_state(
                old(state)@,
                final(state)@,
            ),
{
    let now = now_millis();
    notify_at(state, message, now)
}

/// Marks the command `command_name` as due to run again at the instant
/// `now_millis`: its `timestamp` context value becomes the time one day
/// earlier. Nothing happens when no command of that name has a result.
/// Returns whether this changed the state.
pub fn rerun_command_at(state: &mut ZellijState, command_name: &str, now_millis: i64) -> (changed: bool)
    ensures
        final(state)@ == rerun_effect(old(state)@, command_name@, now_millis),
        changed == !same_state(old(state)@, final(state)@),
        !old(state)@.commands.contains_key(command_name@) ==> final(state)@ == old(state)@,
        old(state)@.commands.contains_key(command_name@) ==> {
            let c = old(state)@.commands[command_name@];
            let d = final(state)@.commands[command_name@];
            &&& final(state)@.commands.dom() == old(state)@.commands.dom()
            &&& d.context.contains_key("timestamp"@)
            &&& d.context["timestamp"@] == day_before_stamp(now_millis)
            &&& forall|key: Seq<char>|
                key != "timestamp"@ ==> #[trigger] d.context.contains_key(key)
                    == c.context.contains_key(key) && d.context[key] == c.context[key]
            &&& d.exit_code == c.exit_code && d.stdout == c.stdout && d.stderr == c.stderr
            &&& forall|other: Seq<char>|
                other != command_name@ ==> #[trigger] final(state)@.commands[other] == old(
                    state,
                )@.commands[other]
            &&& final(state)@ == (StateView { commands: final(state)@.commands, ..old(state)@ })
        },
{
    let ghost before = state@;
    match state.command_results.remove(command_name) {
        None => {
            assert(state@.commands =~= before.commands);
            assert(state@ == before);
            false
        },
        Some(result) => {
            let mut result = result;
            let ghost c = result@;
            let stamp = day_before_text(now_millis);
            let same = match result.context.get(TIMESTAMP_KEY) {
                Some(v) => v.eq(&stamp),
                None => false,
            };
            result.context.insert(TIMESTAMP_KEY.to_owned(), stamp);
            let ghost new_context = c.context.insert(TIMESTAMP_KEY@, day_before_stamp(now_millis));
            assert(result@.context =~= new_context);
            state.command_results.insert(command_name.to_owned(), result);
            let ghost updated = CommandView { context: new_context, ..c };
            assert(state@.commands =~= before.commands.insert(command_name@, updated));
            proof {
                if same {
                    assert(new_context =~= c.context);
                    assert(updated == c);
                    assert(before.commands.insert(command_name@, updated) =~= before.commands);
                } else {
                    assert(state@.commands[command_name@].context[TIMESTAMP_KEY@] == day_before_stamp(
                        now_millis,
                    ));
                    assert(state@.commands[command_name@].context.contains_key(TIMESTAMP_KEY@));
                }
            }
            !same
        },
    }
}

/// Marks the command `command_name` as due to run again now; returns whether
/// this changed the state.
pub fn rerun_command(state: &mut ZellijState, command_name: &str) -> (changed: bool)
    ensures
        exists|t: i64|
            final(state)@ == rerun_effect(old(state)@, command_name@, t) && changed == !same_state(
                old(state)@,
                final(state)@,
            ),
{
    let now = now_millis();
    rerun_command_at(state, command_name, now)
}

/// Handles one protocol line; returns whether it changed the state (and so the
/// bar must be redrawn). A `claude_status` command also marks the tabs for
/// redrawing, since the icon is drawn inside the tabs.
pub fn process_line(state: &mut ZellijState, line: &str) -> (r: bool)
    ensures
        exists|t: i64|
            final(state)@ == apply_line(old(state)@, line@, t) && r == !same_state(
                old(state)@,
                final(state)@,
            ),
{
    let ghost before = state@;
    let chars = chars_of(line);
    let parts = split_pairs(&chars, ':');
    let ghost ps = split_pair(line@, ':');
    assert(views(parts@) == ps);
    if parts.len() < 3 {
        assert(state@ == apply_line(before, line@, 0));
        return false;
    }
    assert(parts@[0]@ == ps[0] && parts@[1]@ == ps[1] && parts@[2]@ == ps[2]);
    let prefix = chars_of("zjstatus");
    if !chars_eq(&parts[0], &prefix) {
        assert(state@ == apply_line(before, line@, 0));
        return false;
    }
    let arg = string_from_chars(&parts[2]);
    let rerun = chars_of("rerun");
    let notify_name = chars_of("notify");
    let pipe_name = chars_of("pipe");
    let status_name = chars_of("claude_status");
    if chars_eq(&parts[1], &rerun) {
        let changed = rerun_command(state, arg.as_str());
        proof {
            let t = choose|t: i64|
                state@ == rerun_effect(before, arg@, t) && changed == !same_state(before, state@);
            assert(state@ == apply_line(before, line@, t));
        }
        changed
    } else if chars_eq(&parts[1], &notify_name) {
        let changed = notify(state, arg.as_str());
        proof {
            let t = choose|t: i64|
                state@ == notify_effect(before, arg@, t) && changed == !same_state(before, state@);
            assert(state@ == apply_line(before, line@, t));
        }
        changed
    } else if chars_eq(&parts[1], &pipe_name) {
        if parts.len() < 4 {
            assert(state@ == apply_line(before, line@, 0));
            return false;
        }
        assert(parts@[3]@ == ps[3]);
        let content = string_from_chars(&parts[3]);
        let changed = pipe(state, arg.as_str(), content.as_str());
        assert(state@ == apply_line(before, line@, 0));
        changed
    } else if chars_eq(&parts[1], &status_name) {
        if parts.len() < 4 {
            assert(state@ == apply_line(before, line@, 0));
            return false;
        }
        assert(parts@[3]@ == ps[3]);
        let value = string_from_chars(&parts[3]);
        let tab = UpdateEventMask::Tab.bits();
        let mask_same = state.cache_mask == tab;
        let icons_changed = claude_status(state, arg.as_str(), value.as_str());
        state.cache_mask = tab;
        assert(state@ == apply_line(before, line@, 0));
        icons_changed || !mask_same
    } else {
        assert(state@ == apply_line(before, line@, 0));
        false
    }
}

/// Parses the line protocol and updates the state accordingly.
///
/// The input is split at `\n` and every line is handled in order (see
/// [`process_line`]). Returns whether the state has been changed (by some
/// line), in which case the UI should be re-rendered.
pub fn parse_protocol(state: &mut ZellijState, input: &str) -> (r: bool)
    ensures
        exists|clock: Seq<i64>|
            clock.len() == split_char(input@, '\n').len() && final(state)@ == apply_lines(
                old(state)@,
                split_char(input@, '\n'),
                clock,
            ) && r == lines_change(old(state)@, split_char(input@, '\n'), clock),
{
    let ghost start = state@;
    let chars = chars_of(input);
    let lines = split_chars(&chars, '\n');
    let ghost ls = split_char(input@, '\n');
    let ghost mut clock: Seq<i64> = Seq::empty();
    let mut should_render = false;
    let n = lines.len();
    let mut i: usize = 0;
    assert(ls.take(0) =~= Seq::<Seq<char>>::empty());
    while i < n
        invariant
            n == lines@.len(),
            views(lines@) == ls,
            ls == split_char(input@, '\n'),
            i <= n,
            clock.len() == i,
            state@ == apply_lines(start, ls.take(i as int), clock),
            should_render == lines_change(start, ls.take(i as int), clock),
        decreases n - i,
    {
        let ghost pre = state@;
        assert(lines@[i as int]@ == ls[i as int]);
        let line = string_from_chars(&lines[i]);
        let renders = process_line(state, line.as_str());
        proof {
            let t = choose|t: i64|
                state@ == apply_line(pre, line@, t) && renders == !same_state(pre, state@);
            let next = ls.take(i + 1);
            assert(next.drop_last() =~= ls.take(i as int));
            assert(next.last() == ls[i as int]);
            assert(clock.push(t).drop_last() =~= clock);
            assert(clock.push(t).last() == t);
            clock = clock.push(t);
        }
        if renders {
            should_render = true;
        }
        i = i + 1;
    }
    assert(ls.take(n as int) =~= ls);
    should_render
}

} // verus!
