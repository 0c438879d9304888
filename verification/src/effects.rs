//! What each protocol command does to the plugin state, stated over the
//! state's parts: which entry it sets, which it clears, and that it leaves the
//! rest alone.

use vstd::prelude::*;

use crate::clock::day_before_stamp;
use crate::decimal::{all_digits, parse_u32_text};
use crate::pipe::{
    apply_line, claude_status_effect, notify_effect, pipe_effect, rerun_effect, same_state,
    StateView,
};
use crate::text::{scan_pair, split_pair};

verus! {

/// Law: a `claude_status` change for a pane id that parses as a `u32` sets that
/// pane's icon to the value (replacing any icon it had) or, for an empty value,
/// clears it, whether or not the session is known; it queues the change for the
/// session file exactly when the session is known, and touches nothing else. A
/// pane id that does not parse changes nothing.
pub proof fn lemma_claude_status(s: StateView, pane_id: Seq<char>, value: Seq<char>)
    ensures
        parse_u32_text(pane_id) is None ==> claude_status_effect(s, pane_id, value) == s,
        parse_u32_text(pane_id) matches Some(id) ==> {
            let after = claude_status_effect(s, pane_id, value);
            &&& value.len() > 0 ==> after.icons.contains_key(id) && after.icons[id] == value
            &&& value.len() == 0 ==> !after.icons.contains_key(id)
            &&& forall|other: u32|
                other != id ==> #[trigger] after.icons.contains_key(other) == s.icons.contains_key(
                    other,
                ) && after.icons[other] == s.icons[other]
            &&& after.writes == match s.session {
                Some(session) => s.writes.push((session, id, value)),
                None => s.writes,
            }
            &&& after.commands == s.commands
            &&& after.pipes == s.pipes
            &&& after.session == s.session
            &&& after.cache_mask == s.cache_mask
            &&& after.notification == s.notification
        },
{
}

/// Law: the protocol line `zjstatus::claude_status::<pane id>::<icon>` sets (or,
/// for an empty icon, clears) the icon of the pane whose id is the third part,
/// with the fourth part verbatim, whatever the state held before and whether or
/// not the session is known, and marks the tabs (`0x03`) for redrawing; every
/// other pane keeps its icon.
pub proof fn lemma_claude_status_line(s: StateView, line: Seq<char>, t: i64)
    requires
        split_pair(line, ':').len() >= 4,
        split_pair(line, ':')[0] == "zjstatus"@,
        split_pair(line, ':')[1] == "claude_status"@,
        parse_u32_text(split_pair(line, ':')[2]) is Some,
    ensures
        ({
            let parts = split_pair(line, ':');
            let id = parse_u32_text(parts[2])->0;
            let after = apply_line(s, line, t);
            &&& parts[3].len() > 0 ==> after.icons.contains_key(id) && after.icons[id] == parts[3]
            &&& parts[3].len() == 0 ==> !after.icons.contains_key(id)
            &&& forall|other: u32|
                other != id ==> #[trigger] after.icons.contains_key(other) == s.icons.contains_key(
                    other,
                ) && after.icons[other] == s.icons[other]
            &&& after.cache_mask == 0x03
            &&& after.commands == s.commands
            &&& after.pipes == s.pipes
            &&& after.notification == s.notification
        }),
{
    reveal_strlit("zjstatus");
    reveal_strlit("claude_status");
    reveal_strlit("rerun");
    reveal_strlit("notify");
    reveal_strlit("pipe");
    let parts = split_pair(line, ':');
    assert(parts[1].len() == 13);
    assert(parts[1] != "rerun"@);
    assert(parts[1] != "notify"@);
    assert(parts[1] != "pipe"@);
    lemma_claude_status(s, parts[2], parts[3]);
}

/// Law: storing `content` under `name` makes `name` hold exactly `content`
/// (replacing what it held), keeps every other name's content, and leaves the
/// rest of the state alone.
pub proof fn lemma_pipe(s: StateView, name: Seq<char>, content: Seq<char>)
    ensures
        ({
            let after = pipe_effect(s, name, content);
            &&& after.pipes.contains_key(name)
            &&& after.pipes[name] == content
            &&& forall|other: Seq<char>|
                other != name ==> #[trigger] after.pipes.contains_key(other)
                    == s.pipes.contains_key(other) && after.pipes[other] == s.pipes[other]
            &&& after.commands == s.commands
            &&& after.icons == s.icons
            &&& after.session == s.session
            &&& after.cache_mask == s.cache_mask
            &&& after.notification == s.notification
            &&& after.writes == s.writes
        }),
{
}

/// Law: the protocol line `zjstatus::pipe::<name>::<content>` stores the fourth
/// part verbatim under the third, whatever it holds (spaces included), and
/// leaves every other name and the rest of the state alone.
pub proof fn lemma_pipe_line(s: StateView, line: Seq<char>, t: i64)
    requires
        split_pair(line, ':').len() >= 4,
        split_pair(line, ':')[0] == "zjstatus"@,
        split_pair(line, ':')[1] == "pipe"@,
    ensures
        ({
            let parts = split_pair(line, ':');
            let after = apply_line(s, line, t);
            &&& after.pipes.contains_key(parts[2])
            &&& after.pipes[parts[2]] == parts[3]
            &&& forall|other: Seq<char>|
                other != parts[2] ==> #[trigger] after.pipes.contains_key(other)
                    == s.pipes.contains_key(other) && after.pipes[other] == s.pipes[other]
            &&& after.commands == s.commands
            &&& after.icons == s.icons
            &&& after.cache_mask == s.cache_mask
            &&& after.notification == s.notification
        }),
{
    reveal_strlit("zjstatus");
    reveal_strlit("pipe");
    reveal_strlit("rerun");
    reveal_strlit("notify");
    let parts = split_pair(line, ':');
    assert(parts[1].len() == 4);
    assert(parts[1] != "rerun"@);
    assert(parts[1] != "notify"@);
    lemma_pipe(s, parts[2], parts[3]);
}

/// Law: a rerun request for a command that has a result sets its `timestamp`
/// context value to the instant one day before the request, whatever it held
/// before (so a command that has just run is due again), and keeps its other
/// context values, its output, every other command and the rest of the state.
/// A request for a command without a result changes nothing.
pub proof fn lemma_rerun(s: StateView, name: Seq<char>, now_millis: i64)
    ensures
        !s.commands.contains_key(name) ==> rerun_effect(s, name, now_millis) == s,
        s.commands.contains_key(name) ==> {
            let after = rerun_effect(s, name, now_millis);
            let c = s.commands[name];
            let d = after.commands[name];
            &&& after.commands.dom() == s.commands.dom()
            &&& d.context.contains_key("timestamp"@)
            &&& d.context["timestamp"@] == day_before_stamp(now_millis)
            &&& forall|key: Seq<char>|
                key != "timestamp"@ ==> #[trigger] d.context.contains_key(key)
                    == c.context.contains_key(key) && d.context[key] == c.context[key]
            &&& d.exit_code == c.exit_code
            &&& d.stdout == c.stdout
            &&& d.stderr == c.stderr
            &&& forall|other: Seq<char>|
                other != name ==> #[trigger] after.commands[other] == s.commands[other]
            &&& after.pipes == s.pipes
            &&& after.icons == s.icons
            &&& after.session == s.session
            &&& after.cache_mask == s.cache_mask
            &&& after.notification == s.notification
            &&& after.writes == s.writes
        },
{
    if s.commands.contains_key(name) {
        let after = rerun_effect(s, name, now_millis);
        assert(after.commands.dom() =~= s.commands.dom());
    }
}

/// Law: the protocol line `zjstatus::rerun::<name>`, handled at the instant
/// `t`, sets the `timestamp` context value of the command named by the third
/// part to the instant one day before `t`, when that command has a result.
pub proof fn lemma_rerun_line(s: StateView, line: Seq<char>, t: i64)
    requires
        split_pair(line, ':').len() >= 3,
        split_pair(line, ':')[0] == "zjstatus"@,
        split_pair(line, ':')[1] == "rerun"@,
        s.commands.contains_key(split_pair(line, ':')[2]),
    ensures
        ({
            let name = split_pair(line, ':')[2];
            let after = apply_line(s, line, t);
            &&& after.commands.contains_key(name)
            &&& after.commands[name].context.contains_key("timestamp"@)
            &&& after.commands[name].context["timestamp"@] == day_before_stamp(t)
            &&& after.pipes == s.pipes
            &&& after.icons == s.icons
        }),
{
    let name = split_pair(line, ':')[2];
    lemma_rerun(s, name, t);
}

/// No two consecutive characters of `x` are both `c`.
pub open spec fn no_pair(x: Seq<char>, c: char) -> bool {
    forall|j: int| 0 <= j < x.len() - 1 ==> !(#[trigger] x[j] == c && x[j + 1] == c)
}

/// Scanning `n` characters that start no separator pair adds them to the
/// current piece.
proof fn lemma_scan_run(s: Seq<char>, sep: char, i: int, done: Seq<Seq<char>>, cur: Seq<char>, n: int)
    requires
        0 <= i,
        0 <= n,
        i + n <= s.len(),
        forall|j: int| i <= j < i + n ==> !(j + 1 < s.len() && #[trigger] s[j] == sep && s[j + 1] == sep),
    ensures
        scan_pair(s, sep, i, done, cur) == scan_pair(s, sep, i + n, done, cur + s.subrange(i, i + n)),
    decreases n,
{
    if n == 0 {
        assert(cur + s.subrange(i, i) =~= cur);
    } else {
        assert(!(i + 1 < s.len() && s[i] == sep && s[i + 1] == sep));
        assert(scan_pair(s, sep, i, done, cur) == scan_pair(s, sep, i + 1, done, cur.push(s[i])));
        lemma_scan_run(s, sep, i + 1, done, cur.push(s[i]), n - 1);
        assert(cur.push(s[i]) + s.subrange(i + 1, i + n) =~= cur + s.subrange(i, i + n));
    }
}

/// Scanning a piece `x` (no `sep` in it) that starts at `i` and is followed by
/// the separator pair finishes the current piece with `x`.
proof fn lemma_scan_piece(s: Seq<char>, sep: char, i: int, done: Seq<Seq<char>>, x: Seq<char>)
    requires
        0 <= i,
        i + x.len() + 2 <= s.len(),
        s.subrange(i, i + x.len()) == x,
        !x.contains(sep),
        s[i + x.len()] == sep,
        s[i + x.len() + 1] == sep,
    ensures
        scan_pair(s, sep, i, done, Seq::empty()) == scan_pair(
            s,
            sep,
            i + x.len() + 2,
            done.push(x),
            Seq::empty(),
        ),
{
    let n = x.len() as int;
    assert forall|j: int| i <= j < i + n implies !(j + 1 < s.len() && #[trigger] s[j] == sep && s[j
        + 1] == sep) by {
        assert(x[j - i] == s[j]);
    }
    lemma_scan_run(s, sep, i, done, Seq::empty(), n);
    assert(Seq::<char>::empty() + s.subrange(i, i + n) =~= x);
}

/// Scanning a last piece `x` (no separator pair in it) that runs from `i` to
/// the end adds it as the final piece.
proof fn lemma_scan_last(s: Seq<char>, sep: char, i: int, done: Seq<Seq<char>>, x: Seq<char>)
    requires
        0 <= i <= s.len(),
        s.subrange(i, s.len() as int) == x,
        no_pair(x, sep),
    ensures
        scan_pair(s, sep, i, done, Seq::empty()) == done.push(x),
{
    let n = x.len() as int;
    assert forall|j: int| i <= j < i + n implies !(j + 1 < s.len() && #[trigger] s[j] == sep && s[j
        + 1] == sep) by {
        assert(x[j - i] == s[j]);
        if j + 1 < s.len() {
            assert(x[j - i + 1] == s[j + 1]);
        }
    }
    lemma_scan_run(s, sep, i, done, Seq::empty(), n);
    assert(Seq::<char>::empty() + s.subrange(i, i + n) =~= x);
}

/// The separator pair `sep sep` as a text.
pub open spec fn pair_text(sep: char) -> Seq<char> {
    seq![sep, sep]
}

/// Three pieces joined by the separator pair split back into those pieces,
/// when the first two hold no `sep` and the last no separator pair.
pub proof fn lemma_split_three(a: Seq<char>, b: Seq<char>, c: Seq<char>, sep: char)
    requires
        !a.contains(sep),
        !b.contains(sep),
        no_pair(c, sep),
    ensures
        split_pair(a + pair_text(sep) + b + pair_text(sep) + c, sep) == seq![a, b, c],
{
    let s = a + pair_text(sep) + b + pair_text(sep) + c;
    let pa = a.len() as int;
    let pb = pa + 2 + b.len();
    assert(s.subrange(0, pa) =~= a);
    assert(s[pa] == sep && s[pa + 1] == sep);
    lemma_scan_piece(s, sep, 0, Seq::empty(), a);
    assert(s.subrange(pa + 2, pb) =~= b);
    assert(s[pb] == sep && s[pb + 1] == sep);
    lemma_scan_piece(s, sep, pa + 2, seq![a], b);
    assert(seq![a].push(b) =~= seq![a, b]);
    assert(s.subrange(pb + 2, s.len() as int) =~= c);
    lemma_scan_last(s, sep, pb + 2, seq![a, b], c);
    assert(seq![a, b].push(c) =~= seq![a, b, c]);
    assert(Seq::<Seq<char>>::empty().push(a) =~= seq![a]);
}

/// Four pieces joined by the separator pair split back into those pieces,
/// when the first three hold no `sep` and the last no separator pair.
pub proof fn lemma_split_four(a: Seq<char>, b: Seq<char>, c: Seq<char>, d: Seq<char>, sep: char)
    requires
        !a.contains(sep),
        !b.contains(sep),
        !c.contains(sep),
        no_pair(d, sep),
    ensures
        split_pair(a + pair_text(sep) + b + pair_text(sep) + c + pair_text(sep) + d, sep) == seq![
            a,
            b,
            c,
            d,
        ],
{
    let s = a + pair_text(sep) + b + pair_text(sep) + c + pair_text(sep) + d;
    let pa = a.len() as int;
    let pb = pa + 2 + b.len();
    let pc = pb + 2 + c.len();
    assert(s.subrange(0, pa) =~= a);
    assert(s[pa] == sep && s[pa + 1] == sep);
    lemma_scan_piece(s, sep, 0, Seq::empty(), a);
    assert(Seq::<Seq<char>>::empty().push(a) =~= seq![a]);
    assert(s.subrange(pa + 2, pb) =~= b);
    assert(s[pb] == sep && s[pb + 1] == sep);
    lemma_scan_piece(s, sep, pa + 2, seq![a], b);
    assert(seq![a].push(b) =~= seq![a, b]);
    assert(s.subrange(pb + 2, pc) =~= c);
    assert(s[pc] == sep && s[pc + 1] == sep);
    lemma_scan_piece(s, sep, pb + 2, seq![a, b], c);
    assert(seq![a, b].push(c) =~= seq![a, b, c]);
    assert(s.subrange(pc + 2, s.len() as int) =~= d);
    lemma_scan_last(s, sep, pc + 2, seq![a, b, c], d);
    assert(seq![a, b, c].push(d) =~= seq![a, b, c, d]);
}

/// A pane id that parses as a `u32` holds no `:`.
proof fn lemma_pane_id_free(p: Seq<char>)
    requires
        parse_u32_text(p) is Some,
    ensures
        !p.contains(':'),
{
    let d = if p.len() > 0 && p[0] == '+' {
        p.drop_first()
    } else {
        p
    };
    assert(all_digits(d));
    if p.contains(':') {
        let i = choose|i: int| 0 <= i < p.len() && p[i] == ':';
        if p.len() > 0 && p[0] == '+' {
            assert(i > 0);
            assert(d[i - 1] == ':');
        } else {
            assert(d[i] == ':');
        }
    }
}

/// Law: the line `zjstatus::pipe::<name>::<content>`, for a name without `:`
/// and a content without `::`, stores the content verbatim (spaces and single
/// colons included) under the name, keeps every other name's content and
/// leaves the rest of the state alone.
pub proof fn lemma_pipe_text(s: StateView, name: Seq<char>, content: Seq<char>, t: i64)
    requires
        !name.contains(':'),
        no_pair(content, ':'),
    ensures
        ({
            let after = apply_line(s, "zjstatus::pipe::"@ + name + "::"@ + content, t);
            &&& after.pipes.contains_key(name)
            &&& after.pipes[name] == content
            &&& forall|other: Seq<char>|
                other != name ==> #[trigger] after.pipes.contains_key(other)
                    == s.pipes.contains_key(other) && after.pipes[other] == s.pipes[other]
            &&& after.commands == s.commands
            &&& after.icons == s.icons
            &&& after.cache_mask == s.cache_mask
            &&& after.notification == s.notification
        }),
{
    reveal_strlit("zjstatus::pipe::");
    reveal_strlit("::");
    reveal_strlit("zjstatus");
    reveal_strlit("pipe");
    let z = "zjstatus"@;
    let k = "pipe"@;
    let line = "zjstatus::pipe::"@ + name + "::"@ + content;
    assert(!z.contains(':'));
    assert(!k.contains(':'));
    assert(line =~= z + pair_text(':') + k + pair_text(':') + name + pair_text(':') + content);
    lemma_split_four(z, k, name, content, ':');
    lemma_pipe_line(s, line, t);
}

/// Law: the line `zjstatus::claude_status::<pane id>::<icon>`, for a pane id
/// that parses as a `u32` and an icon without `::`, sets that pane's icon to
/// the icon verbatim (or clears it, for an empty icon), whatever the pane
/// showed before and whether or not the session is known, marks the tabs
/// (`0x03`) for redrawing, and keeps every other pane's icon.
pub proof fn lemma_claude_status_text(s: StateView, pane_id: Seq<char>, value: Seq<char>, t: i64)
    requires
        parse_u32_text(pane_id) is Some,
        no_pair(value, ':'),
    ensures
        ({
            let id = parse_u32_text(pane_id)->0;
            let after = apply_line(s, "zjstatus::claude_status::"@ + pane_id + "::"@ + value, t);
            &&& value.len() > 0 ==> after.icons.contains_key(id) && after.icons[id] == value
            &&& value.len() == 0 ==> !after.icons.contains_key(id)
            &&& forall|other: u32|
                other != id ==> #[trigger] after.icons.contains_key(other) == s.icons.contains_key(
                    other,
                ) && after.icons[other] == s.icons[other]
            &&& after.cache_mask == 0x03
            &&& after.commands == s.commands
            &&& after.pipes == s.pipes
            &&& after.notification == s.notification
        }),
{
    reveal_strlit("zjstatus::claude_status::");
    reveal_strlit("::");
    reveal_strlit("zjstatus");
    reveal_strlit("claude_status");
    let z = "zjstatus"@;
    let k = "claude_status"@;
    let line = "zjstatus::claude_status::"@ + pane_id + "::"@ + value;
    assert(!z.contains(':'));
    assert(!k.contains(':'));
    lemma_pane_id_free(pane_id);
    assert(line =~= z + pair_text(':') + k + pair_text(':') + pane_id + pair_text(':') + value);
    lemma_split_four(z, k, pane_id, value, ':');
    lemma_claude_status_line(s, line, t);
}

/// Law: the line `zjstatus::rerun::<name>`, handled at the instant `t`, for a
/// name without `:` whose command has a result, sets that command's
/// `timestamp` context value to the instant one day before `t`, whatever it
/// held before.
pub proof fn lemma_rerun_text(s: StateView, name: Seq<char>, t: i64)
    requires
        !name.contains(':'),
        s.commands.contains_key(name),
    ensures
        ({
            let after = apply_line(s, "zjstatus::rerun::"@ + name, t);
            &&& after.commands.contains_key(name)
            &&& after.commands[name].context.contains_key("timestamp"@)
            &&& after.commands[name].context["timestamp"@] == day_before_stamp(t)
            &&& after.pipes == s.pipes
            &&& after.icons == s.icons
        }),
{
    reveal_strlit("zjstatus::rerun::");
    reveal_strlit("zjstatus");
    reveal_strlit("rerun");
    let z = "zjstatus"@;
    let k = "rerun"@;
    let line = "zjstatus::rerun::"@ + name;
    assert(!z.contains(':'));
    assert(!k.contains(':'));
    assert(no_pair(name, ':')) by {
        assert forall|j: int| 0 <= j < name.len() - 1 implies !(#[trigger] name[j] == ':' && name[j
            + 1] == ':') by {
            if name[j] == ':' {
                assert(name.contains(':'));
            }
        }
    }
    assert(line =~= z + pair_text(':') + k + pair_text(':') + name);
    lemma_split_three(z, k, name, ':');
    lemma_rerun_line(s, line, t);
}

/// Law: a notification that arrives at `now_millis` becomes the one to show,
/// with that arrival time, replacing any earlier one; nothing else changes.
pub proof fn lemma_notify(s: StateView, body: Seq<char>, now_millis: i64)
    ensures
        notify_effect(s, body, now_millis).notification == Some((body, now_millis)),
        notify_effect(s, body, now_millis) == (StateView {
            notification: Some((body, now_millis)),
            ..s
        }),
{
}

/// Law: the line `zjstatus::notify::<message>`, handled at the instant `t`, for
/// a message without `::`, shows the message verbatim as arrived at `t`, and
/// leaves the rest of the state alone.
pub proof fn lemma_notify_text(s: StateView, message: Seq<char>, t: i64)
    requires
        no_pair(message, ':'),
    ensures
        apply_line(s, "zjstatus::notify::"@ + message, t) == (StateView {
            notification: Some((message, t)),
            ..s
        }),
{
    reveal_strlit("zjstatus::notify::");
    reveal_strlit("zjstatus");
    reveal_strlit("notify");
    reveal_strlit("rerun");
    let z = "zjstatus"@;
    let k = "notify"@;
    let line = "zjstatus::notify::"@ + message;
    assert(!z.contains(':'));
    assert(!k.contains(':'));
    assert(line =~= z + pair_text(':') + k + pair_text(':') + message);
    lemma_split_three(z, k, message, ':');
    assert(k != "rerun"@);
    lemma_notify(s, message, t);
}

/// Law: a line that is not a protocol command, because it splits at `::` into
/// fewer than three parts or does not start with `zjstatus`, leaves the state
/// as it is.
pub proof fn lemma_other_line(s: StateView, line: Seq<char>, t: i64)
    requires
        split_pair(line, ':').len() < 3 || split_pair(line, ':')[0] != "zjstatus"@,
    ensures
        apply_line(s, line, t) == s,
{
}

/// Law: two states count as the same, for the change flag that the commands
/// return, exactly when they agree on everything but the queue of icon-file
/// writes.
pub proof fn lemma_same_state(a: StateView, b: StateView)
    ensures
        same_state(a, b) <==> (StateView { writes: b.writes, ..a }) == b,
{
}

} // verus!
