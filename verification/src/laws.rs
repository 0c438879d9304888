//! Properties of the icon file that hold across its operations: what is
//! written reads back, and a pane's status change touches that pane only.

use vstd::prelude::*;

use crate::decimal::{
    all_digits, decimal, is_digit, lemma_decimal, lemma_parse_decimal, parse_u32_text,
};
use crate::icons::{
    entry_body, icon_path, insert_entries, is_name_char, lemma_min_key, min_key, parse_entry,
    parse_icons, prune_rewrites, pruned_icons, safe_name, serialized_text, status_update,
    stored_icons, temp_path, ICON_DIR, ICON_EXT, TEMP_EXT,
};
use crate::pipe::{
    apply_line, apply_lines, claude_status_effect, line_command, lines_change, same_state, LineCommand,
    StateView,
};
use crate::text::{find_char, lines, scan_pair, split_char, split_once, split_pair, strip_cr};

verus! {

/// An icon text that survives the text form: not empty, no newline, and no
/// carriage return at its end (`str::lines` drops one before a newline).
pub open spec fn storable_value(v: Seq<char>) -> bool {
    v.len() > 0 && !v.contains('\n') && v.last() != '\r'
}

/// Every icon text of `m` survives the text form.
pub open spec fn storable(m: Map<u32, Seq<char>>) -> bool {
    forall|k: u32| #[trigger] m.dom().contains(k) ==> storable_value(m[k])
}

/// The entry lines of `m` without their newlines, by increasing id.
pub open spec fn entry_bodies(m: Map<u32, Seq<char>>) -> Seq<Seq<char>>
    decreases m.dom().len(),
    when m.dom().finite()
{
    if m.dom().len() == 0 {
        Seq::empty()
    } else {
        let k = min_key(m);
        proof {
            lemma_min_key(m);
        }
        seq![entry_body(k, m[k])] + entry_bodies(m.remove(k))
    }
}

/// Splitting at a separator that stands between two texts splits each of them.
proof fn lemma_split_concat(x: Seq<char>, y: Seq<char>, c: char)
    ensures
        split_char(x + seq![c] + y, c) == split_char(x, c) + split_char(y, c),
    decreases y.len(),
{
    let s = x + seq![c] + y;
    if y.len() == 0 {
        assert(s.drop_last() =~= x);
        assert(split_char(y, c) =~= seq![Seq::<char>::empty()]);
        assert(split_char(s, c) =~= split_char(x, c) + split_char(y, c));
    } else {
        lemma_split_concat(x, y.drop_last(), c);
        assert(s.drop_last() =~= x + seq![c] + y.drop_last());
        crate::text::lemma_split_char_len(y.drop_last(), c);
        assert(split_char(s, c) =~= split_char(x, c) + split_char(y, c));
    }
}

/// A text without the separator is a single piece.
proof fn lemma_split_none(x: Seq<char>, c: char)
    requires
        !x.contains(c),
    ensures
        split_char(x, c) == seq![x],
    decreases x.len(),
{
    if x.len() > 0 {
        assert(!x.drop_last().contains(c)) by {
            if x.drop_last().contains(c) {
                let i = choose|i: int| 0 <= i < x.drop_last().len() && x.drop_last()[i] == c;
                assert(x[i] == c);
            }
        }
        lemma_split_none(x.drop_last(), c);
        assert(x.last() != c) by {
            assert(x[x.len() - 1] == x.last());
        }
        assert(x.drop_last().push(x.last()) =~= x);
        assert(seq![x.drop_last()].update(0, x.drop_last().push(x.last())) =~= seq![x]);
    } else {
        assert(x =~= Seq::<char>::empty());
    }
}

/// The first `c` in `x + [c] + y`, when `x` holds none, is right after `x`.
proof fn lemma_find_after(x: Seq<char>, y: Seq<char>, c: char)
    requires
        !x.contains(c),
    ensures
        find_char(x + seq![c] + y, c) == Some(x.len()),
    decreases x.len(),
{
    let s = x + seq![c] + y;
    if x.len() > 0 {
        assert(s.drop_first() =~= x.drop_first() + seq![c] + y);
        assert(!x.drop_first().contains(c)) by {
            if x.drop_first().contains(c) {
                let i = choose|i: int| 0 <= i < x.drop_first().len() && x.drop_first()[i] == c;
                assert(x[i + 1] == c);
            }
        }
        assert(s[0] == x[0]);
        lemma_find_after(x.drop_first(), y, c);
    }
}

/// A digit string holds neither `=` nor a newline.
proof fn lemma_digits_free(d: Seq<char>)
    requires
        all_digits(d),
    ensures
        !d.contains('='),
        !d.contains('\n'),
{
    assert(!d.contains('=')) by {
        if d.contains('=') {
            let i = choose|i: int| 0 <= i < d.len() && d[i] == '=';
            assert(is_digit(d[i]));
        }
    }
    assert(!d.contains('\n')) by {
        if d.contains('\n') {
            let i = choose|i: int| 0 <= i < d.len() && d[i] == '\n';
            assert(is_digit(d[i]));
        }
    }
}

/// An entry line reads back as its pane id and icon.
proof fn lemma_parse_entry_body(k: u32, v: Seq<char>)
    requires
        storable_value(v),
    ensures
        parse_entry(entry_body(k, v)) == Some((k, v)),
        !entry_body(k, v).contains('\n'),
        strip_cr(entry_body(k, v)) == entry_body(k, v),
{
    let d = decimal(k as nat);
    lemma_decimal(k as nat);
    lemma_parse_decimal(k);
    lemma_digits_free(d);
    let b = entry_body(k, v);
    assert(b =~= d + seq!['='] + v);
    lemma_find_after(d, v, '=');
    assert(b.subrange(0, d.len() as int) =~= d);
    assert(b.subrange(d.len() as int + 1, b.len() as int) =~= v);
    assert(split_once(b, '=') == Some((d, v)));
    assert(!b.contains('\n')) by {
        if b.contains('\n') {
            let i = choose|i: int| 0 <= i < b.len() && b[i] == '\n';
            if i < d.len() {
                assert(d[i] == '\n');
            } else if i == d.len() {
            } else {
                assert(v[i - d.len() - 1] == '\n');
            }
        }
    }
    assert(b.last() == v.last());
}

/// The text form of a storable map splits at newlines into its entry lines and
/// one final empty piece.
proof fn lemma_split_serialized(m: Map<u32, Seq<char>>)
    requires
        m.dom().finite(),
        storable(m),
    ensures
        split_char(serialized_text(m), '\n') == entry_bodies(m).push(Seq::<char>::empty()),
        forall|i: int| 0 <= i < entry_bodies(m).len() ==> strip_cr(#[trigger] entry_bodies(m)[i]) == entry_bodies(m)[i],
    decreases m.dom().len(),
{
    if m.dom().len() == 0 {
        assert(serialized_text(m) =~= Seq::<char>::empty());
        assert(split_char(Seq::<char>::empty(), '\n') =~= seq![Seq::<char>::empty()]);
        assert(entry_bodies(m).push(Seq::<char>::empty()) =~= seq![Seq::<char>::empty()]);
    } else {
        let k = min_key(m);
        lemma_min_key(m);
        let rest = m.remove(k);
        assert(storable(rest));
        lemma_split_serialized(rest);
        lemma_parse_entry_body(k, m[k]);
        let b = entry_body(k, m[k]);
        assert(serialized_text(m) =~= b + seq!['\n'] + serialized_text(rest));
        lemma_split_concat(b, serialized_text(rest), '\n');
        lemma_split_none(b, '\n');
        assert(entry_bodies(m) == seq![b] + entry_bodies(rest));
        assert(split_char(serialized_text(m), '\n') =~= entry_bodies(m).push(Seq::<char>::empty()));
        assert forall|i: int| 0 <= i < entry_bodies(m).len() implies strip_cr(
            #[trigger] entry_bodies(m)[i],
        ) == entry_bodies(m)[i] by {
            if i > 0 {
                assert(entry_bodies(m)[i] == entry_bodies(rest)[i - 1]);
            }
        }
    }
}

/// Storing the entry lines of `m` on top of `acc` gives `acc` overridden by `m`.
proof fn lemma_insert_bodies(acc: Map<u32, Seq<char>>, m: Map<u32, Seq<char>>)
    requires
        m.dom().finite(),
        storable(m),
    ensures
        insert_entries(acc, entry_bodies(m)) == acc.union_prefer_right(m),
    decreases m.dom().len(),
{
    if m.dom().len() == 0 {
        assert(m.dom() =~= Set::<u32>::empty());
        assert(acc.union_prefer_right(m) =~= acc);
    } else {
        let k = min_key(m);
        lemma_min_key(m);
        let rest = m.remove(k);
        assert(storable(rest));
        lemma_parse_entry_body(k, m[k]);
        let bs = entry_bodies(m);
        assert(bs[0] == entry_body(k, m[k]));
        assert(bs.drop_first() =~= entry_bodies(rest));
        lemma_insert_bodies(acc.insert(k, m[k]), rest);
        assert(acc.insert(k, m[k]).union_prefer_right(rest) =~= acc.union_prefer_right(m));
    }
}

/// Law: a map whose icon texts are storable reads back from its text form
/// unchanged: `parse(serialize(m)) == m`.
pub proof fn lemma_parse_serialize(m: Map<u32, Seq<char>>)
    requires
        m.dom().finite(),
        storable(m),
    ensures
        parse_icons(serialized_text(m)) == m,
{
    lemma_split_serialized(m);
    let t = serialized_text(m);
    let p = split_char(t, '\n');
    assert(p.drop_last() =~= entry_bodies(m));
    assert(p.drop_last().map_values(|l: Seq<char>| strip_cr(l)) =~= entry_bodies(m));
    assert(lines(t) =~= entry_bodies(m));
    lemma_insert_bodies(Map::empty(), m);
    assert(Map::<u32, Seq<char>>::empty().union_prefer_right(m) =~= m);
}

/// Storing entries on top of a finite map gives a finite map.
proof fn lemma_insert_entries_finite(m: Map<u32, Seq<char>>, ls: Seq<Seq<char>>)
    requires
        m.dom().finite(),
    ensures
        insert_entries(m, ls).dom().finite(),
    decreases ls.len(),
{
    if ls.len() > 0 {
        let next = match parse_entry(ls[0]) {
            Some((k, v)) => m.insert(k, v),
            None => m,
        };
        lemma_insert_entries_finite(next, ls.drop_first());
    }
}

/// The icon map of a session file is finite.
pub proof fn lemma_stored_finite(current: Option<Seq<char>>)
    ensures
        stored_icons(current).dom().finite(),
{
    match current {
        Some(t) => lemma_insert_entries_finite(Map::empty(), lines(t)),
        None => assert(Map::<u32, Seq<char>>::empty().dom() =~= Set::<u32>::empty()),
    }
}

/// Law: persisting a pane's status and then reloading the session file gives
/// the file's former map with that one change applied (read-merge-write), when
/// the merged map is storable.
pub proof fn lemma_persist_then_reload(current: Option<Seq<char>>, pane_id: u32, value: Seq<char>)
    requires
        storable(status_update(stored_icons(current), pane_id, value)),
    ensures
        parse_icons(serialized_text(status_update(stored_icons(current), pane_id, value)))
            == status_update(stored_icons(current), pane_id, value),
{
    lemma_stored_finite(current);
    let m = status_update(stored_icons(current), pane_id, value);
    assert(m.dom().finite()) by {
        if value.len() == 0 {
            assert(m.dom() =~= stored_icons(current).dom().remove(pane_id));
        } else {
            assert(m.dom() =~= stored_icons(current).dom().insert(pane_id));
        }
    }
    lemma_parse_serialize(m);
}

/// Law: a status change sets (or, for an empty value, clears) its own pane and
/// leaves every other pane as it was.
pub proof fn lemma_status_update(m: Map<u32, Seq<char>>, pane_id: u32, value: Seq<char>, other: u32)
    requires
        other != pane_id,
    ensures
        value.len() == 0 ==> !status_update(m, pane_id, value).contains_key(pane_id),
        value.len() > 0 ==> status_update(m, pane_id, value).contains_key(pane_id) && status_update(
            m,
            pane_id,
            value,
        )[pane_id] == value,
        status_update(m, pane_id, value).contains_key(other) == m.contains_key(other),
        m.contains_key(other) ==> status_update(m, pane_id, value)[other] == m[other],
{
}

/// Law: two panes persisted one after the other, both with storable icons, are
/// both in the session file afterwards (the merge does not clobber the earlier
/// pane), when the file held a storable map to begin with.
pub proof fn lemma_sequential_persists(
    current: Option<Seq<char>>,
    first_id: u32,
    first: Seq<char>,
    second_id: u32,
    second: Seq<char>,
)
    requires
        first_id != second_id,
        storable(stored_icons(current)),
        storable_value(first),
        storable_value(second),
    ensures
        ({
            let after_first = serialized_text(status_update(stored_icons(current), first_id, first));
            let after_second = serialized_text(
                status_update(stored_icons(Some(after_first)), second_id, second),
            );
            &&& parse_icons(after_second).contains_key(first_id)
            &&& parse_icons(after_second)[first_id] == first
            &&& parse_icons(after_second).contains_key(second_id)
            &&& parse_icons(after_second)[second_id] == second
        }),
{
    let m1 = status_update(stored_icons(current), first_id, first);
    assert(storable(m1));
    lemma_persist_then_reload(current, first_id, first);
    let after_first = serialized_text(m1);
    assert(stored_icons(Some(after_first)) == m1);
    let m2 = status_update(m1, second_id, second);
    assert(storable(m2));
    lemma_persist_then_reload(Some(after_first), second_id, second);
}

/// Law: pruning and then reloading the session file gives exactly the live
/// panes' icons, when those are storable.
pub proof fn lemma_prune_then_reload(current: Option<Seq<char>>, live_ids: Set<u32>)
    requires
        storable(pruned_icons(current, live_ids)),
    ensures
        parse_icons(serialized_text(pruned_icons(current, live_ids))) == pruned_icons(
            current,
            live_ids,
        ),
        forall|k: u32| #[trigger] pruned_icons(current, live_ids).contains_key(k) ==> live_ids.contains(k),
{
    lemma_stored_finite(current);
    let m = pruned_icons(current, live_ids);
    assert(m.dom().subset_of(stored_icons(current).dom()));
    vstd::set_lib::lemma_set_subset_finite(stored_icons(current).dom(), m.dom());
    lemma_parse_serialize(m);
}

/// Law: the change that a `claude_status` command queues for the session file
/// is the one it made to the in-memory icons, so a session file that held the
/// in-memory map still holds it after the change is persisted and reloaded
/// (when the new map is storable).
pub proof fn lemma_icon_write_mirrors(
    s: StateView,
    pane_id: Seq<char>,
    value: Seq<char>,
    current: Option<Seq<char>>,
)
    requires
        s.session is Some,
        parse_u32_text(pane_id) is Some,
        stored_icons(current) == s.icons,
        storable(claude_status_effect(s, pane_id, value).icons),
    ensures
        ({
            let after = claude_status_effect(s, pane_id, value);
            let write = after.writes.last();
            &&& after.writes.len() == s.writes.len() + 1
            &&& write.0 == s.session->0
            &&& parse_icons(serialized_text(status_update(stored_icons(current), write.1, write.2)))
                == after.icons
        }),
{
    let id = parse_u32_text(pane_id)->0;
    let after = claude_status_effect(s, pane_id, value);
    assert(after.writes.last() == (s.session->0, id, value));
    lemma_persist_then_reload(current, id, value);
}

/// Law: the icon file name of a session keeps its length, consists of the
/// characters `[A-Za-z0-9_-]` only, and keeps every such character in place.
pub proof fn lemma_safe_name(session: Seq<char>)
    ensures
        safe_name(session).len() == session.len(),
        forall|i: int| 0 <= i < session.len() ==> is_name_char(#[trigger] safe_name(session)[i]),
        forall|i: int|
            0 <= i < session.len() && is_name_char(session[i]) ==> #[trigger] safe_name(session)[i]
                == session[i],
{
}

/// Splitting a text without `c` at a separator pair leaves every part without `c`.
proof fn lemma_scan_pair_free(
    s: Seq<char>,
    sep: char,
    i: int,
    done: Seq<Seq<char>>,
    cur: Seq<char>,
    c: char,
)
    requires
        0 <= i,
        !s.contains(c),
        !cur.contains(c),
        forall|k: int| 0 <= k < done.len() ==> !(#[trigger] done[k]).contains(c),
    ensures
        forall|k: int|
            0 <= k < scan_pair(s, sep, i, done, cur).len() ==> !(#[trigger] scan_pair(
                s,
                sep,
                i,
                done,
                cur,
            )[k]).contains(c),
    decreases s.len() - i,
{
    if i >= s.len() {
        let r = done.push(cur);
        assert(scan_pair(s, sep, i, done, cur) == r);
        assert forall|k: int| 0 <= k < r.len() implies !(#[trigger] r[k]).contains(c) by {
            if k < done.len() {
                assert(r[k] == done[k]);
            }
        }
    } else if i + 1 < s.len() && s[i] == sep && s[i + 1] == sep {
        let d2 = done.push(cur);
        assert forall|k: int| 0 <= k < d2.len() implies !(#[trigger] d2[k]).contains(c) by {
            if k < done.len() {
                assert(d2[k] == done[k]);
            }
        }
        lemma_scan_pair_free(s, sep, i + 2, d2, Seq::empty(), c);
        assert(scan_pair(s, sep, i, done, cur) == scan_pair(s, sep, i + 2, d2, Seq::empty()));
    } else {
        let c2 = cur.push(s[i]);
        assert(!c2.contains(c)) by {
            if c2.contains(c) {
                let j = choose|j: int| 0 <= j < c2.len() && c2[j] == c;
                if j < cur.len() {
                    assert(cur[j] == c);
                } else {
                    assert(s[i] == c);
                }
            }
        }
        lemma_scan_pair_free(s, sep, i + 1, done, c2, c);
        assert(scan_pair(s, sep, i, done, cur) == scan_pair(s, sep, i + 1, done, c2));
    }
}

/// Law: a pane icon delivered over the line protocol never holds a newline,
/// since the input is split into lines first (the protocol forbids newlines in
/// values, and the icon file's lines rely on it).
pub proof fn lemma_protocol_values_have_no_newline(input: Seq<char>, i: int)
    requires
        0 <= i < split_char(input, '\n').len(),
    ensures
        line_command(split_char(input, '\n')[i]) matches Some(LineCommand::ClaudeStatus(_, value))
            ==> !value.contains('\n'),
{
    crate::text::lemma_split_char_join(input, '\n');
    let line = split_char(input, '\n')[i];
    lemma_scan_pair_free(line, ':', 0, Seq::empty(), Seq::empty(), '\n');
    let parts = split_pair(line, ':');
    if parts.len() >= 4 {
        assert(!parts[3].contains('\n'));
    }
}

/// Law: when no line changed the state, handling the lines leaves the state as
/// it was (so a `false` from `parse_protocol` means nothing changed).
pub proof fn lemma_no_change_keeps_state(s: StateView, ls: Seq<Seq<char>>, clock: Seq<i64>)
    requires
        !lines_change(s, ls, clock),
    ensures
        same_state(s, apply_lines(s, ls, clock)),
    decreases ls.len(),
{
    if ls.len() > 0 {
        lemma_no_change_keeps_state(s, ls.drop_last(), clock.drop_last());
    }
}

/// Handling `la` then `lb` is handling `la + lb`, clock readings included.
proof fn lemma_apply_lines_concat(
    s: StateView,
    la: Seq<Seq<char>>,
    ca: Seq<i64>,
    lb: Seq<Seq<char>>,
    cb: Seq<i64>,
)
    requires
        la.len() == ca.len(),
        lb.len() == cb.len(),
    ensures
        apply_lines(s, la + lb, ca + cb) == apply_lines(apply_lines(s, la, ca), lb, cb),
        lines_change(s, la + lb, ca + cb) == (lines_change(s, la, ca) || lines_change(
            apply_lines(s, la, ca),
            lb,
            cb,
        )),
    decreases lb.len(),
{
    if lb.len() == 0 {
        assert(la + lb =~= la);
        assert(ca + cb =~= ca);
    } else {
        lemma_apply_lines_concat(s, la, ca, lb.drop_last(), cb.drop_last());
        assert((la + lb).drop_last() =~= la + lb.drop_last());
        assert((ca + cb).drop_last() =~= ca + cb.drop_last());
        assert((la + lb).last() == lb.last());
        assert((ca + cb).last() == cb.last());
    }
}

/// Law: handling the message `a\nb` is handling `a` and then `b`: with the same
/// clock readings, the final state is the same, and it reports a change exactly
/// when one of the two would.
pub proof fn lemma_protocol_concat(
    s: StateView,
    a: Seq<char>,
    b: Seq<char>,
    ca: Seq<i64>,
    cb: Seq<i64>,
)
    requires
        ca.len() == split_char(a, '\n').len(),
        cb.len() == split_char(b, '\n').len(),
    ensures
        ({
            let whole = split_char(a + seq!['\n'] + b, '\n');
            let first = apply_lines(s, split_char(a, '\n'), ca);
            &&& whole == split_char(a, '\n') + split_char(b, '\n')
            &&& apply_lines(s, whole, ca + cb) == apply_lines(first, split_char(b, '\n'), cb)
            &&& lines_change(s, whole, ca + cb) == (lines_change(s, split_char(a, '\n'), ca)
                || lines_change(first, split_char(b, '\n'), cb))
        }),
{
    lemma_split_concat(a, b, '\n');
    lemma_apply_lines_concat(s, split_char(a, '\n'), ca, split_char(b, '\n'), cb);
}

/// Law: pruning a session file to the live panes keeps exactly the stored
/// icons of the live panes, and rewrites the file exactly when the file is
/// there and holds a pane that is not live, whether or not any live pane
/// remains; when every stored pane is dead, the file is rewritten empty.
pub proof fn lemma_prune(current: Option<Seq<char>>, live_ids: Set<u32>)
    ensures
        prune_rewrites(current, live_ids) <==> (current is Some && exists|k: u32|
            #[trigger] stored_icons(current).contains_key(k) && !live_ids.contains(k)),
        forall|k: u32| #[trigger] pruned_icons(current, live_ids).contains_key(k) <==> (stored_icons(
            current,
        ).contains_key(k) && live_ids.contains(k)),
        forall|k: u32| #[trigger] pruned_icons(current, live_ids).contains_key(k) ==> pruned_icons(
            current,
            live_ids,
        )[k] == stored_icons(current)[k],
        (current is Some && (exists|k: u32| #[trigger] stored_icons(current).contains_key(k))
            && forall|k: u32| #[trigger] stored_icons(current).contains_key(k) ==> !live_ids.contains(k))
            ==> prune_rewrites(current, live_ids) && serialized_text(pruned_icons(current, live_ids))
            == Seq::<char>::empty(),
{
    let m = pruned_icons(current, live_ids);
    if forall|k: u32| #[trigger] stored_icons(current).contains_key(k) ==> !live_ids.contains(k) {
        assert(m.dom() =~= Set::<u32>::empty());
        assert(m.dom().len() == 0);
    }
}

/// Law: the file-safe form of a session name has the name's length, keeps
/// every ASCII letter (`A`-`Z`, `a`-`z`), digit (`0`-`9`), `-` and `_` in
/// place, and has `_` in place of every other character.
pub proof fn lemma_safe_name_chars(session: Seq<char>)
    ensures
        safe_name(session).len() == session.len(),
        forall|i: int|
            0 <= i < session.len() ==> #[trigger] safe_name(session)[i] == if ('A' <= session[i]
                && session[i] <= 'Z') || ('a' <= session[i] && session[i] <= 'z') || ('0'
                <= session[i] && session[i] <= '9') || session[i] == '-' || session[i] == '_' {
                session[i]
            } else {
                '_'
            },
{
}

/// Law: a session's icon file is `/tmp/zjstatus/<safe name>.icons`, and two
/// sessions whose safe names differ get different files.
pub proof fn lemma_icon_path(session: Seq<char>, other: Seq<char>)
    ensures
        icon_path(session) == "/tmp/zjstatus/"@ + safe_name(session) + ".icons"@,
        safe_name(session) != safe_name(other) ==> icon_path(session) != icon_path(other),
{
    reveal_strlit("/tmp/zjstatus/");
    reveal_strlit("/tmp/zjstatus");
    reveal_strlit(".icons");
    assert(ICON_DIR@ == "/tmp/zjstatus"@);
    assert(ICON_EXT@ == ".icons"@);
    assert(icon_path(session) =~= "/tmp/zjstatus/"@ + safe_name(session) + ".icons"@);
    assert(icon_path(other) =~= "/tmp/zjstatus/"@ + safe_name(other) + ".icons"@);
    if icon_path(session) == icon_path(other) {
        let a = safe_name(session);
        let b = safe_name(other);
        assert(a.len() == b.len());
        assert(a =~= icon_path(session).subrange(14, 14 + a.len() as int));
        assert(b =~= icon_path(other).subrange(14, 14 + b.len() as int));
    }
}

/// The pane ids of a finite map, smallest first.
pub open spec fn sorted_ids(m: Map<u32, Seq<char>>) -> Seq<u32>
    decreases m.dom().len(),
    when m.dom().finite()
{
    if m.dom().len() == 0 {
        Seq::empty()
    } else {
        let k = min_key(m);
        proof {
            lemma_min_key(m);
        }
        seq![k] + sorted_ids(m.remove(k))
    }
}

/// The ids of `sorted_ids` are the map's keys, strictly increasing, and the
/// entry lines follow them.
proof fn lemma_sorted_ids(m: Map<u32, Seq<char>>)
    requires
        m.dom().finite(),
    ensures
        sorted_ids(m).len() == m.dom().len(),
        forall|i: int, j: int| 0 <= i < j < sorted_ids(m).len() ==> sorted_ids(m)[i] < sorted_ids(m)[j],
        forall|k: u32| m.contains_key(k) <==> sorted_ids(m).contains(k),
        entry_bodies(m).len() == m.dom().len(),
        forall|i: int|
            0 <= i < sorted_ids(m).len() ==> #[trigger] entry_bodies(m)[i] == entry_body(
                sorted_ids(m)[i],
                m[sorted_ids(m)[i]],
            ),
    decreases m.dom().len(),
{
    if m.dom().len() > 0 {
        let k = min_key(m);
        lemma_min_key(m);
        let rest = m.remove(k);
        assert(rest.dom() =~= m.dom().remove(k));
        lemma_sorted_ids(rest);
        let ids = sorted_ids(m);
        let r = sorted_ids(rest);
        assert(ids == seq![k] + r);
        assert forall|i: int, j: int| 0 <= i < j < ids.len() implies ids[i] < ids[j] by {
            if i == 0 {
                assert(ids[j] == r[j - 1]);
                assert(r.contains(r[j - 1]));
                assert(rest.contains_key(r[j - 1]));
                assert(m.dom().contains(r[j - 1]));
            } else {
                assert(ids[i] == r[i - 1] && ids[j] == r[j - 1]);
            }
        }
        assert forall|x: u32| m.contains_key(x) <==> ids.contains(x) by {
            if m.contains_key(x) {
                if x == k {
                    assert(ids[0] == k);
                } else {
                    assert(rest.contains_key(x));
                    let i = choose|i: int| 0 <= i < r.len() && r[i] == x;
                    assert(ids[i + 1] == x);
                }
            }
            if ids.contains(x) {
                let i = choose|i: int| 0 <= i < ids.len() && ids[i] == x;
                if i > 0 {
                    assert(r[i - 1] == x);
                    assert(r.contains(x));
                }
            }
        }
        let bs = entry_bodies(m);
        assert(bs == seq![entry_body(k, m[k])] + entry_bodies(rest));
        assert forall|i: int| 0 <= i < ids.len() implies #[trigger] bs[i] == entry_body(ids[i], m[ids[i]]) by {
            if i > 0 {
                assert(bs[i] == entry_bodies(rest)[i - 1]);
                assert(ids[i] == r[i - 1]);
                assert(r.contains(r[i - 1]));
            }
        }
    } else {
        assert(sorted_ids(m) == Seq::<u32>::empty());
        assert(entry_bodies(m) == Seq::<Seq<char>>::empty());
    }
}

/// Law: the text form of a map whose icons are storable is one line
/// `<id>=<icon>` (the id in decimal) per pane, each ended by a newline, in
/// strictly increasing pane-id order, with nothing else.
pub proof fn lemma_serialized_lines(m: Map<u32, Seq<char>>)
    requires
        m.dom().finite(),
        storable(m),
    ensures
        ({
            let ids = sorted_ids(m);
            let ls = split_char(serialized_text(m), '\n');
            &&& ids.len() == m.dom().len()
            &&& forall|i: int, j: int| 0 <= i < j < ids.len() ==> ids[i] < ids[j]
            &&& forall|k: u32| m.contains_key(k) <==> ids.contains(k)
            &&& ls.len() == ids.len() + 1
            &&& ls.last() == Seq::<char>::empty()
            &&& forall|i: int|
                0 <= i < ids.len() ==> #[trigger] ls[i] == decimal(ids[i] as nat) + seq!['='] + m[ids[i]]
        }),
{
    lemma_sorted_ids(m);
    lemma_split_serialized(m);
    let ids = sorted_ids(m);
    let ls = split_char(serialized_text(m), '\n');
    assert forall|i: int| 0 <= i < ids.len() implies #[trigger] ls[i] == decimal(ids[i] as nat) + seq!['=']
        + m[ids[i]] by {
        assert(ls[i] == entry_bodies(m)[i]);
    }
}

/// A text without `c` has no first `c`.
proof fn lemma_find_none(x: Seq<char>, c: char)
    requires
        !x.contains(c),
    ensures
        find_char(x, c) is None,
    decreases x.len(),
{
    if x.len() > 0 {
        assert(x[0] != c);
        assert(!x.drop_first().contains(c)) by {
            if x.drop_first().contains(c) {
                let i = choose|i: int| 0 <= i < x.drop_first().len() && x.drop_first()[i] == c;
                assert(x[i + 1] == c);
            }
        }
        lemma_find_none(x.drop_first(), c);
    }
}

/// Storing one more line after `ls` stores it on top of what `ls` gave.
proof fn lemma_insert_entries_push(m: Map<u32, Seq<char>>, ls: Seq<Seq<char>>, x: Seq<char>)
    ensures
        insert_entries(m, ls.push(x)) == match parse_entry(x) {
            Some((k, v)) => insert_entries(m, ls).insert(k, v),
            None => insert_entries(m, ls),
        },
    decreases ls.len(),
{
    if ls.len() == 0 {
        let one = ls.push(x);
        assert(one.drop_first() =~= Seq::<Seq<char>>::empty());
        assert(one[0] == x);
        let next = match parse_entry(x) {
            Some((k, v)) => m.insert(k, v),
            None => m,
        };
        assert(insert_entries(m, one) == insert_entries(next, one.drop_first()));
        assert(insert_entries(next, Seq::<Seq<char>>::empty()) == next);
        assert(insert_entries(m, ls) == m);
    } else {
        let next = match parse_entry(ls[0]) {
            Some((k, v)) => m.insert(k, v),
            None => m,
        };
        assert(ls.push(x).drop_first() =~= ls.drop_first().push(x));
        assert(ls.push(x)[0] == ls[0]);
        lemma_insert_entries_push(next, ls.drop_first(), x);
    }
}

/// The lines of a text that ends a line, followed by one more line `x` (no
/// newline in it) and a newline, are its lines and then `x` (without a final
/// carriage return).
proof fn lemma_lines_push(a: Seq<char>, x: Seq<char>)
    requires
        a.len() == 0 || a.last() == '\n',
        !x.contains('\n'),
    ensures
        lines(a + x + seq!['\n']) == lines(a).push(strip_cr(x)),
{
    let t = a + x + seq!['\n'];
    lemma_split_none(x, '\n');
    lemma_split_concat(x, Seq::<char>::empty(), '\n');
    assert(x + seq!['\n'] + Seq::<char>::empty() =~= x + seq!['\n']);
    assert(split_char(Seq::<char>::empty(), '\n') =~= seq![Seq::<char>::empty()]);
    let tail = split_char(x + seq!['\n'], '\n');
    assert(tail =~= seq![x, Seq::<char>::empty()]);
    if a.len() == 0 {
        assert(t =~= x + seq!['\n']);
        assert(lines(a) =~= Seq::<Seq<char>>::empty());
        assert(lines(t) =~= lines(a).push(strip_cr(x)));
    } else {
        let a0 = a.drop_last();
        assert(a =~= a0 + seq!['\n'] + Seq::<char>::empty());
        lemma_split_concat(a0, Seq::<char>::empty(), '\n');
        assert(t =~= a0 + seq!['\n'] + (x + seq!['\n']));
        lemma_split_concat(a0, x + seq!['\n'], '\n');
        let p0 = split_char(a0, '\n');
        assert(split_char(a, '\n') =~= p0 + seq![Seq::<char>::empty()]);
        assert(split_char(t, '\n') =~= p0 + seq![x, Seq::<char>::empty()]);
        assert(lines(a) =~= p0.map_values(|l: Seq<char>| strip_cr(l)));
        assert(lines(t) =~= lines(a).push(strip_cr(x)));
    }
}

/// Law: appending the line `<id>=<icon>` to a text form (after a whole line,
/// or to an empty text) sets that pane's icon, whatever earlier lines said
/// (later lines win), and keeps the other panes; appending a line without `=`
/// changes nothing (malformed lines are skipped).
pub proof fn lemma_parse_append(a: Seq<char>, k: u32, v: Seq<char>, junk: Seq<char>)
    requires
        a.len() == 0 || a.last() == '\n',
        storable_value(v),
        !junk.contains('='),
        !junk.contains('\n'),
    ensures
        parse_icons(a + decimal(k as nat) + seq!['='] + v + seq!['\n']) == parse_icons(a).insert(k, v),
        parse_icons(a + junk + seq!['\n']) == parse_icons(a),
{
    let b = entry_body(k, v);
    lemma_parse_entry_body(k, v);
    assert(a + decimal(k as nat) + seq!['='] + v + seq!['\n'] =~= a + b + seq!['\n']);
    lemma_lines_push(a, b);
    lemma_insert_entries_push(Map::empty(), lines(a), b);
    lemma_lines_push(a, junk);
    let j = strip_cr(junk);
    assert(!j.contains('=')) by {
        if j.contains('=') {
            let i = choose|i: int| 0 <= i < j.len() && j[i] == '=';
            assert(junk[i] == '=');
        }
    }
    lemma_find_none(j, '=');
    lemma_insert_entries_push(Map::empty(), lines(a), j);
}

/// Law: the temporary file that a new icon file is written to sits beside the
/// icon file and is named `<icon file>.<token>.tmp`.
pub proof fn lemma_temp_path(session: Seq<char>, token: Seq<char>)
    ensures
        temp_path(session, token) == "/tmp/zjstatus/"@ + safe_name(session) + ".icons"@ + "."@ + token
            + ".tmp"@,
{
    reveal_strlit(".");
    reveal_strlit(".tmp");
    assert(TEMP_EXT@ == ".tmp"@);
    lemma_icon_path(session, session);
    assert(temp_path(session, token) =~= "/tmp/zjstatus/"@ + safe_name(session) + ".icons"@ + "."@
        + token + ".tmp"@);
}

} // verus!
