//! The per-pane icon map that every plugin instance mirrors to a per-session
//! file: the file's name, its text form (one `id=value` line per pane), and the
//! read-merge-write steps applied to it.

use std::collections::{BTreeMap, BTreeSet};

use vstd::prelude::*;
use vstd::std_specs::iter::IteratorSpec;

use crate::decimal::{decimal, parse_u32, parse_u32_text, push_decimal};
use crate::text::{chars_of, copy_range, find_first, lines, lines_of, split_once, string_from_chars, views};

verus! {

broadcast use vstd::std_specs::btree::group_btree_axioms;

/// The directory that holds the per-session icon files.
pub const ICON_DIR: &'static str = "/tmp/zjstatus";

/// The extension of a session's icon file.
pub const ICON_EXT: &'static str = ".icons";

/// The extension of the temporary file that a new icon file is written to.
pub const TEMP_EXT: &'static str = ".tmp";

/// A character kept as is in an icon file name: `[A-Za-z0-9_-]`.
pub open spec fn is_name_char(c: char) -> bool {
    ('a' <= c && c <= 'z') || ('A' <= c && c <= 'Z') || ('0' <= c && c <= '9') || c == '-' || c
        == '_'
}

/// `session` with every character outside `[A-Za-z0-9_-]` replaced by `_`.
pub open spec fn safe_name(session: Seq<char>) -> Seq<char> {
    session.map_values(|c: char| if is_name_char(c) { c } else { '_' })
}

/// The icon file of a session: `<ICON_DIR>/<safe name>.icons`.
pub open spec fn icon_path(session: Seq<char>) -> Seq<char> {
    ICON_DIR@ + seq!['/'] + safe_name(session) + ICON_EXT@
}

/// The temporary file that a new icon file for `session` is written to before
/// it is renamed over the icon file: `<icon file>.<token>.tmp`.
pub open spec fn temp_path(session: Seq<char>, token: Seq<char>) -> Seq<char> {
    icon_path(session) + seq!['.'] + token + TEMP_EXT@
}

fn name_char(c: char) -> (r: char)
    ensures
        r == (if is_name_char(c) { c } else { '_' }),
{
    if ('a' <= c && c <= 'z') || ('A' <= c && c <= 'Z') || ('0' <= c && c <= '9') || c == '-' || c
        == '_' {
        c
    } else {
        '_'
    }
}

fn push_icon_path(out: &mut Vec<char>, session: &str)
    ensures
        final(out)@ == old(out)@ + icon_path(session@),
{
    let dir = chars_of(ICON_DIR);
    push_all(out, &dir);
    out.push('/');
    let cs = chars_of(session);
    let ghost start = out@;
    let mut i: usize = 0;
    while i < cs.len()
        invariant
            i <= cs@.len(),
            cs@ == session@,
            out@ == start + safe_name(cs@).take(i as int),
        decreases cs@.len() - i,
    {
        let c = name_char(cs[i]);
        out.push(c);
        i = i + 1;
        assert(safe_name(cs@).take(i as int) =~= safe_name(cs@).take(i - 1).push(c));
    }
    assert(safe_name(cs@).take(i as int) =~= safe_name(cs@));
    let ext = chars_of(ICON_EXT);
    push_all(out, &ext);
    assert(final(out)@ =~= old(out)@ + icon_path(session@)) by {
        assert(icon_path(session@) =~= ICON_DIR@ + seq!['/'] + safe_name(session@) + ICON_EXT@);
    }
}

/// `t` is the text of a random UUID as `uuid::Uuid::new_v4` and its `Display`
/// give it: 36 characters, hyphens at positions 8, 13, 18 and 23, lower-case hex
/// digits elsewhere, version digit `4` at position 14 and variant digit `8`, `9`,
/// `a` or `b` at position 19.
pub open spec fn is_v4_uuid_text(t: Seq<char>) -> bool {
    &&& t.len() == 36
    &&& forall|i: int|
        0 <= i < 36 ==> if i == 8 || i == 13 || i == 18 || i == 23 {
            #[trigger] t[i] == '-'
        } else {
            ('0' <= t[i] && t[i] <= '9') || ('a' <= t[i] && t[i] <= 'f')
        }
    &&& t[14] == '4'
    &&& (t[19] == '8' || t[19] == '9' || t[19] == 'a' || t[19] == 'b')
}

/// A fresh random token.
///
/// Trusted: wraps `uuid::Uuid::new_v4` and renders the result with its
/// `Display` impl. The contract claims only the shape of the text (hyphenated,
/// lower-case, version 4, RFC variant), which is what `new_v4` (masking the
/// version and variant bits of a random `u128`) and the hyphenated lower-hex
/// formatter produce; the random digits themselves are left unsaid. `new_v4`
/// panics when the system's random source fails, which no clause excludes.
#[verifier::external_body]
fn new_v4_text() -> (t: String)
    ensures
        is_v4_uuid_text(t@),
{
    uuid::Uuid::new_v4().to_string()
}

/// A fresh temporary file for writing the icon file of `session`: the icon
/// file's path followed by `.`, a new random version-4 UUID, and `.tmp`.
pub fn fresh_icon_temp_file(session: &str) -> (path: String)
    ensures
        exists|token: Seq<char>| is_v4_uuid_text(token) && path@ == temp_path(session@, token),
{
    let token = new_v4_text();
    icon_temp_file(session, token.as_str())
}

/// Filesystem-safe icon-file path for a session (non `[A-Za-z0-9_-]` -> `_`).
pub fn icon_file(session: &str) -> (path: String)
    ensures
        path@ == icon_path(session@),
        path@ == ICON_DIR@ + seq!['/'] + session@.map_values(
            |c: char|
                if ('a' <= c && c <= 'z') || ('A' <= c && c <= 'Z') || ('0' <= c && c <= '9') || c
                    == '-' || c == '_' {
                    c
                } else {
                    '_'
                },
        ) + ICON_EXT@,
{
    let mut out: Vec<char> = Vec::new();
    push_icon_path(&mut out, session);
    assert(out@ =~= icon_path(session@));
    string_from_chars(&out)
}

/// The temporary file that the next icon file of `session` is written to,
/// named with `token`.
pub fn icon_temp_file(session: &str, token: &str) -> (path: String)
    ensures
        path@ == temp_path(session@, token@),
{
    let mut out: Vec<char> = Vec::new();
    push_icon_path(&mut out, session);
    out.push('.');
    let t = chars_of(token);
    push_all(&mut out, &t);
    let ext = chars_of(TEMP_EXT);
    push_all(&mut out, &ext);
    assert(out@ =~= temp_path(session@, token@));
    string_from_chars(&out)
}

/// The map of pane ids to icon texts held by a `BTreeMap<u32, String>`.
pub open spec fn icon_texts(m: Map<u32, String>) -> Map<u32, Seq<char>> {
    m.map_values(|s: String| s@)
}

/// The order on pane ids.
pub open spec fn id_le() -> spec_fn(u32, u32) -> bool {
    |a: u32, b: u32| a <= b
}

/// The smallest pane id of a non-empty map.
pub open spec fn min_key(m: Map<u32, Seq<char>>) -> u32 {
    m.dom().find_unique_minimal(id_le())
}

/// The smallest key of a finite, non-empty map is a key, and no key is smaller.
pub proof fn lemma_min_key(m: Map<u32, Seq<char>>)
    requires
        m.dom().finite(),
        m.dom().len() > 0,
    ensures
        m.dom().contains(min_key(m)),
        forall|k: u32| m.dom().contains(k) ==> min_key(m) <= k,
{
    assert(vstd::relations::total_ordering(id_le()));
    m.dom().find_unique_minimal_ensures(id_le());
    let mk = min_key(m);
    assert(vstd::relations::is_minimal(id_le(), mk, m.dom()));
    assert forall|k: u32| m.dom().contains(k) implies mk <= k by {
        if !(mk <= k) {
            assert(id_le()(k, mk));
            assert(id_le()(mk, k));
        }
    }
}

/// A key that no other key undercuts is the smallest key.
pub proof fn lemma_min_key_is(m: Map<u32, Seq<char>>, k: u32)
    requires
        m.dom().finite(),
        m.dom().contains(k),
        forall|j: u32| m.dom().contains(j) ==> k <= j,
    ensures
        min_key(m) == k,
{
    assert(vstd::relations::total_ordering(id_le()));
    m.dom().find_unique_minimal_ensures(id_le());
    assert(vstd::relations::is_minimal(id_le(), k, m.dom()));
}

/// The line that stores pane `id` with icon `value`.
pub open spec fn entry_line(id: u32, value: Seq<char>) -> Seq<char> {
    entry_body(id, value).push('\n')
}

/// An entry line without its newline: `id=value`.
pub open spec fn entry_body(id: u32, value: Seq<char>) -> Seq<char> {
    decimal(id as nat) + seq!['='] + value
}

/// The text form of an icon map: one `id=value` line per entry, by increasing id.
pub open spec fn serialized_text(m: Map<u32, Seq<char>>) -> Seq<char>
    decreases m.dom().len(),
    when m.dom().finite()
{
    if m.dom().len() == 0 {
        Seq::empty()
    } else {
        let k = min_key(m);
        proof {
            lemma_min_key(m);
        }
        entry_line(k, m[k]) + serialized_text(m.remove(k))
    }
}

/// The pane ids of an iteration over a `BTreeMap<u32, String>`.
pub open spec fn iter_keys(v: Seq<(&u32, &String)>) -> Seq<u32> {
    v.map_values(|kv: (&u32, &String)| *kv.0)
}

/// Pane ids are ordered the way `BTreeMap` needs for its contracts to apply.
proof fn lemma_ids_ordered()
    ensures
        vstd::std_specs::btree::key_obeys_cmp_spec::<u32>(),
{
    assert(vstd::laws_cmp::obeys_cmp::<u32>());
}

/// In a strictly increasing sequence of ids, earlier ids are smaller.
proof fn lemma_increasing_ids(keys: Seq<u32>, i: int, j: int)
    requires
        vstd::std_specs::btree::increasing_seq(keys),
        0 <= i < j < keys.len(),
    ensures
        keys[i] < keys[j],
{
    assert(vstd::laws_cmp::obeys_cmp::<u32>());
    let a = keys[i];
    let b = keys[j];
    assert(vstd::std_specs::cmp::OrdSpec::cmp_spec(&a, &b) is Less);
}

/// What an iteration over a `BTreeMap<u32, String>` visits: every entry of
/// the map once, by strictly increasing pane id.
proof fn lemma_ordered_entries(map: &BTreeMap<u32, String>, v: Seq<(&u32, &String)>)
    requires
        v == vstd::std_specs::btree::spec_btree_map_iter(map).remaining(),
        vstd::std_specs::btree::increasing_seq(v.map_values(|kv: (&u32, &String)| *kv.0)),
    ensures
        forall|i: int, j: int| 0 <= i < j < v.len() ==> iter_keys(v)[i] < iter_keys(v)[j],
        forall|i: int|
            0 <= i < v.len() ==> #[trigger] map@.contains_key(*v[i].0) && map@[*v[i].0] == *v[i].1,
        forall|k: u32| #[trigger] map@.contains_key(k) <==> exists|j: int|
            0 <= j < v.len() && iter_keys(v)[j] == k,
{
    let keys = iter_keys(v);
    assert(keys =~= v.map_values(|kv: (&u32, &String)| *kv.0));
    assert forall|i: int, j: int| 0 <= i < j < v.len() implies keys[i] < keys[j] by {
        lemma_increasing_ids(keys, i, j);
    }
    assert forall|i: int| 0 <= i < v.len() implies #[trigger] map@.contains_key(*v[i].0)
        && map@[*v[i].0] == *v[i].1 by {
        let e = v[i];
        assert(map@.contains_key(*e.0));
    }
    assert forall|k: u32| #[trigger] map@.contains_key(k) <==> exists|j: int|
        0 <= j < v.len() && keys[j] == k by {
        if map@.contains_key(k) {
            assert(v.contains((&k, &map@[k])));
            let j = choose|j: int| 0 <= j < v.len() && v[j] == (&k, &map@[k]);
            assert(keys[j] == k);
        }
        if exists|j: int| 0 <= j < v.len() && keys[j] == k {
            let j = choose|j: int| 0 <= j < v.len() && keys[j] == k;
            assert(map@.contains_key(*v[j].0));
        }
    }
}

/// Appends the characters of `s` to `out`.
pub fn push_all(out: &mut Vec<char>, s: &[char])
    ensures
        final(out)@ == old(out)@ + s@,
{
    let mut j: usize = 0;
    while j < s.len()
        invariant
            j <= s@.len(),
            out@ == old(out)@ + s@.take(j as int),
        decreases s@.len() - j,
    {
        out.push(s[j]);
        j = j + 1;
        assert(s@.take(j as int) =~= s@.take(j - 1).push(s@[j - 1]));
    }
    assert(s@.take(j as int) =~= s@);
}

/// Renders the per-pane icon map as one `id=value` line per entry, in increasing
/// id order. Values never contain newlines (the pipe protocol forbids them).
pub fn serialize(icons: &BTreeMap<u32, String>) -> (out: String)
    ensures
        out@ == serialized_text(icon_texts(icons@)),
{
    let ghost m = icon_texts(icons@);
    let mut out: Vec<char> = Vec::new();
    let ghost mut rest = m;
    assert(m.dom() =~= icons@.dom());
    assert(m.dom().finite());
    proof {
        lemma_ids_ordered();
    }
    let entries = icons.iter();
    let ghost v0 = entries.remaining();
    let ghost keys0 = iter_keys(v0);
    proof {
        lemma_ordered_entries(icons, v0);
        assert forall|k: u32| #[trigger] rest.dom().contains(k) <==> exists|j: int|
            0 <= j < v0.len() && keys0[j] == k by {
            assert(rest.dom().contains(k) == icons@.contains_key(k));
        }
    }
    for kv in it: entries
        invariant
            m == icon_texts(icons@),
            it.seq() == v0,
            keys0 == iter_keys(v0),
            forall|i: int, j: int| 0 <= i < j < keys0.len() ==> keys0[i] < keys0[j],
            forall|i: int| 0 <= i < v0.len() ==> #[trigger] icons@.contains_key(*v0[i].0) && icons@[*v0[i].0] == *v0[i].1,
            m.dom().finite(),
            rest.dom().finite(),
            forall|k: u32| #[trigger] rest.dom().contains(k) ==> m.dom().contains(k) && rest[k] == m[k],
            forall|k: u32| #[trigger] rest.dom().contains(k) <==> exists|j: int|
                it.index() <= j < it.seq().len() && iter_keys(it.seq())[j] == k,
            out@ + serialized_text(rest) == serialized_text(m),
    {
        let (id, value) = kv;
        let ghost v = it.seq();
        let ghost keys = iter_keys(v);
        let ghost idx = it.index();
        assert(keys[idx] == *id);
        proof {
            assert(rest.dom().contains(*id));
            assert forall|j: u32| rest.dom().contains(j) implies *id <= j by {
                let jj = choose|jj: int| idx <= jj < v.len() && keys[jj] == j;
                if jj != idx {
                    assert(keys[idx] < keys[jj]);
                }
            }
            lemma_min_key_is(rest, *id);
        }
        push_decimal(&mut out, *id as u64);
        out.push('=');
        let vs = chars_of(value.as_str());
        push_all(&mut out, &vs);
        out.push('\n');
        proof {
            rest = rest.remove(*id);
        }
    }
    proof {
        assert(rest.dom() =~= Set::<u32>::empty());
    }
    string_from_chars(&out)
}

/// The pane id and icon of one line of the text form: the text before the first
/// `=` must parse as a `u32` and the text after it must not be empty.
pub open spec fn parse_entry(line: Seq<char>) -> Option<(u32, Seq<char>)> {
    match split_once(line, '=') {
        None => None,
        Some((id, value)) => match parse_u32_text(id) {
            None => None,
            Some(n) => if value.len() == 0 {
                None
            } else {
                Some((n, value))
            },
        },
    }
}

/// `m` with the entries of `ls` stored in order (later lines win); lines that
/// are not entries are skipped.
pub open spec fn insert_entries(m: Map<u32, Seq<char>>, ls: Seq<Seq<char>>) -> Map<u32, Seq<char>>
    decreases ls.len(),
{
    if ls.len() == 0 {
        m
    } else {
        let next = match parse_entry(ls[0]) {
            Some((k, v)) => m.insert(k, v),
            None => m,
        };
        insert_entries(next, ls.drop_first())
    }
}

/// The icon map that a text form denotes.
pub open spec fn parse_icons(text: Seq<char>) -> Map<u32, Seq<char>> {
    insert_entries(Map::empty(), lines(text))
}

/// Parses the text form back into a map, skipping malformed/empty lines.
pub fn parse(text: &str) -> (map: BTreeMap<u32, String>)
    ensures
        icon_texts(map@) == parse_icons(text@),
{
    let chars = chars_of(text);
    let ls = lines_of(&chars);
    let ghost all = views(ls@);
    let mut map: BTreeMap<u32, String> = BTreeMap::new();
    assert(icon_texts(map@) =~= Map::<u32, Seq<char>>::empty());
    assert(all.skip(0) =~= all);
    let mut i: usize = 0;
    while i < ls.len()
        invariant
            i <= ls@.len(),
            all == views(ls@),
            all == lines(text@),
            insert_entries(icon_texts(map@), all.skip(i as int)) == parse_icons(text@),
        decreases ls@.len() - i,
    {
        let line = &ls[i];
        let ghost rest = all.skip(i as int);
        assert(rest[0] == line@);
        assert(rest.drop_first() =~= all.skip(i + 1));
        match find_first(line, '=') {
            None => {},
            Some(p) => {
                let line_len = line.len();
                assert(p < line_len);
                let id_chars = copy_range(line, 0, p);
                let value_chars = copy_range(line, p + 1, line_len);
                match parse_u32(&id_chars) {
                    None => {},
                    Some(n) => {
                        if value_chars.len() > 0 {
                            let value = string_from_chars(&value_chars);
                            let ghost before = icon_texts(map@);
                            map.insert(n, value);
                            assert(icon_texts(map@) =~= before.insert(n, value_chars@));
                        }
                    },
                }
            },
        }
        i = i + 1;
    }
    map
}

/// A pane's status change applied to an icon map: an empty value clears the
/// pane, any other value becomes its icon.
pub open spec fn status_update(m: Map<u32, Seq<char>>, pane_id: u32, value: Seq<char>) -> Map<
    u32,
    Seq<char>,
> {
    if value.len() == 0 {
        m.remove(pane_id)
    } else {
        m.insert(pane_id, value)
    }
}

/// Applies a single pane's status change to an icon map: an empty value clears
/// the pane, any other value becomes its icon; other panes are untouched.
pub fn apply_status(icons: &mut BTreeMap<u32, String>, pane_id: u32, value: &str)
    ensures
        icon_texts(final(icons)@) == status_update(icon_texts(old(icons)@), pane_id, value@),
{
    let ghost before = icon_texts(icons@);
    if value.is_empty() {
        icons.remove(&pane_id);
        assert(icon_texts(icons@) =~= before.remove(pane_id));
    } else {
        icons.insert(pane_id, value.to_owned());
        assert(icon_texts(icons@) =~= before.insert(pane_id, value@));
    }
}

/// The text of an optional string slice.
pub open spec fn text_of(t: Option<&str>) -> Option<Seq<char>> {
    match t {
        Some(s) => Some(s@),
        None => None,
    }
}

/// The icon map held by a session file with contents `current` (`None` when the
/// file is absent or unreadable: no icons).
pub open spec fn stored_icons(current: Option<Seq<char>>) -> Map<u32, Seq<char>> {
    match current {
        Some(t) => parse_icons(t),
        None => Map::empty(),
    }
}

/// The icon map that a session file with contents `current` holds (`None`:
/// absent or unreadable, so empty).
pub fn stored_map(current: Option<&str>) -> (map: BTreeMap<u32, String>)
    ensures
        icon_texts(map@) == stored_icons(text_of(current)),
{
    match current {
        Some(text) => parse(text),
        None => {
            let map: BTreeMap<u32, String> = BTreeMap::new();
            assert(icon_texts(map@) =~= Map::<u32, Seq<char>>::empty());
            map
        },
    }
}

/// The read-merge step of persisting one pane's status: the new contents of the
/// session file, given its current contents (`None`: absent or unreadable).
/// Every other pane's entry is kept.
pub fn persisted_text(current: Option<&str>, pane_id: u32, value: &str) -> (text: String)
    ensures
        text@ == serialized_text(status_update(stored_icons(text_of(current)), pane_id, value@)),
{
    let mut map = stored_map(current);
    apply_status(&mut map, pane_id, value);
    serialize(&map)
}

/// What pruning a session file with contents `current` leaves: the icons of
/// the live panes only.
pub open spec fn pruned_icons(current: Option<Seq<char>>, live_ids: Set<u32>) -> Map<u32, Seq<char>> {
    stored_icons(current).restrict(live_ids)
}

/// Pruning rewrites the file only when it exists and holds a pane that is not live.
pub open spec fn prune_rewrites(current: Option<Seq<char>>, live_ids: Set<u32>) -> bool {
    current is Some && exists|k: u32| #[trigger] stored_icons(current).dom().contains(k) && !live_ids.contains(k)
}

/// The compute step of pruning a session file with contents `current` (`None`:
/// absent or unreadable) to the panes in `live_ids`: the pruned map, and the new
/// file contents when something was removed (`None`: leave the file as it is).
pub fn pruned(current: Option<&str>, live_ids: &BTreeSet<u32>) -> (r: (BTreeMap<u32, String>, Option<String>))
    ensures
        icon_texts(r.0@) == pruned_icons(text_of(current), live_ids@),
        r.1 is Some <==> prune_rewrites(text_of(current), live_ids@),
        r.1 matches Some(t) ==> t@ == serialized_text(icon_texts(r.0@)),
        icon_texts(r.0@).dom().finite(),
        r.1 is Some <==> (current is Some && exists|k: u32|
            #[trigger] stored_icons(text_of(current)).contains_key(k) && !live_ids@.contains(k)),
        forall|k: u32| #[trigger] icon_texts(r.0@).contains_key(k) <==> (stored_icons(
            text_of(current),
        ).contains_key(k) && live_ids@.contains(k)),
        forall|k: u32| #[trigger] icon_texts(r.0@).contains_key(k) ==> icon_texts(r.0@)[k]
            == stored_icons(text_of(current))[k],
{
    let text = match current {
        None => {
            let map: BTreeMap<u32, String> = BTreeMap::new();
            assert(icon_texts(map@) =~= pruned_icons(text_of(current), live_ids@));
            assert(icon_texts(map@).dom() =~= Set::<u32>::empty());
            return (map, None);
        },
        Some(t) => t,
    };
    let map = parse(text);
    let ghost m = icon_texts(map@);
    let mut kept: BTreeMap<u32, String> = BTreeMap::new();
    let mut removed = false;
    assert(m.dom() =~= map@.dom());
    proof {
        lemma_ids_ordered();
    }
    let entries = map.iter();
    let ghost v0 = entries.remaining();
    let ghost keys0 = iter_keys(v0);
    proof {
        lemma_ordered_entries(&map, v0);
        assert forall|k: u32| #[trigger] m.dom().contains(k) implies exists|j: int|
            0 <= j < v0.len() && keys0[j] == k by {
            assert(map@.contains_key(k));
        }
        assert(icon_texts(kept@) =~= Map::<u32, Seq<char>>::empty());
    }
    for kv in it: entries
        invariant
            m == icon_texts(map@),
            it.seq() == v0,
            keys0 == iter_keys(v0),
            forall|k: u32| #[trigger] m.dom().contains(k) ==> exists|j: int|
                0 <= j < v0.len() && keys0[j] == k,
            forall|i: int| 0 <= i < v0.len() ==> #[trigger] map@.contains_key(*v0[i].0) && map@[*v0[i].0] == *v0[i].1,
            icon_texts(kept@) == m.restrict(live_ids@).restrict(
                Set::new(|k: u32| exists|j: int| 0 <= j < it.index() && keys0[j] == k),
            ),
            removed <==> exists|j: int| 0 <= j < it.index() && !live_ids@.contains(#[trigger] keys0[j]),
    {
        let (id, value) = kv;
        let ghost idx = it.index();
        let ghost before = icon_texts(kept@);
        assert(keys0[idx] == *id);
        assert(0 <= idx < v0.len());
        assert(v0[idx] == kv);
        assert(map@.contains_key(*v0[idx].0));
        assert(map@[*v0[idx].0] == *v0[idx].1);
        assert(m.dom().contains(*id) && m[*id] == value@);
        if live_ids.contains(id) {
            let copy = value.clone();
            kept.insert(*id, copy);
            assert(icon_texts(kept@) =~= before.insert(*id, value@));
            assert(icon_texts(kept@) =~= m.restrict(live_ids@).restrict(
                Set::new(|k: u32| exists|j: int| 0 <= j < idx + 1 && keys0[j] == k),
            ));
        } else {
            removed = true;
            assert(icon_texts(kept@) =~= m.restrict(live_ids@).restrict(
                Set::new(|k: u32| exists|j: int| 0 <= j < idx + 1 && keys0[j] == k),
            ));
        }
    }
    proof {
        assert(icon_texts(kept@) =~= m.restrict(live_ids@));
        assert(stored_icons(text_of(current)) == m);
        if removed {
            let j = choose|j: int| 0 <= j < v0.len() && !live_ids@.contains(#[trigger] keys0[j]);
            let k = keys0[j];
            assert(k == *v0[j].0);
            assert(map@.contains_key(*v0[j].0));
            assert(m.dom().contains(k));
            assert(stored_icons(text_of(current)).dom().contains(k) && !live_ids@.contains(k));
            assert(prune_rewrites(text_of(current), live_ids@));
        } else {
            assert forall|k: u32| #[trigger] m.dom().contains(k) implies live_ids@.contains(k) by {
                let j = choose|j: int| 0 <= j < v0.len() && keys0[j] == k;
            }
            assert(!prune_rewrites(text_of(current), live_ids@));
        }
    }
    assert(icon_texts(kept@).dom() =~= kept@.dom());
    if removed {
        let t = serialize(&kept);
        (kept, Some(t))
    } else {
        (kept, None)
    }
}

} // verus!
