//! Character-level text handling: splitting on separators the way `str::split`
//! and `str::lines` do, and finding the first occurrence of a character.

use vstd::prelude::*;

verus! {

/// The pieces of `s` between occurrences of `c`, as `str::split(c)` yields them
/// (always at least one piece; empty pieces are kept).
pub open spec fn split_char(s: Seq<char>, c: char) -> Seq<Seq<char>>
    decreases s.len(),
{
    if s.len() == 0 {
        seq![Seq::<char>::empty()]
    } else {
        let p = split_char(s.drop_last(), c);
        if s.last() == c {
            p.push(Seq::<char>::empty())
        } else {
            p.update(p.len() - 1, p.last().push(s.last()))
        }
    }
}

/// `line` without one trailing carriage return, if it has one.
pub open spec fn strip_cr(line: Seq<char>) -> Seq<char> {
    if line.len() > 0 && line.last() == '\r' {
        line.drop_last()
    } else {
        line
    }
}

/// The lines of `s` as `str::lines` yields them: split at `\n`, a `\r` right
/// before a `\n` dropped, and no final empty line after a trailing `\n`.
pub open spec fn lines(s: Seq<char>) -> Seq<Seq<char>> {
    let p = split_char(s, '\n');
    let body = p.drop_last().map_values(|l: Seq<char>| strip_cr(l));
    if p.last().len() == 0 {
        body
    } else {
        body.push(p.last())
    }
}

/// The index of the first `c` in `s`, if any.
pub open spec fn find_char(s: Seq<char>, c: char) -> Option<nat>
    decreases s.len(),
{
    if s.len() == 0 {
        None
    } else if s[0] == c {
        Some(0)
    } else {
        match find_char(s.drop_first(), c) {
            Some(i) => Some(i + 1),
            None => None,
        }
    }
}

/// `s` split at its first `c`, as `str::split_once(c)` does.
pub open spec fn split_once(s: Seq<char>, c: char) -> Option<(Seq<char>, Seq<char>)> {
    match find_char(s, c) {
        Some(i) => Some((s.subrange(0, i as int), s.subrange(i as int + 1, s.len() as int))),
        None => None,
    }
}

/// Left-to-right scan behind `split_pair`: `done` holds the finished pieces,
/// `cur` the piece being read, `i` the position reached.
pub open spec fn scan_pair(
    s: Seq<char>,
    sep: char,
    i: int,
    done: Seq<Seq<char>>,
    cur: Seq<char>,
) -> Seq<Seq<char>>
    decreases s.len() - i,
{
    if i >= s.len() {
        done.push(cur)
    } else if i + 1 < s.len() && s[i] == sep && s[i + 1] == sep {
        scan_pair(s, sep, i + 2, done.push(cur), Seq::<char>::empty())
    } else {
        scan_pair(s, sep, i + 1, done, cur.push(s[i]))
    }
}

/// The pieces of `s` between non-overlapping occurrences of the two-character
/// separator `sep sep`, matched from the left, as `str::split` with a two-character
/// pattern yields them.
pub open spec fn split_pair(s: Seq<char>, sep: char) -> Seq<Seq<char>> {
    scan_pair(s, sep, 0, Seq::empty(), Seq::empty())
}

/// The views of a sequence of character vectors.
pub open spec fn views(v: Seq<Vec<char>>) -> Seq<Seq<char>> {
    v.map_values(|x: Vec<char>| x@)
}

/// The characters of `s`, in order.
pub fn chars_of(s: &str) -> (v: Vec<char>)
    ensures
        v@ == s@,
{
    let mut v: Vec<char> = Vec::new();
    for c in it: s.chars()
        invariant
            v@ == it.seq().take(it.index() as int),
    {
        v.push(c);
        assert(it.seq().take(it.index() + 1) =~= v@);
    }
    assert(v@ =~= s@);
    v
}

/// `split_char` always yields at least one piece.
pub proof fn lemma_split_char_len(s: Seq<char>, c: char)
    ensures
        split_char(s, c).len() >= 1,
    decreases s.len(),
{
    if s.len() > 0 {
        lemma_split_char_len(s.drop_last(), c);
    }
}

/// Splits `s` at every `c`, as `str::split(c)` does.
pub fn split_chars(s: &[char], c: char) -> (r: Vec<Vec<char>>)
    ensures
        views(r@) == split_char(s@, c),
{
    let mut done: Vec<Vec<char>> = Vec::new();
    let mut cur: Vec<char> = Vec::new();
    let mut i: usize = 0;
    assert(s@.take(0) =~= Seq::<char>::empty());
    while i < s.len()
        invariant
            i <= s.len(),
            views(done@).push(cur@) =~= split_char(s@.take(i as int), c),
        decreases s.len() - i,
    {
        let ch = s[i];
        let ghost prev = s@.take(i as int);
        let ghost next = s@.take(i + 1);
        assert(next.drop_last() =~= prev);
        assert(next.last() == ch);
        proof {
            lemma_split_char_len(prev, c);
        }
        if ch == c {
            let piece = cur;
            done.push(piece);
            cur = Vec::new();
            assert(views(done@).push(cur@) =~= split_char(next, c));
        } else {
            cur.push(ch);
            assert(views(done@).push(cur@) =~= split_char(next, c));
        }
        i = i + 1;
    }
    assert(s@.take(i as int) =~= s@);
    done.push(cur);
    assert(views(done@) =~= split_char(s@, c));
    done
}

/// The lines of `s`, as `str::lines` yields them.
pub fn lines_of(s: &[char]) -> (r: Vec<Vec<char>>)
    ensures
        views(r@) == lines(s@),
{
    let parts = split_chars(s, '\n');
    proof {
        lemma_split_char_len(s@, '\n');
    }
    let ghost p = split_char(s@, '\n');
    let n = parts.len();
    let mut out: Vec<Vec<char>> = Vec::new();
    let mut i: usize = 0;
    while i + 1 < n
        invariant
            n == parts@.len(),
            n >= 1,
            views(parts@) == p,
            p == split_char(s@, '\n'),
            i + 1 <= n,
            views(out@) =~= p.take(i as int).map_values(|l: Seq<char>| strip_cr(l)),
        decreases n - i,
    {
        let piece = &parts[i];
        let len = piece.len();
        let mut line: Vec<char> = Vec::new();
        let keep: usize = if len > 0 && piece[len - 1] == '\r' {
            len - 1
        } else {
            len
        };
        let mut j: usize = 0;
        while j < keep
            invariant
                j <= keep <= len,
                len == piece@.len(),
                line@ =~= piece@.take(j as int),
            decreases keep - j,
        {
            line.push(piece[j]);
            j = j + 1;
        }
        assert(piece@ == p[i as int]);
        assert(line@ =~= strip_cr(p[i as int]));
        let ghost before = views(out@);
        let ghost line_view = line@;
        out.push(line);
        assert(views(out@) =~= before.push(line_view));
        assert(p.take(i + 1) =~= p.take(i as int).push(p[i as int]));
        assert(p.take(i + 1).map_values(|l: Seq<char>| strip_cr(l)) =~= p.take(i as int).map_values(
            |l: Seq<char>| strip_cr(l),
        ).push(strip_cr(p[i as int])));
        i = i + 1;
    }
    assert(p.take(i as int) =~= p.drop_last());
    let last = &parts[n - 1];
    if last.len() > 0 {
        let mut copy: Vec<char> = Vec::new();
        let mut j: usize = 0;
        while j < last.len()
            invariant
                j <= last@.len(),
                copy@ =~= last@.take(j as int),
            decreases last@.len() - j,
        {
            copy.push(last[j]);
            j = j + 1;
        }
        assert(copy@ =~= p.last());
        out.push(copy);
    }
    assert(views(out@) =~= lines(s@));
    out
}

/// The index of the first `c` in `s`, if any.
pub fn find_first(s: &[char], c: char) -> (r: Option<usize>)
    ensures
        match r {
            Some(i) => find_char(s@, c) == Some(i as nat) && i < s@.len() && s@[i as int] == c,
            None => find_char(s@, c) is None,
        },
{
    let mut i: usize = 0;
    assert(s@.skip(0) =~= s@);
    while i < s.len()
        invariant
            i <= s.len(),
            find_char(s@, c) == (match find_char(s@.skip(i as int), c) {
                Some(k) => Some((k + i) as nat),
                None => None::<nat>,
            }),
        decreases s.len() - i,
    {
        assert(s@.skip(i as int).drop_first() =~= s@.skip(i + 1));
        if s[i] == c {
            return Some(i);
        }
        i = i + 1;
    }
    None
}

/// Splits `s` at non-overlapping `sep sep` pairs from the left, as `str::split`
/// with a two-character pattern does.
pub fn split_pairs(s: &[char], sep: char) -> (r: Vec<Vec<char>>)
    ensures
        views(r@) == split_pair(s@, sep),
{
    let mut done: Vec<Vec<char>> = Vec::new();
    let mut cur: Vec<char> = Vec::new();
    let mut i: usize = 0;
    assert(views(done@) =~= Seq::<Seq<char>>::empty());
    while i < s.len()
        invariant
            i <= s.len(),
            split_pair(s@, sep) == scan_pair(s@, sep, i as int, views(done@), cur@),
        decreases s.len() - i,
    {
        if i + 1 < s.len() && s[i] == sep && s[i + 1] == sep {
            let ghost prev = views(done@);
            let ghost piece_view = cur@;
            let piece = cur;
            done.push(piece);
            cur = Vec::new();
            assert(views(done@) =~= prev.push(piece_view));
            i = i + 2;
        } else {
            cur.push(s[i]);
            i = i + 1;
        }
    }
    let ghost prev = views(done@);
    let ghost last_view = cur@;
    done.push(cur);
    assert(views(done@) =~= prev.push(last_view));
    done
}

/// The characters of `s` from `lo` up to (not including) `hi`.
pub fn copy_range(s: &[char], lo: usize, hi: usize) -> (r: Vec<char>)
    requires
        lo <= hi <= s@.len(),
    ensures
        r@ == s@.subrange(lo as int, hi as int),
{
    let mut r: Vec<char> = Vec::new();
    let mut j: usize = lo;
    while j < hi
        invariant
            lo <= j <= hi <= s@.len(),
            r@ =~= s@.subrange(lo as int, j as int),
        decreases hi - j,
    {
        r.push(s[j]);
        j = j + 1;
    }
    r
}

/// Whether two character sequences are equal.
pub fn chars_eq(a: &[char], b: &[char]) -> (r: bool)
    ensures
        r == (a@ == b@),
{
    if a.len() != b.len() {
        return false;
    }
    let mut i: usize = 0;
    while i < a.len()
        invariant
            i <= a@.len(),
            a@.len() == b@.len(),
            forall|j: int| 0 <= j < i ==> a@[j] == b@[j],
        decreases a@.len() - i,
    {
        if a[i] != b[i] {
            return false;
        }
        i = i + 1;
    }
    assert(a@ =~= b@);
    true
}

/// Collects characters into a `String`.
///
/// Trusted: wraps `FromIterator<&char> for String` (through `Iterator::collect`);
/// the contract claims that the string holds exactly the given characters, in
/// order, which is what the standard library documents for collecting chars.
#[verifier::external_body]
pub fn string_from_chars(v: &[char]) -> (s: String)
    ensures
        s@ == v@,
{
    v.iter().collect()
}

/// The pieces `p` joined with `sep` between each two.
pub open spec fn joined(p: Seq<Seq<char>>, sep: Seq<char>) -> Seq<char>
    decreases p.len(),
{
    if p.len() == 0 {
        Seq::empty()
    } else if p.len() == 1 {
        p[0]
    } else {
        joined(p.drop_last(), sep) + sep + p.last()
    }
}

/// Extending the last piece extends the joined text.
proof fn lemma_joined_extend(p: Seq<Seq<char>>, sep: Seq<char>, y: Seq<char>)
    requires
        p.len() > 0,
    ensures
        joined(p.update(p.len() - 1, p.last() + y), sep) == joined(p, sep) + y,
{
    let q = p.update(p.len() - 1, p.last() + y);
    if p.len() == 1 {
        assert(q[0] == p[0] + y);
    } else {
        assert(q.drop_last() =~= p.drop_last());
        assert(q.last() == p.last() + y);
        assert(joined(q, sep) =~= joined(p, sep) + y);
    }
}

/// Law: the pieces of `split_char(s, c)` hold no `c`, and joined with `c` they
/// give back `s`.
pub proof fn lemma_split_char_join(s: Seq<char>, c: char)
    ensures
        joined(split_char(s, c), seq![c]) == s,
        forall|i: int| 0 <= i < split_char(s, c).len() ==> !(#[trigger] split_char(s, c)[i]).contains(c),
    decreases s.len(),
{
    if s.len() == 0 {
        assert(joined(split_char(s, c), seq![c]) =~= s);
    } else {
        let s0 = s.drop_last();
        lemma_split_char_join(s0, c);
        lemma_split_char_len(s0, c);
        let p = split_char(s0, c);
        let q = split_char(s, c);
        if s.last() == c {
            assert(q.drop_last() =~= p);
            assert(joined(q, seq![c]) =~= s0 + seq![c] + Seq::<char>::empty());
            assert(s0 + seq![c] + Seq::<char>::empty() =~= s);
        } else {
            assert(p.last().push(s.last()) =~= p.last() + seq![s.last()]);
            lemma_joined_extend(p, seq![c], seq![s.last()]);
            assert(s0 + seq![s.last()] =~= s);
        }
        assert forall|i: int| 0 <= i < q.len() implies !(#[trigger] q[i]).contains(c) by {
            if s.last() != c && i == p.len() - 1 {
                let piece = p.last().push(s.last());
                assert(q[i] == piece);
                if piece.contains(c) {
                    let j = choose|j: int| 0 <= j < piece.len() && piece[j] == c;
                    if j < p.last().len() {
                        assert(p.last()[j] == c);
                        assert(p[p.len() - 1] == p.last());
                    }
                }
            } else if i < p.len() {
                assert(q[i] == p[i]);
            } else {
                assert(q[i] =~= Seq::<char>::empty());
            }
        }
    }
}

/// Scanning on from position `i` keeps what was read, joined, followed by the rest.
proof fn lemma_scan_pair_join(s: Seq<char>, sep: char, i: int, done: Seq<Seq<char>>, cur: Seq<char>)
    requires
        0 <= i <= s.len(),
    ensures
        joined(scan_pair(s, sep, i, done, cur), seq![sep, sep]) == joined(done.push(cur), seq![sep, sep])
            + s.subrange(i, s.len() as int),
    decreases s.len() - i,
{
    let pair = seq![sep, sep];
    if i >= s.len() {
        assert(s.subrange(i, s.len() as int) =~= Seq::<char>::empty());
        assert(joined(done.push(cur), pair) + Seq::<char>::empty() =~= joined(done.push(cur), pair));
    } else if i + 1 < s.len() && s[i] == sep && s[i + 1] == sep {
        lemma_scan_pair_join(s, sep, i + 2, done.push(cur), Seq::empty());
        let d2 = done.push(cur).push(Seq::<char>::empty());
        assert(d2.drop_last() =~= done.push(cur));
        assert(joined(d2, pair) =~= joined(done.push(cur), pair) + pair);
        assert(pair + s.subrange(i + 2, s.len() as int) =~= s.subrange(i, s.len() as int));
        assert(joined(d2, pair) + s.subrange(i + 2, s.len() as int) =~= joined(done.push(cur), pair)
            + s.subrange(i, s.len() as int));
    } else {
        lemma_scan_pair_join(s, sep, i + 1, done, cur.push(s[i]));
        let q = done.push(cur);
        assert(cur.push(s[i]) =~= cur + seq![s[i]]);
        assert(q.last() == cur);
        assert(done.push(cur.push(s[i])) =~= q.update(q.len() - 1, q.last() + seq![s[i]]));
        lemma_joined_extend(q, pair, seq![s[i]]);
        assert(seq![s[i]] + s.subrange(i + 1, s.len() as int) =~= s.subrange(i, s.len() as int));
        assert(joined(q, pair) + seq![s[i]] + s.subrange(i + 1, s.len() as int) =~= joined(q, pair)
            + s.subrange(i, s.len() as int));
    }
}

/// Law: the parts of `split_pair(s, sep)`, joined with the separator pair
/// `sep sep`, give back `s`.
pub proof fn lemma_split_pair_join(s: Seq<char>, sep: char)
    ensures
        joined(split_pair(s, sep), seq![sep, sep]) == s,
{
    lemma_scan_pair_join(s, sep, 0, Seq::empty(), Seq::empty());
    assert(Seq::<Seq<char>>::empty().push(Seq::<char>::empty()) =~= seq![Seq::<char>::empty()]);
    assert(s.subrange(0, s.len() as int) =~= s);
    assert(Seq::<char>::empty() + s =~= s);
}

} // verus!
