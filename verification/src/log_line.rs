use vstd::prelude::*;
use vstd::std_specs::iter::IteratorSpec;
use vstd::string::{StrSliceExecFns, StringExecFns};

use crate::kv_map::{lists_exactly, KvMap};

verus! {

broadcast use vstd::string::group_string_axioms;

/// Whether `i` is the position of the first `:` in `s`.
pub open spec fn is_first_colon(s: Seq<char>, i: int) -> bool {
    &&& 0 <= i < s.len()
    &&& s[i] == ':'
    &&& forall|j: int| 0 <= j < i ==> s[j] != ':'
}

/// A log line `key:value` split at its first `:`; `None` when the line has no
/// `:`.
pub open spec fn parse_line(s: Seq<char>) -> Option<(Seq<char>, Seq<char>)> {
    if exists|i: int| is_first_colon(s, i) {
        let i = choose|i: int| is_first_colon(s, i);
        Some((s.take(i), s.skip(i + 1)))
    } else {
        None
    }
}

/// The log line that records a write of `value` under `key`.
pub open spec fn format_line(key: Seq<char>, value: Seq<char>) -> Seq<char> {
    key + seq![':'] + value
}

/// The map obtained by replaying `lines` over `m`, in order: each line that
/// parses stores its value under its key; the others are skipped.
pub open spec fn replay(m: Map<Seq<char>, Seq<char>>, lines: Seq<Seq<char>>) -> Map<Seq<char>, Seq<char>>
    decreases lines.len(),
{
    if lines.len() == 0 {
        m
    } else {
        let m1 = replay(m, lines.drop_last());
        match parse_line(lines.last()) {
            Some((k, v)) => m1.insert(k, v),
            None => m1,
        }
    }
}

/// The map obtained by performing the writes `ops` over `m`, in order.
pub open spec fn apply_writes(m: Map<Seq<char>, Seq<char>>, ops: Seq<(Seq<char>, Seq<char>)>) -> Map<Seq<char>, Seq<char>>
    decreases ops.len(),
{
    if ops.len() == 0 {
        m
    } else {
        apply_writes(m, ops.drop_last()).insert(ops.last().0, ops.last().1)
    }
}

/// The log lines that record the writes `ops`.
pub open spec fn lines_of(ops: Seq<(Seq<char>, Seq<char>)>) -> Seq<Seq<char>> {
    ops.map_values(|kv: (Seq<char>, Seq<char>)| format_line(kv.0, kv.1))
}

/// The views of a sequence of strings.
pub open spec fn views(lines: Seq<String>) -> Seq<Seq<char>> {
    lines.map_values(|l: String| l@)
}

/// A write's line reads back as the same write, provided the key holds no
/// `:` (the value may hold any).
pub proof fn lemma_line_round_trip(key: Seq<char>, value: Seq<char>)
    requires
        !key.contains(':'),
    ensures
        parse_line(format_line(key, value)) == Some((key, value)),
{
    let s = format_line(key, value);
    let n = key.len() as int;
    assert(s[n] == ':');
    assert forall|j: int| 0 <= j < n implies s[j] != ':' by {
        assert(s[j] == key[j]);
        if key[j] == ':' {
            assert(key.contains(':'));
        }
    }
    assert(is_first_colon(s, n));
    let i = choose|i: int| is_first_colon(s, i);
    if i < n {
        assert(s[i] != ':');
    } else if i > n {
        assert(s[n] != ':');
    }
    assert(s.take(n) =~= key);
    assert(s.skip(n + 1) =~= value);
}

/// Recovery: replaying the log lines of a sequence of writes rebuilds the map
/// that the writes produced, provided no key holds a `:`.
pub proof fn lemma_replay_recovers_writes(m: Map<Seq<char>, Seq<char>>, ops: Seq<(Seq<char>, Seq<char>)>)
    requires
        forall|i: int| 0 <= i < ops.len() ==> !(#[trigger] ops[i]).0.contains(':'),
    ensures
        replay(m, lines_of(ops)) == apply_writes(m, ops),
    decreases ops.len(),
{
    if ops.len() > 0 {
        let d = ops.drop_last();
        assert forall|i: int| 0 <= i < d.len() implies !(#[trigger] d[i]).0.contains(':') by {
            assert(d[i] == ops[i]);
        }
        lemma_replay_recovers_writes(m, d);
        assert(lines_of(ops).drop_last() =~= lines_of(d));
        let last = ops[ops.len() - 1];
        lemma_line_round_trip(last.0, last.1);
    }
}

/// The key and value views of a list of entries.
pub open spec fn pair_views(es: Seq<(String, String)>) -> Seq<(Seq<char>, Seq<char>)> {
    es.map_values(|e: (String, String)| (e.0@, e.1@))
}

/// Writes with pairwise distinct keys build the map that holds each of them.
pub proof fn lemma_apply_distinct_writes(ops: Seq<(Seq<char>, Seq<char>)>)
    requires
        forall|i: int, j: int| 0 <= i < j < ops.len() ==> (#[trigger] ops[i]).0 != (#[trigger] ops[j]).0,
    ensures
        forall|k: Seq<char>|
            #[trigger] apply_writes(Map::empty(), ops).contains_key(k) <==> exists|i: int|
                0 <= i < ops.len() && (#[trigger] ops[i]).0 == k,
        forall|i: int|
            0 <= i < ops.len() ==> apply_writes(Map::empty(), ops)[(#[trigger] ops[i]).0] == ops[i].1,
    decreases ops.len(),
{
    if ops.len() > 0 {
        let d = ops.drop_last();
        assert forall|i: int, j: int| 0 <= i < j < d.len() implies (#[trigger] d[i]).0 != (
        #[trigger] d[j]).0 by {
            assert(d[i] == ops[i] && d[j] == ops[j]);
        }
        lemma_apply_distinct_writes(d);
        let m = apply_writes(Map::empty(), ops);
        let md = apply_writes(Map::empty(), d);
        assert forall|k: Seq<char>| #[trigger] m.contains_key(k) <==> exists|i: int|
            0 <= i < ops.len() && (#[trigger] ops[i]).0 == k by {
            if m.contains_key(k) {
                if k == ops.last().0 {
                    assert(ops[ops.len() - 1].0 == k);
                } else {
                    assert(md.contains_key(k));
                    let i = choose|i: int| 0 <= i < d.len() && (#[trigger] d[i]).0 == k;
                    assert(ops[i] == d[i]);
                }
            }
            if exists|i: int| 0 <= i < ops.len() && (#[trigger] ops[i]).0 == k {
                let i = choose|i: int| 0 <= i < ops.len() && (#[trigger] ops[i]).0 == k;
                if i < ops.len() - 1 {
                    assert(d[i] == ops[i]);
                    assert(md.contains_key(k));
                }
            }
        }
        assert forall|i: int| 0 <= i < ops.len() implies m[(#[trigger] ops[i]).0] == ops[i].1 by {
            if i < ops.len() - 1 {
                assert(d[i] == ops[i]);
                assert(ops[i].0 != ops[ops.len() - 1].0);
            }
        }
    }
}

/// Performing, over an empty map, the writes of a list that holds every
/// entry of `m` once rebuilds `m`.
pub proof fn lemma_listed_writes_rebuild(m: Map<Seq<char>, Seq<char>>, es: Seq<(String, String)>)
    requires
        lists_exactly(es, m),
    ensures
        apply_writes(Map::empty(), pair_views(es)) == m,
{
    let ops = pair_views(es);
    assert forall|i: int, j: int| 0 <= i < j < ops.len() implies (#[trigger] ops[i]).0 != (
    #[trigger] ops[j]).0 by {
        assert(ops[i].0 == es[i].0@ && ops[j].0 == es[j].0@);
        assert(es[i].0@ != es[j].0@);
    }
    lemma_apply_distinct_writes(ops);
    let r = apply_writes(Map::empty(), ops);
    assert forall|k: Seq<char>| r.contains_key(k) <==> m.contains_key(k) by {
        if r.contains_key(k) {
            let i = choose|i: int| 0 <= i < ops.len() && (#[trigger] ops[i]).0 == k;
            assert(es[i].0@ == k);
        }
        if m.contains_key(k) {
            let i = choose|i: int| 0 <= i < es.len() && (#[trigger] es[i]).0@ == k;
            assert(ops[i].0 == k);
        }
    }
    assert forall|k: Seq<char>| r.contains_key(k) implies r[k] == m[k] by {
        let i = choose|i: int| 0 <= i < ops.len() && (#[trigger] ops[i]).0 == k;
        assert(ops[i] == (es[i].0@, es[i].1@));
    }
    assert(r =~= m);
}

/// Snapshot recovery: replaying, over an empty store, the lines of a snapshot
/// that lists every entry of `m` once rebuilds `m`, provided no key holds a
/// `:`.
pub proof fn lemma_snapshot_restores(m: Map<Seq<char>, Seq<char>>, es: Seq<(String, String)>)
    requires
        lists_exactly(es, m),
        forall|i: int| 0 <= i < es.len() ==> !(#[trigger] es[i]).0@.contains(':'),
    ensures
        replay(Map::empty(), lines_of(pair_views(es))) == m,
{
    let ops = pair_views(es);
    assert forall|i: int| 0 <= i < ops.len() implies !(#[trigger] ops[i]).0.contains(':') by {
        assert(ops[i].0 == es[i].0@);
    }
    lemma_replay_recovers_writes(Map::empty(), ops);
    lemma_listed_writes_rebuild(m, es);
}

/// Restart after a snapshot: replaying, over an empty store, a snapshot that
/// lists every entry of `m` once and then the log lines of the writes `ops`
/// made since rebuilds the store that those writes made of `m`, provided no
/// key holds a `:`.
pub proof fn lemma_snapshot_then_log_restores(
    m: Map<Seq<char>, Seq<char>>,
    es: Seq<(String, String)>,
    ops: Seq<(Seq<char>, Seq<char>)>,
)
    requires
        lists_exactly(es, m),
        forall|i: int| 0 <= i < es.len() ==> !(#[trigger] es[i]).0@.contains(':'),
        forall|i: int| 0 <= i < ops.len() ==> !(#[trigger] ops[i]).0.contains(':'),
    ensures
        replay(replay(Map::empty(), lines_of(pair_views(es))), lines_of(ops)) == apply_writes(m, ops),
{
    lemma_snapshot_restores(m, es);
    lemma_replay_recovers_writes(m, ops);
}

/// The snapshot lines of a list of entries: one `key:value` line each.
pub fn format_snapshot(es: &Vec<(String, String)>) -> (r: Vec<String>)
    ensures
        views(r@) == lines_of(pair_views(es@)),
{
    let mut r: Vec<String> = Vec::new();
    let mut i: usize = 0;
    while i < es.len()
        invariant
            0 <= i <= es.len(),
            views(r@) == lines_of(pair_views(es@.take(i as int))),
        decreases es.len() - i,
    {
        let line = format_log_line(es[i].0.as_str(), es[i].1.as_str());
        r.push(line);
        proof {
            let a = es@.take(i as int);
            let b = es@.take(i + 1);
            assert(b =~= a.push(es@[i as int]));
            assert(pair_views(b) =~= pair_views(a).push((es@[i as int].0@, es@[i as int].1@)));
            assert(lines_of(pair_views(b)) =~= lines_of(pair_views(a)).push(
                format_line(es@[i as int].0@, es@[i as int].1@),
            ));
            assert(views(r@) =~= lines_of(pair_views(b)));
        }
        i = i + 1;
    }
    proof {
        assert(es@.take(i as int) =~= es@);
    }
    r
}

/// The line recording a write of `value` under `key`: `key:value`.
pub fn format_log_line(key: &str, value: &str) -> (r: String)
    ensures
        r@ == format_line(key@, value@),
{
    let r = key.to_owned().concat(":").concat(value);
    proof {
        reveal_strlit(":");
        assert(r@ =~= format_line(key@, value@));
    }
    r
}

/// Splits a log line at its first `:` into key and value.
pub fn parse_log_line(line: &str) -> (r: Option<(String, String)>)
    ensures
        match r {
            Some((k, v)) => parse_line(line@) == Some((k@, v@)),
            None => parse_line(line@) is None,
        },
{
    let n = line.unicode_len();
    let mut it = line.chars();
    let mut i: usize = 0;
    let mut found = false;
    while i < n
        invariant_except_break
            0 <= i <= n,
            n == line@.len(),
            it.remaining() == line@.skip(i as int),
            forall|j: int| 0 <= j < i ==> line@[j] != ':',
            !found,
        ensures
            0 <= i <= n,
            n == line@.len(),
            forall|j: int| 0 <= j < i ==> line@[j] != ':',
            found ==> i < n && line@[i as int] == ':',
            !found ==> i == n,
        decreases n - i,
    {
        match it.next() {
            Some(c) => {
                assert(line@.skip(i as int)[0] == line@[i as int]);
                if c == ':' {
                    found = true;
                    break;
                }
                assert(line@.skip(i as int).drop_first() =~= line@.skip(i + 1));
                i = i + 1;
            },
            None => {
                assert(false);
                break;
            },
        }
    }
    if found {
        proof {
            assert(is_first_colon(line@, i as int));
            let c = choose|c: int| is_first_colon(line@, c);
            if c < i {
                assert(line@[c] != ':');
            } else if c > i {
                assert(line@[i as int] != ':');
            }
        }
        let key = line.substring_char(0, i).to_owned();
        let value = line.substring_char(i + 1, n).to_owned();
        proof {
            assert(key@ =~= line@.take(i as int));
            assert(value@ =~= line@.skip(i + 1));
        }
        Some((key, value))
    } else {
        proof {
            if exists|c: int| is_first_colon(line@, c) {
                let c = choose|c: int| is_first_colon(line@, c);
                assert(line@[c] != ':');
            }
        }
        None
    }
}

/// Replays `lines` into `map`, in order: each line that parses as
/// `key:value` stores `value` under `key`; the others are skipped.
pub fn replay_lines(map: &mut KvMap, lines: &Vec<String>)
    requires
        old(map).wf(),
    ensures
        final(map).wf(),
        final(map)@ == replay(old(map)@, views(lines@)),
{
    let ghost m0 = map@;
    let mut i: usize = 0;
    while i < lines.len()
        invariant
            map.wf(),
            0 <= i <= lines.len(),
            map@ == replay(m0, views(lines@.take(i as int))),
        decreases lines.len() - i,
    {
        proof {
            assert(views(lines@.take(i + 1)).drop_last() =~= views(lines@.take(i as int)));
            assert(views(lines@.take(i + 1)).last() == lines@[i as int]@);
        }
        match parse_log_line(lines[i].as_str()) {
            Some((k, v)) => map.insert(k, v),
            None => {},
        }
        i = i + 1;
    }
    proof {
        assert(lines@.take(i as int) =~= lines@);
    }
}

} // verus!
