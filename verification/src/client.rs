use vstd::prelude::*;

use crate::kv_map::{lists_exactly, lookup, KvMap};
use crate::log_line::{
    format_line, format_log_line, format_snapshot, lines_of, pair_views, replay, replay_lines, views,
};

verus! {

/// A key-value store with a `key:value` log and a snapshot file in the same
/// format. On start the log is replayed, then the snapshot; taking a
/// snapshot writes every entry and empties the log.
pub struct KeyValueStore {
    pub map: KvMap,
    log_path: String,
    snapshot_path: String,
}

impl View for KeyValueStore {
    type V = Map<Seq<char>, Seq<char>>;

    /// The contents of the store.
    closed spec fn view(&self) -> Map<Seq<char>, Seq<char>> {
        self.map@
    }
}

impl KeyValueStore {
    pub closed spec fn wf(&self) -> bool {
        self.map.wf()
    }

    pub closed spec fn log_path_view(&self) -> Seq<char> {
        self.log_path@
    }

    pub closed spec fn snapshot_path_view(&self) -> Seq<char> {
        self.snapshot_path@
    }

    /// An empty store with the given log and snapshot files.
    pub fn new(log_path: &str, snapshot_path: &str) -> (r: KeyValueStore)
        ensures
            r.wf(),
            r@ == Map::<Seq<char>, Seq<char>>::empty(),
            r.log_path_view() == log_path@,
            r.snapshot_path_view() == snapshot_path@,
    {
        KeyValueStore {
            map: KvMap::new(),
            log_path: log_path.to_owned(),
            snapshot_path: snapshot_path.to_owned(),
        }
    }

    pub fn log_path(&self) -> (r: &str)
        ensures
            r@ == self.log_path_view(),
    {
        self.log_path.as_str()
    }

    pub fn snapshot_path(&self) -> (r: &str)
        ensures
            r@ == self.snapshot_path_view(),
    {
        self.snapshot_path.as_str()
    }

    /// Replays lines of the log or of the snapshot, in order: each
    /// `key:value` line stores its value; a line without `:` is skipped.
    pub fn load_lines(&mut self, lines: &Vec<String>)
        requires
            old(self).wf(),
        ensures
            final(self).wf(),
            final(self)@ == replay(old(self)@, views(lines@)),
            final(self).log_path_view() == old(self).log_path_view(),
            final(self).snapshot_path_view() == old(self).snapshot_path_view(),
    {
        replay_lines(&mut self.map, lines);
    }

    /// Stores `value` under `key`. Returns the line to append to the log.
    pub fn set(&mut self, key: String, value: String) -> (line: String)
        requires
            old(self).wf(),
        ensures
            final(self).wf(),
            final(self)@ == old(self)@.insert(key@, value@),
            line@ == format_line(key@, value@),
            final(self).log_path_view() == old(self).log_path_view(),
            final(self).snapshot_path_view() == old(self).snapshot_path_view(),
    {
        let line = format_log_line(key.as_str(), value.as_str());
        self.map.insert(key, value);
        line
    }

    /// The value stored under `key`, if any.
    pub fn get(&self, key: &str) -> (r: Option<String>)
        ensures
            match r {
                Some(v) => lookup(self@, key@) == Some(v@),
                None => lookup(self@, key@) is None,
            },
    {
        self.map.get(key)
    }

    /// The lines of a snapshot of the store: one `key:value` line for each
    /// entry, each key once.
    pub fn snapshot_lines(&self) -> (r: Vec<String>)
        requires
            self.wf(),
        ensures
            exists|es: Seq<(String, String)>| lists_exactly(es, self@) && views(r@) == lines_of(pair_views(es)),
    {
        let es = self.map.entries();
        let r = format_snapshot(&es);
        proof {
            assert(lists_exactly(es@, self@) && views(r@) == lines_of(pair_views(es@)));
        }
        r
    }
}

} // verus!
