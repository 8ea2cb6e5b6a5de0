use vstd::prelude::*;

use crate::kv_map::{lookup, KvMap};
use crate::log_line::{format_line, format_log_line, replay, replay_lines, views};

verus! {

/// A key-value store whose writes are recorded one per line, as
/// `key:value`, in a log file; replaying the log rebuilds the store.
pub struct KvStore {
    pub map: KvMap,
    log_path: String,
}

impl View for KvStore {
    type V = Map<Seq<char>, Seq<char>>;

    /// The contents of the store.
    closed spec fn view(&self) -> Map<Seq<char>, Seq<char>> {
        self.map@
    }
}

impl KvStore {
    pub closed spec fn wf(&self) -> bool {
        self.map.wf()
    }

    /// The path of the log file.
    pub closed spec fn log_path_view(&self) -> Seq<char> {
        self.log_path@
    }

    /// An empty store that logs to `log_path`.
    pub fn new(log_path: &str) -> (r: KvStore)
        ensures
            r.wf(),
            r@ == Map::<Seq<char>, Seq<char>>::empty(),
            r.log_path_view() == log_path@,
    {
        KvStore { map: KvMap::new(), log_path: log_path.to_owned() }
    }

    /// The path of the log file.
    pub fn log_path(&self) -> (r: &str)
        ensures
            r@ == self.log_path_view(),
    {
        self.log_path.as_str()
    }

    /// Replays the lines of the log, in order: each `key:value` line stores
    /// its value; a line without `:` is skipped.
    pub fn load_lines(&mut self, lines: &Vec<String>)
        requires
            old(self).wf(),
        ensures
            final(self).wf(),
            final(self)@ == replay(old(self)@, views(lines@)),
            final(self).log_path_view() == old(self).log_path_view(),
    {
        replay_lines(&mut self.map, lines);
    }

    /// Stores `value` under `key`. Returns the line to append to the log.
    pub fn set(&mut self, key: String, value: String) -> (line: String)
        requires
            old(self).wf(),
        ensures
            final(self).wf(),
            final(self)@ == old(self)@.insert(key@, value@),
            line@ == format_line(key@, value@),
            final(self).log_path_view() == old(self).log_path_view(),
    {
        let line = format_log_line(key.as_str(), value.as_str());
        self.map.insert(key, value);
        line
    }

    /// The value stored under `key`, if any.
    pub fn get(&self, key: &str) -> (r: Option<String>)
        ensures
            match r {
                Some(v) => lookup(self@, key@) == Some(v@),
                None => lookup(self@, key@) is None,
            },
    {
        self.map.get(key)
    }
}

} // verus!
