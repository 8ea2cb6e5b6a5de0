use vstd::prelude::*;

use crate::kv_map::{lists_exactly, lookup, KvMap};
use crate::log_line::{apply_writes, lemma_listed_writes_rebuild, pair_views};

verus! {

/// The storage engine of a server node: a key-value map whose writes are
/// recorded in a write-ahead log (one JSON record per line) and which can be
/// snapshotted.
pub struct KvStore {
    pub map: KvMap,
    log_path: String,
    snapshot_path: String,
}

/// The writes of the records that parsed, in order.
pub open spec fn parsed_writes(rs: Seq<Option<(String, String)>>) -> Seq<(Seq<char>, Seq<char>)>
    decreases rs.len(),
{
    if rs.len() == 0 {
        Seq::empty()
    } else {
        match rs.last() {
            Some(kv) => parsed_writes(rs.drop_last()).push((kv.0@, kv.1@)),
            None => parsed_writes(rs.drop_last()),
        }
    }
}

/// Restart after a snapshot: loading, over an empty store, a snapshot that
/// lists every entry of `m` once and then the log of the writes `ops` made
/// since, rebuilds the store that those writes made of `m`.
pub proof fn lemma_snapshot_then_log_restores(
    m: Map<Seq<char>, Seq<char>>,
    es: Seq<(String, String)>,
    ops: Seq<(Seq<char>, Seq<char>)>,
)
    requires
        crate::kv_map::lists_exactly(es, m),
    ensures
        apply_writes(apply_writes(Map::empty(), pair_views(es)), ops) == apply_writes(m, ops),
{
    lemma_listed_writes_rebuild(m, es);
}

impl View for KvStore {
    type V = Map<Seq<char>, Seq<char>>;

    /// The contents of the store.
    closed spec fn view(&self) -> Map<Seq<char>, Seq<char>> {
        self.map@
    }
}

impl KvStore {
    pub closed spec fn wf(&self) -> bool {
        self.map.wf()
    }

    pub closed spec fn log_path_view(&self) -> Seq<char> {
        self.log_path@
    }

    pub closed spec fn snapshot_path_view(&self) -> Seq<char> {
        self.snapshot_path@
    }

    /// An empty store with the given log and snapshot files.
    pub fn new(log_path: &str, snapshot_path: &str) -> (r: KvStore)
        ensures
            r.wf(),
            r@ == Map::<Seq<char>, Seq<char>>::empty(),
            r.log_path_view() == log_path@,
            r.snapshot_path_view() == snapshot_path@,
    {
        KvStore { map: KvMap::new(), log_path: log_path.to_owned(), snapshot_path: snapshot_path.to_owned() }
    }

    pub fn log_path(&self) -> (r: &str)
        ensures
            r@ == self.log_path_view(),
    {
        self.log_path.as_str()
    }

    pub fn snapshot_path(&self) -> (r: &str)
        ensures
            r@ == self.snapshot_path_view(),
    {
        self.snapshot_path.as_str()
    }

    /// Replays the records read back from the log, in order.
    pub fn load_records(&mut self, records: &Vec<(String, String)>)
        requires
            old(self).wf(),
        ensures
            final(self).wf(),
            final(self)@ == apply_writes(old(self)@, pair_views(records@)),
            final(self).log_path_view() == old(self).log_path_view(),
            final(self).snapshot_path_view() == old(self).snapshot_path_view(),
    {
        let ghost m0 = self@;
        let mut i: usize = 0;
        while i < records.len()
            invariant
                self.wf(),
                0 <= i <= records.len(),
                self@ == apply_writes(m0, pair_views(records@.take(i as int))),
                self.log_path_view() == old(self).log_path_view(),
                self.snapshot_path_view() == old(self).snapshot_path_view(),
            decreases records.len() - i,
        {
            proof {
                assert(pair_views(records@.take(i + 1)).drop_last() =~= pair_views(records@.take(i as int)));
            }
            let (k, v) = &records[i];
            self.map.insert(k.clone(), v.clone());
            i = i + 1;
        }
        proof {
            assert(records@.take(i as int) =~= records@);
        }
    }

    /// Replays the lines read back from the log, in order: each line that
    /// parsed as a record (`Some`) stores its value; a corrupted one (`None`)
    /// is skipped.
    pub fn load_log_records(&mut self, records: &Vec<Option<(String, String)>>)
        requires
            old(self).wf(),
        ensures
            final(self).wf(),
            final(self)@ == apply_writes(old(self)@, parsed_writes(records@)),
            final(self).log_path_view() == old(self).log_path_view(),
            final(self).snapshot_path_view() == old(self).snapshot_path_view(),
    {
        let ghost m0 = self@;
        let mut i: usize = 0;
        while i < records.len()
            invariant
                self.wf(),
                0 <= i <= records.len(),
                self@ == apply_writes(m0, parsed_writes(records@.take(i as int))),
                self.log_path_view() == old(self).log_path_view(),
                self.snapshot_path_view() == old(self).snapshot_path_view(),
            decreases records.len() - i,
        {
            proof {
                assert(records@.take(i + 1).drop_last() =~= records@.take(i as int));
                assert(records@.take(i + 1).last() == records@[i as int]);
            }
            match &records[i] {
                Some((k, v)) => {
                    self.map.insert(k.clone(), v.clone());
                    proof {
                        assert(parsed_writes(records@.take(i + 1)) == parsed_writes(records@.take(i as int)).push(
                            (k@, v@),
                        ));
                        let p = parsed_writes(records@.take(i as int));
                        assert(p.push((k@, v@)).drop_last() =~= p);
                    }
                },
                None => {},
            }
            i = i + 1;
        }
        proof {
            assert(records@.take(i as int) =~= records@);
        }
    }

    /// Stores `value` under `key`.
    pub fn set(&mut self, key: String, value: String)
        requires
            old(self).wf(),
        ensures
            final(self).wf(),
            final(self)@ == old(self)@.insert(key@, value@),
            final(self).log_path_view() == old(self).log_path_view(),
            final(self).snapshot_path_view() == old(self).snapshot_path_view(),
    {
        self.map.insert(key, value);
    }

    /// The value stored under `key`, if any.
    pub fn get(&self, key: &str) -> (r: Option<String>)
        ensures
            match r {
                Some(v) => lookup(self@, key@) == Some(v@),
                None => lookup(self@, key@) is None,
            },
    {
        self.map.get(key)
    }

    /// The records of a snapshot: every entry of the store, each key once.
    pub fn snapshot_entries(&self) -> (r: Vec<(String, String)>)
        requires
            self.wf(),
        ensures
            lists_exactly(r@, self@),
    {
        self.map.entries()
    }
}

} // verus!
