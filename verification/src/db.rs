//! The file database and its atomic change batches.
//!
//! The database is the sole owner of authoritative file text: a map from
//! file path to text plus the configuration.  It is mutated only by applying
//! one atomic batch of upsert and remove operations, and cheaply cloned to
//! hand an immutable snapshot to a compilation pass.

use vstd::prelude::*;

use crate::bytes::{bytes_eq, clone_bytes, is_match_at, matches_at};
use crate::config::Config;
use crate::rewriter::MAX_SOURCE_LEN;

verus! {

/// The views of the entries, key and text.
pub open spec fn pair_views(entries: Seq<(Vec<u8>, Vec<u8>)>) -> Seq<(Seq<u8>, Seq<u8>)> {
    Seq::new(entries.len(), |i: int| (entries[i].0@, entries[i].1@))
}

/// The path-to-text map a list of entries denotes; later entries win.
pub open spec fn map_of(pairs: Seq<(Seq<u8>, Seq<u8>)>) -> Map<Seq<u8>, Seq<u8>>
    decreases pairs.len(),
{
    if pairs.len() == 0 {
        Map::empty()
    } else {
        map_of(pairs.drop_last()).insert(pairs.last().0, pairs.last().1)
    }
}

/// A key is in the map exactly when some entry carries it.
pub proof fn lemma_map_of_contains(pairs: Seq<(Seq<u8>, Seq<u8>)>, p: Seq<u8>)
    ensures
        map_of(pairs).dom().contains(p) <==> exists|i: int|
            0 <= i < pairs.len() && (#[trigger] pairs[i]).0 == p,
    decreases pairs.len(),
{
    if pairs.len() > 0 {
        lemma_map_of_contains(pairs.drop_last(), p);
        if map_of(pairs).dom().contains(p) {
            if pairs.last().0 == p {
                assert(pairs[pairs.len() - 1].0 == p);
            } else {
                let i = choose|i: int|
                    0 <= i < pairs.drop_last().len() && (#[trigger] pairs.drop_last()[i]).0 == p;
                assert(pairs[i].0 == p);
            }
        }
        if exists|i: int| 0 <= i < pairs.len() && (#[trigger] pairs[i]).0 == p {
            let i = choose|i: int| 0 <= i < pairs.len() && (#[trigger] pairs[i]).0 == p;
            if i < pairs.len() - 1 {
                assert(pairs.drop_last()[i].0 == p);
            }
        }
    }
}

/// With unique keys, an entry's key maps to its text.
pub proof fn lemma_map_of_get(pairs: Seq<(Seq<u8>, Seq<u8>)>, i: int)
    requires
        0 <= i < pairs.len(),
        forall|j: int, k: int|
            0 <= j < k < pairs.len() ==> (#[trigger] pairs[j]).0 != (#[trigger] pairs[k]).0,
    ensures
        map_of(pairs).dom().contains(pairs[i].0),
        map_of(pairs)[pairs[i].0] == pairs[i].1,
    decreases pairs.len(),
{
    if i == pairs.len() - 1 {
    } else {
        assert(pairs.drop_last()[i] == pairs[i]);
        lemma_map_of_get(pairs.drop_last(), i);
        assert(pairs[i].0 != pairs.last().0);
    }
}

/// Removing an entry removes exactly its key from the map.
pub proof fn lemma_map_of_remove(pairs: Seq<(Seq<u8>, Seq<u8>)>, i: int)
    requires
        0 <= i < pairs.len(),
        forall|j: int, k: int|
            0 <= j < k < pairs.len() ==> (#[trigger] pairs[j]).0 != (#[trigger] pairs[k]).0,
    ensures
        map_of(pairs.remove(i)) == map_of(pairs).remove(pairs[i].0),
    decreases pairs.len(),
{
    let key = pairs[i].0;
    if i == pairs.len() - 1 {
        assert(pairs.remove(i) =~= pairs.drop_last());
        lemma_map_of_contains(pairs.drop_last(), key);
        assert(forall|j: int|
            0 <= j < pairs.drop_last().len() ==> (#[trigger] pairs.drop_last()[j]).0 != key);
        assert(!map_of(pairs.drop_last()).dom().contains(key));
        assert(map_of(pairs.drop_last()).insert(key, pairs.last().1).remove(key) =~= map_of(
            pairs.drop_last(),
        ));
    } else {
        assert(pairs.remove(i).last() == pairs.last());
        assert(pairs.remove(i).drop_last() =~= pairs.drop_last().remove(i));
        assert(forall|j: int|
            0 <= j < pairs.drop_last().len() ==> pairs.drop_last()[j] == (#[trigger] pairs[j]));
        lemma_map_of_remove(pairs.drop_last(), i);
        assert(key != pairs.last().0);
        assert(map_of(pairs.drop_last()).remove(key).insert(pairs.last().0, pairs.last().1)
            =~= map_of(pairs.drop_last()).insert(pairs.last().0, pairs.last().1).remove(key));
    }
}

/// The authoritative path-to-text table.
pub struct FileMap {
    pub entries: Vec<(Vec<u8>, Vec<u8>)>,
}

impl FileMap {
    /// The map the table denotes.
    pub open spec fn as_map(&self) -> Map<Seq<u8>, Seq<u8>> {
        map_of(pair_views(self.entries@))
    }

    /// Keys are unique and every text is small enough for the rewriting
    /// engine.
    pub open spec fn wf(&self) -> bool {
        &&& forall|j: int, k: int|
            0 <= j < k < self.entries@.len() ==> (#[trigger] self.entries@[j]).0@ != (
            #[trigger] self.entries@[k]).0@
        &&& forall|i: int|
            0 <= i < self.entries@.len() ==> (#[trigger] self.entries@[i]).1@.len()
                <= MAX_SOURCE_LEN
    }

    pub fn new() -> (r: FileMap)
        ensures
            r.wf(),
            r.as_map() == Map::<Seq<u8>, Seq<u8>>::empty(),
            r.entries@.len() == 0,
    {
        let r = FileMap { entries: Vec::new() };
        proof {
            assert(pair_views(r.entries@) =~= Seq::<(Seq<u8>, Seq<u8>)>::empty());
        }
        r
    }

    /// Index of the entry for `path`, if any.
    fn find(&self, path: &Vec<u8>) -> (r: Option<usize>)
        ensures
            match r {
                Some(i) => i < self.entries@.len() && self.entries@[i as int].0@ == path@,
                None => forall|i: int|
                    0 <= i < self.entries@.len() ==> (#[trigger] self.entries@[i]).0@ != path@,
            },
    {
        let n = self.entries.len();
        let mut i: usize = 0;
        while i < n
            invariant
                i <= n,
                n == self.entries@.len(),
                forall|j: int| 0 <= j < i ==> (#[trigger] self.entries@[j]).0@ != path@,
            decreases n - i,
        {
            if bytes_eq(&self.entries[i].0, path) {
                return Some(i);
            }
            i = i + 1;
        }
        None
    }

    /// The text stored for a path.
    pub fn get(&self, path: &Vec<u8>) -> (r: Option<&Vec<u8>>)
        requires
            self.wf(),
        ensures
            match r {
                Some(t) => self.as_map().dom().contains(path@) && t@ == self.as_map()[path@],
                None => !self.as_map().dom().contains(path@),
            },
    {
        let ghost pairs = pair_views(self.entries@);
        proof {
            lemma_map_of_contains(pairs, path@);
        }
        match self.find(path) {
            Some(i) => {
                proof {
                    lemma_map_of_get(pairs, i as int);
                }
                Some(&self.entries[i].1)
            },
            None => {
                proof {
                    assert(forall|i: int| 0 <= i < pairs.len() ==> (#[trigger] pairs[i]).0 != path@);
                }
                None
            },
        }
    }

    /// Stores `text` for `path`, replacing any previous text wholesale.
    pub fn upsert(&mut self, path: Vec<u8>, text: Vec<u8>)
        requires
            old(self).wf(),
            text@.len() <= MAX_SOURCE_LEN,
        ensures
            final(self).wf(),
            final(self).as_map() == old(self).as_map().insert(path@, text@),
    {
        let ghost pairs0 = pair_views(self.entries@);
        match self.find(&path) {
            Some(i) => {
                let ghost key = self.entries@[i as int].0@;
                proof {
                    lemma_map_of_remove(pairs0, i as int);
                }
                let _ = self.entries.remove(i);
                proof {
                    assert(pair_views(self.entries@) =~= pairs0.remove(i as int));
                }
            },
            None => {},
        }
        let ghost pairs1 = pair_views(self.entries@);
        self.entries.push((path, text));
        proof {
            let pairs2 = pair_views(self.entries@);
            assert(pairs2.drop_last() =~= pairs1);
            assert(pairs2.last().0 == pairs2[pairs2.len() - 1].0);
            // the two maps agree on every key
            assert(map_of(pairs2) =~= map_of(pairs0).insert(
                pairs2.last().0,
                pairs2.last().1,
            )) by {
                lemma_upsert_agree(pairs0, pairs1, pairs2);
            }
        }
    }

    /// Removes the text stored for `path`, if any.
    pub fn remove_file(&mut self, path: &Vec<u8>)
        requires
            old(self).wf(),
        ensures
            final(self).wf(),
            final(self).as_map() == old(self).as_map().remove(path@),
    {
        let ghost pairs0 = pair_views(self.entries@);
        match self.find(path) {
            Some(i) => {
                proof {
                    lemma_map_of_remove(pairs0, i as int);
                }
                let _ = self.entries.remove(i);
                proof {
                    assert(pair_views(self.entries@) =~= pairs0.remove(i as int));
                }
            },
            None => {
                proof {
                    lemma_map_of_contains(pairs0, path@);
                    assert(forall|i: int|
                        0 <= i < pairs0.len() ==> (#[trigger] pairs0[i]).0 != path@);
                    assert(map_of(pairs0).remove(path@) =~= map_of(pairs0));
                }
            },
        }
    }
}

/// After removing any old entry for the key and pushing the new one, the
/// denoted map is exactly the old map with the key inserted.
proof fn lemma_upsert_agree(
    pairs0: Seq<(Seq<u8>, Seq<u8>)>,
    pairs1: Seq<(Seq<u8>, Seq<u8>)>,
    pairs2: Seq<(Seq<u8>, Seq<u8>)>,
)
    requires
        pairs2.len() >= 1,
        pairs2.drop_last() == pairs1,
        map_of(pairs1) == map_of(pairs0) || map_of(pairs1) == map_of(pairs0).remove(
            pairs2.last().0,
        ),
    ensures
        map_of(pairs2) == map_of(pairs0).insert(pairs2.last().0, pairs2.last().1),
{
    let key = pairs2.last().0;
    let text = pairs2.last().1;
    assert(map_of(pairs2) == map_of(pairs1).insert(key, text));
    if map_of(pairs1) == map_of(pairs0).remove(key) {
        assert(map_of(pairs0).remove(key).insert(key, text) =~= map_of(pairs0).insert(key, text));
    }
}

/// One operation of an atomic change batch.
pub enum ChangeOp {
    Upsert(Vec<u8>, Vec<u8>),
    Remove(Vec<u8>),
    SetConfig(Config),
}

/// What a batch of operations does to the path-to-text map.
pub open spec fn apply_ops(m: Map<Seq<u8>, Seq<u8>>, ops: Seq<ChangeOp>) -> Map<Seq<u8>, Seq<u8>>
    decreases ops.len(),
{
    if ops.len() == 0 {
        m
    } else {
        let rest = apply_ops(m, ops.drop_last());
        match ops.last() {
            ChangeOp::Upsert(p, t) => rest.insert(p@, t@),
            ChangeOp::Remove(p) => rest.remove(p@),
            ChangeOp::SetConfig(c) => rest,
        }
    }
}

/// The configuration a batch leaves behind, given the one before it.
pub open spec fn apply_ops_config(c: Config, ops: Seq<ChangeOp>) -> Config
    decreases ops.len(),
{
    if ops.len() == 0 {
        c
    } else {
        match ops.last() {
            ChangeOp::SetConfig(nc) => nc,
            _ => apply_ops_config(c, ops.drop_last()),
        }
    }
}

/// An atomic batch of file and configuration changes.
pub struct AnalysisChange {
    pub ops: Vec<ChangeOp>,
}

impl AnalysisChange {
    pub fn new() -> (r: AnalysisChange)
        ensures
            r.ops@ == Seq::<ChangeOp>::empty(),
    {
        let r = AnalysisChange { ops: Vec::new() };
        proof {
            assert(r.ops@ =~= Seq::<ChangeOp>::empty());
        }
        r
    }

    /// Tracks a new file's text.
    pub fn add_file(&mut self, fpath: Vec<u8>, text: Vec<u8>)
        requires
            text@.len() <= MAX_SOURCE_LEN,
        ensures
            final(self).ops@ == old(self).ops@.push(ChangeOp::Upsert(fpath, text)),
    {
        self.ops.push(ChangeOp::Upsert(fpath, text));
    }

    /// Replaces a tracked file's text wholesale.
    pub fn update_file(&mut self, fpath: Vec<u8>, text: Vec<u8>)
        requires
            text@.len() <= MAX_SOURCE_LEN,
        ensures
            final(self).ops@ == old(self).ops@.push(ChangeOp::Upsert(fpath, text)),
    {
        self.ops.push(ChangeOp::Upsert(fpath, text));
    }

    /// Stops tracking a file.
    pub fn remove_file(&mut self, fpath: Vec<u8>)
        ensures
            final(self).ops@ == old(self).ops@.push(ChangeOp::Remove(fpath)),
    {
        self.ops.push(ChangeOp::Remove(fpath));
    }

    /// Replaces the configuration as part of the same atomic unit.
    pub fn change_config(&mut self, config: Config)
        ensures
            final(self).ops@ == old(self).ops@.push(ChangeOp::SetConfig(config)),
    {
        self.ops.push(ChangeOp::SetConfig(config));
    }
}

/// The batch keeps every stored text small enough for the rewriting engine.
pub open spec fn change_wf(ops: Seq<ChangeOp>) -> bool {
    forall|i: int|
        0 <= i < ops.len() ==> match #[trigger] ops[i] {
            ChangeOp::Upsert(p, t) => t@.len() <= MAX_SOURCE_LEN,
            ChangeOp::Remove(p) => true,
            ChangeOp::SetConfig(c) => c.wf(),
        }
}

impl FileMap {
    /// Deep copy, for database snapshots.
    pub fn duplicate(&self) -> (r: FileMap)
        ensures
            pair_views(r.entries@) == pair_views(self.entries@),
            r.as_map() == self.as_map(),
            self.wf() ==> r.wf(),
    {
        let n = self.entries.len();
        let mut entries: Vec<(Vec<u8>, Vec<u8>)> = Vec::new();
        let mut i: usize = 0;
        while i < n
            invariant
                i <= n,
                n == self.entries@.len(),
                entries@.len() == i,
                forall|j: int|
                    0 <= j < i ==> (#[trigger] entries@[j]).0@ == self.entries@[j].0@
                        && entries@[j].1@ == self.entries@[j].1@,
            decreases n - i,
        {
            let p = clone_bytes(&self.entries[i].0);
            let t = clone_bytes(&self.entries[i].1);
            entries.push((p, t));
            i = i + 1;
        }
        let r = FileMap { entries };
        proof {
            assert(pair_views(r.entries@) =~= pair_views(self.entries@));
        }
        r
    }
}

/// The path lies under the configured standard library or one of the
/// configured module folders, so the file takes part in every check.
pub open spec fn spec_is_module_file(c: Config, p: Seq<u8>) -> bool {
    ||| (c.stdlib_folder matches Some(f) && matches_at(p, f@, 0))
    ||| exists|k: int|
        0 <= k < c.modules_folders@.len() && matches_at(p, (#[trigger] c.modules_folders@[k])@, 0)
}

/// The entries that take part in every check, in storage order.
pub open spec fn spec_module_entries(pairs: Seq<(Seq<u8>, Seq<u8>)>, c: Config) -> Seq<
    (Seq<u8>, Seq<u8>),
>
    decreases pairs.len(),
{
    if pairs.len() == 0 {
        Seq::empty()
    } else if spec_is_module_file(c, pairs.first().0) {
        seq![pairs.first()] + spec_module_entries(pairs.drop_first(), c)
    } else {
        spec_module_entries(pairs.drop_first(), c)
    }
}

/// The entries with one key left out.
pub open spec fn spec_without_key(pairs: Seq<(Seq<u8>, Seq<u8>)>, key: Seq<u8>) -> Seq<
    (Seq<u8>, Seq<u8>),
>
    decreases pairs.len(),
{
    if pairs.len() == 0 {
        Seq::empty()
    } else if pairs.first().0 != key {
        seq![pairs.first()] + spec_without_key(pairs.drop_first(), key)
    } else {
        spec_without_key(pairs.drop_first(), key)
    }
}

/// Whether the path lies under the standard library or a module folder.
fn is_module_file(c: &Config, path: &Vec<u8>) -> (r: bool)
    ensures
        r == spec_is_module_file(*c, path@),
{
    match &c.stdlib_folder {
        Some(f) => {
            if is_match_at(path, f, 0) {
                return true;
            }
        },
        None => {},
    }
    let n = c.modules_folders.len();
    let mut k: usize = 0;
    while k < n
        invariant
            k <= n,
            n == c.modules_folders@.len(),
            forall|j: int| 0 <= j < k ==> !matches_at(path@, (#[trigger] c.modules_folders@[j])@, 0),
        decreases n - k,
    {
        if is_match_at(path, &c.modules_folders[k], 0) {
            return true;
        }
        k = k + 1;
    }
    false
}

/// Two configurations whose folders read the same select the same module
/// files.
proof fn lemma_module_entries_congruent(pairs: Seq<(Seq<u8>, Seq<u8>)>, c1: Config, c2: Config)
    requires
        match c1.stdlib_folder {
            Some(p) => c2.stdlib_folder matches Some(q) && p@ == q@,
            None => c2.stdlib_folder is None,
        },
        c1.modules_folders@.len() == c2.modules_folders@.len(),
        forall|i: int|
            0 <= i < c1.modules_folders@.len() ==> (#[trigger] c1.modules_folders@[i])@ == (
            #[trigger] c2.modules_folders@[i])@,
    ensures
        spec_module_entries(pairs, c1) == spec_module_entries(pairs, c2),
    decreases pairs.len(),
{
    if pairs.len() > 0 {
        let p = pairs.first().0;
        assert(spec_is_module_file(c1, p) <==> spec_is_module_file(c2, p)) by {
            if exists|k: int|
                0 <= k < c1.modules_folders@.len() && matches_at(
                    p,
                    (#[trigger] c1.modules_folders@[k])@,
                    0,
                ) {
                let k = choose|k: int|
                    0 <= k < c1.modules_folders@.len() && matches_at(
                        p,
                        (#[trigger] c1.modules_folders@[k])@,
                        0,
                    );
                assert(matches_at(p, c2.modules_folders@[k]@, 0));
            }
            if exists|k: int|
                0 <= k < c2.modules_folders@.len() && matches_at(
                    p,
                    (#[trigger] c2.modules_folders@[k])@,
                    0,
                ) {
                let k = choose|k: int|
                    0 <= k < c2.modules_folders@.len() && matches_at(
                        p,
                        (#[trigger] c2.modules_folders@[k])@,
                        0,
                    );
                assert(matches_at(p, c1.modules_folders@[k]@, 0));
            }
        }
        lemma_module_entries_congruent(pairs.drop_first(), c1, c2);
    }
}

/// The database: the configuration and the authoritative file texts.
pub struct RootDatabase {
    pub config: Config,
    pub available_files: FileMap,
}

impl RootDatabase {
    pub open spec fn wf(&self) -> bool {
        &&& self.config.wf()
        &&& self.available_files.wf()
    }

    /// Deep copy: the frozen snapshot a compilation pass consumes while the
    /// live database keeps accepting changes.
    pub fn duplicate(&self) -> (r: RootDatabase)
        ensures
            r.available_files.as_map() == self.available_files.as_map(),
            pair_views(r.available_files.entries@) == pair_views(self.available_files.entries@),
            r.config.dialect_name == self.config.dialect_name,
            r.config.sender_address.original@ == self.config.sender_address.original@,
            r.config.sender_address.normalized_original@
                == self.config.sender_address.normalized_original@,
            spec_module_entries(pair_views(r.available_files.entries@), r.config)
                == spec_module_entries(pair_views(self.available_files.entries@), self.config),
            self.wf() ==> r.wf(),
    {
        let config = self.config.duplicate();
        let files = self.available_files.duplicate();
        let r = RootDatabase { config, available_files: files };
        proof {
            lemma_module_entries_congruent(
                pair_views(r.available_files.entries@),
                r.config,
                self.config,
            );
        }
        r
    }

    /// The texts of every file that takes part in a check: those under the
    /// standard library and the configured module folders.
    pub fn module_files(&self) -> (r: Vec<(Vec<u8>, Vec<u8>)>)
        requires
            self.wf(),
        ensures
            pair_views(r@) == spec_module_entries(pair_views(self.available_files.entries@), self.config),
            forall|i: int| 0 <= i < r@.len() ==> (#[trigger] r@[i]).1@.len() <= MAX_SOURCE_LEN,
    {
        let ghost pairs = pair_views(self.available_files.entries@);
        let n = self.available_files.entries.len();
        let mut out: Vec<(Vec<u8>, Vec<u8>)> = Vec::new();
        let mut i: usize = 0;
        proof {
            assert(pairs.skip(0) =~= pairs);
            assert(pair_views(out@) + spec_module_entries(pairs, self.config) =~= spec_module_entries(
                pairs,
                self.config,
            ));
        }
        while i < n
            invariant
                i <= n,
                n == self.available_files.entries@.len(),
                pairs == pair_views(self.available_files.entries@),
                self.wf(),
                spec_module_entries(pairs, self.config) == pair_views(out@) + spec_module_entries(
                    pairs.skip(i as int),
                    self.config,
                ),
                forall|j: int| 0 <= j < out@.len() ==> (#[trigger] out@[j]).1@.len() <= MAX_SOURCE_LEN,
            decreases n - i,
        {
            let ghost out0 = out@;
            proof {
                assert(pairs.skip(i as int).first() == pairs[i as int]);
                assert(pairs.skip(i as int).drop_first() =~= pairs.skip(i + 1));
            }
            let entry = &self.available_files.entries[i];
            if is_module_file(&self.config, &entry.0) {
                let p = clone_bytes(&entry.0);
                let t = clone_bytes(&entry.1);
                out.push((p, t));
                proof {
                    assert(pair_views(out@) =~= pair_views(out0).push(pairs[i as int]));
                    assert(pair_views(out0) + (seq![pairs[i as int]] + spec_module_entries(
                        pairs.skip(i + 1),
                        self.config,
                    )) =~= pair_views(out@) + spec_module_entries(pairs.skip(i + 1), self.config));
                }
            }
            i = i + 1;
        }
        proof {
            assert(pairs.skip(n as int) =~= Seq::<(Seq<u8>, Seq<u8>)>::empty());
            assert(pair_views(out@) + Seq::<(Seq<u8>, Seq<u8>)>::empty() =~= pair_views(out@));
        }
        out
    }

    /// Applies one atomic batch of changes.
    pub fn apply_change(&mut self, change: AnalysisChange)
        requires
            old(self).wf(),
            change_wf(change.ops@),
        ensures
            final(self).wf(),
            final(self).available_files.as_map() == apply_ops(
                old(self).available_files.as_map(),
                change.ops@,
            ),
            final(self).config == apply_ops_config(old(self).config, change.ops@),
    {
        let ghost all_ops = change.ops@;
        let ghost m0 = self.available_files.as_map();
        let ghost c0 = self.config;
        let mut ops = change.ops;
        let mut i: usize = 0;
        let n = ops.len();
        proof {
            assert(all_ops.subrange(0, 0) =~= Seq::<ChangeOp>::empty());
            assert(ops@ =~= all_ops.skip(0));
        }
        while i < n
            invariant
                i <= n,
                n == all_ops.len(),
                ops@ == all_ops.skip(i as int),
                change_wf(all_ops),
                self.wf(),
                self.available_files.as_map() == apply_ops(m0, all_ops.subrange(0, i as int)),
                self.config == apply_ops_config(c0, all_ops.subrange(0, i as int)),
            decreases n - i,
        {
            proof {
                assert(all_ops.subrange(0, i + 1).drop_last() =~= all_ops.subrange(0, i as int));
                assert(all_ops.subrange(0, i + 1).last() == all_ops[i as int]);
                assert(all_ops.skip(i as int)[0] == all_ops[i as int]);
            }
            let op = ops.remove(0);
            proof {
                assert(ops@ =~= all_ops.skip(i + 1));
            }
            match op {
                ChangeOp::Upsert(p, t) => {
                    self.available_files.upsert(p, t);
                },
                ChangeOp::Remove(p) => {
                    self.available_files.remove_file(&p);
                },
                ChangeOp::SetConfig(c) => {
                    self.config = c;
                },
            }
            i = i + 1;
        }
        proof {
            assert(all_ops.subrange(0, n as int) =~= all_ops);
        }
    }
}

} // verus!
