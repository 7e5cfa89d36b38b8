//! The key-value metadata table: a single `(key, value)` table holding the
//! identity's name, keypair, salt, wrapped master key and settings. Its
//! abstract state is a map from key text to value bytes.

use vstd::prelude::*;
use vstd::pervasive::VecAdditionalExecFns;
use vstd::slice::slice_to_vec;

verus! {

/// How a storage operation can fail: the key was already taken, or no row
/// has it.
#[derive(Debug, Clone, Copy, PartialEq, Eq, Structural)]
pub enum StoreError {
    NotFound,
    KeyExists,
}

struct KvRow {
    key: String,
    value: Vec<u8>,
}

/// One `(key, value)` table, keyed uniquely.
pub struct KeyValueTable {
    rows: Vec<KvRow>,
}

spec fn kv_rows_distinct(rows: Seq<KvRow>) -> bool {
    forall|i: int, j: int| 0 <= i < j < rows.len() ==> rows[i].key@ != rows[j].key@
}

spec fn kv_map(rows: Seq<KvRow>) -> Map<Seq<char>, Seq<u8>>
    decreases rows.len(),
{
    if rows.len() == 0 {
        Map::empty()
    } else {
        kv_map(rows.drop_last()).insert(rows.last().key@, rows.last().value@)
    }
}

proof fn lemma_kv_map_contains(rows: Seq<KvRow>)
    ensures
        forall|k: Seq<char>|
            kv_map(rows).contains_key(k) <==> exists|i: int|
                0 <= i < rows.len() && rows[i].key@ == k,
    decreases rows.len(),
{
    if rows.len() == 0 {
    } else {
        let dl = rows.drop_last();
        lemma_kv_map_contains(dl);
        assert forall|k: Seq<char>| kv_map(rows).contains_key(k) implies exists|i: int|
            0 <= i < rows.len() && rows[i].key@ == k by {
            if k == rows.last().key@ {
                assert(rows[rows.len() - 1].key@ == k);
            } else {
                assert(kv_map(rows) == kv_map(dl).insert(rows.last().key@, rows.last().value@));
                assert(kv_map(dl).contains_key(k));
                let i = choose|i: int| 0 <= i < dl.len() && dl[i].key@ == k;
                assert(dl[i] == rows[i]);
                assert(rows[i].key@ == k);
            }
        }
        assert forall|k: Seq<char>|
            exists|i: int| 0 <= i < rows.len() && rows[i].key@ == k implies kv_map(
            rows,
        ).contains_key(k) by {
            let i = choose|i: int| 0 <= i < rows.len() && rows[i].key@ == k;
            if i < rows.len() - 1 {
                assert(dl[i].key@ == k);
            }
        }
    }
}

proof fn lemma_kv_map_value(rows: Seq<KvRow>, i: int)
    requires
        kv_rows_distinct(rows),
        0 <= i < rows.len(),
    ensures
        kv_map(rows).contains_key(rows[i].key@),
        kv_map(rows)[rows[i].key@] == rows[i].value@,
    decreases rows.len(),
{
    let dl = rows.drop_last();
    if i == rows.len() - 1 {
    } else {
        assert(kv_rows_distinct(dl)) by {
            assert forall|a: int, b: int| 0 <= a < b < dl.len() implies dl[a].key@
                != dl[b].key@ by {
                assert(rows[a].key@ != rows[b].key@);
            }
        }
        assert(dl[i] == rows[i]);
        lemma_kv_map_value(dl, i);
        assert(rows[i].key@ != rows.last().key@);
    }
}

proof fn lemma_kv_distinct_drop_last(rows: Seq<KvRow>)
    requires
        kv_rows_distinct(rows),
        rows.len() > 0,
    ensures
        kv_rows_distinct(rows.drop_last()),
{
    let dl = rows.drop_last();
    assert forall|a: int, b: int| 0 <= a < b < dl.len() implies dl[a].key@ != dl[b].key@ by {
        assert(rows[a].key@ != rows[b].key@);
    }
}

proof fn lemma_kv_map_remove(rows: Seq<KvRow>, i: int)
    requires
        kv_rows_distinct(rows),
        0 <= i < rows.len(),
    ensures
        kv_rows_distinct(rows.remove(i)),
        kv_map(rows.remove(i)) == kv_map(rows).remove(rows[i].key@),
    decreases rows.len(),
{
    let k = rows[i].key@;
    let dl = rows.drop_last();
    lemma_kv_distinct_drop_last(rows);
    assert forall|a: int, b: int| 0 <= a < b < rows.remove(i).len() implies rows.remove(
        i,
    )[a].key@ != rows.remove(i)[b].key@ by {
        let ra = if a < i {
            a
        } else {
            a + 1
        };
        let rb = if b < i {
            b
        } else {
            b + 1
        };
        assert(rows.remove(i)[a] == rows[ra] && rows.remove(i)[b] == rows[rb]);
        assert(rows[ra].key@ != rows[rb].key@);
    }
    if i == rows.len() - 1 {
        assert(rows.remove(i) =~= dl);
        lemma_kv_map_contains(dl);
        assert(!kv_map(dl).contains_key(k)) by {
            if exists|j: int| 0 <= j < dl.len() && dl[j].key@ == k {
                let j = choose|j: int| 0 <= j < dl.len() && dl[j].key@ == k;
                assert(rows[j].key@ == rows[i].key@);
                assert(false);
            }
        }
        assert(kv_map(rows).remove(k) =~= kv_map(dl));
    } else {
        lemma_kv_map_remove(dl, i);
        assert(rows.remove(i).drop_last() =~= dl.remove(i));
        assert(rows.remove(i).last() == rows.last());
        assert(kv_map(rows.remove(i)) == kv_map(dl.remove(i)).insert(
            rows.last().key@,
            rows.last().value@,
        ));
        assert(rows[i].key@ != rows.last().key@);
        assert(kv_map(dl).remove(k).insert(rows.last().key@, rows.last().value@) =~= kv_map(
            dl,
        ).insert(rows.last().key@, rows.last().value@).remove(k));
    }
}

impl View for KeyValueTable {
    type V = Map<Seq<char>, Seq<u8>>;

    closed spec fn view(&self) -> Map<Seq<char>, Seq<u8>> {
        kv_map(self.rows@)
    }
}

impl KeyValueTable {
    /// Keys are unique: no two rows carry the same key.
    pub closed spec fn wf(&self) -> bool {
        kv_rows_distinct(self.rows@)
    }

    /// A fresh, empty table.
    pub fn new() -> (r: KeyValueTable)
        ensures
            r.wf(),
            r@ == Map::<Seq<char>, Seq<u8>>::empty(),
    {
        KeyValueTable { rows: Vec::new() }
    }

    fn find(&self, key: &str) -> (r: Option<usize>)
        ensures
            r matches Some(i) ==> i < self.rows@.len() && self.rows@[i as int].key@ == key@,
            r is None ==> forall|j: int| 0 <= j < self.rows@.len() ==> self.rows@[j].key@ != key@,
    {
        let needle = key.to_owned();
        let n = self.rows.len();
        for i in 0..n
            invariant
                n == self.rows@.len(),
                needle@ == key@,
                forall|j: int| 0 <= j < i ==> self.rows@[j].key@ != key@,
        {
            if self.rows[i].key == needle {
                return Some(i);
            }
        }
        None
    }

    /// Read the row under a key. Fails with `NotFound` exactly when the key
    /// holds no row.
    pub fn get(&self, key: &str) -> (r: Result<Vec<u8>, StoreError>)
        requires
            self.wf(),
        ensures
            (r is Ok) == self@.contains_key(key@),
            r matches Ok(v) ==> self@.contains_key(key@) && v@ == self@[key@],
            r matches Err(e) ==> e == StoreError::NotFound,
    {
        match self.find(key) {
            Some(i) => {
                proof {
                    lemma_kv_map_value(self.rows@, i as int);
                }
                let v = self.rows[i].value.clone();
                proof {
                    assert(v@ =~= self.rows@[i as int].value@);
                }
                Ok(v)
            },
            None => {
                proof {
                    lemma_kv_map_contains(self.rows@);
                }
                Err(StoreError::NotFound)
            },
        }
    }

    /// Insert a fresh row. Fails with `KeyExists`, changing nothing, when
    /// the key already holds one.
    pub fn set(&mut self, key: &str, value: &[u8]) -> (r: Result<usize, StoreError>)
        requires
            old(self).wf(),
        ensures
            final(self).wf(),
            (r is Ok) == !old(self)@.contains_key(key@),
            r is Ok ==> final(self)@ == old(self)@.insert(key@, value@) && r == Ok::<
                usize,
                StoreError,
            >(1),
            r is Err ==> final(self)@ == old(self)@ && r == Err::<usize, StoreError>(
                StoreError::KeyExists,
            ),
    {
        proof {
            lemma_kv_map_contains(self.rows@);
        }
        match self.find(key) {
            Some(_) => Err(StoreError::KeyExists),
            None => {
                let ghost before = self.rows@;
                self.rows.push(KvRow { key: key.to_owned(), value: slice_to_vec(value) });
                proof {
                    assert(self.rows@.drop_last() =~= before);
                }
                Ok(1)
            },
        }
    }

    /// Overwrite the row under a key, touching nothing when it is absent.
    /// Returns how many rows changed.
    pub fn update(&mut self, key: &str, value: &[u8]) -> (r: Result<usize, StoreError>)
        requires
            old(self).wf(),
        ensures
            final(self).wf(),
            r is Ok,
            old(self)@.contains_key(key@) ==> final(self)@ == old(self)@.insert(key@, value@) && r
                == Ok::<usize, StoreError>(1),
            !old(self)@.contains_key(key@) ==> final(self)@ == old(self)@ && r == Ok::<
                usize,
                StoreError,
            >(0),
    {
        proof {
            lemma_kv_map_contains(self.rows@);
        }
        match self.find(key) {
            Some(i) => {
                self.replace_at(i, key, value);
                Ok(1)
            },
            None => Ok(0),
        }
    }

    /// Insert the row or overwrite the one already there.
    pub fn upsert(&mut self, key: &str, value: &[u8]) -> (r: Result<usize, StoreError>)
        requires
            old(self).wf(),
        ensures
            final(self).wf(),
            final(self)@ == old(self)@.insert(key@, value@),
            r == Ok::<usize, StoreError>(1),
    {
        proof {
            lemma_kv_map_contains(self.rows@);
        }
        match self.find(key) {
            Some(i) => {
                self.replace_at(i, key, value);
                Ok(1)
            },
            None => {
                let ghost before = self.rows@;
                self.rows.push(KvRow { key: key.to_owned(), value: slice_to_vec(value) });
                proof {
                    assert(self.rows@.drop_last() =~= before);
                }
                Ok(1)
            },
        }
    }

    /// Delete the row under a key, if any. Returns how many rows left.
    pub fn del(&mut self, key: &str) -> (r: Result<usize, StoreError>)
        requires
            old(self).wf(),
        ensures
            final(self).wf(),
            r is Ok,
            final(self)@ == old(self)@.remove(key@),
            old(self)@.contains_key(key@) ==> r == Ok::<usize, StoreError>(1),
            !old(self)@.contains_key(key@) ==> r == Ok::<usize, StoreError>(0),
    {
        proof {
            lemma_kv_map_contains(self.rows@);
        }
        match self.find(key) {
            Some(i) => {
                proof {
                    lemma_kv_map_remove(self.rows@, i as int);
                }
                self.rows.remove(i);
                Ok(1)
            },
            None => {
                proof {
                    assert(kv_map(self.rows@).remove(key@) =~= kv_map(self.rows@));
                }
                Ok(0)
            },
        }
    }

    fn replace_at(&mut self, i: usize, key: &str, value: &[u8])
        requires
            old(self).wf(),
            i < old(self).rows@.len(),
            old(self).rows@[i as int].key@ == key@,
        ensures
            final(self).wf(),
            final(self)@ == old(self)@.insert(key@, value@),
    {
        proof {
            lemma_kv_map_remove(self.rows@, i as int);
        }
        let ghost before = self.rows@;
        self.rows.remove(i);
        let ghost removed = self.rows@;
        self.rows.push(KvRow { key: key.to_owned(), value: slice_to_vec(value) });
        proof {
            assert(self.rows@.drop_last() =~= removed);
            assert forall|a: int, b: int|
                0 <= a < b < self.rows@.len() implies self.rows@[a].key@
                != self.rows@[b].key@ by {
                if b == self.rows@.len() - 1 {
                    let ra = if a < i {
                        a
                    } else {
                        a + 1
                    };
                    assert(removed[a] == before[ra]);
                    if ra != i {
                        assert(before[ra].key@ != before[i as int].key@);
                    }
                } else {
                    assert(removed[a].key@ != removed[b].key@);
                }
            }
            assert(kv_map(self.rows@) =~= kv_map(before).insert(key@, value@));
        }
    }
}

} // verus!
