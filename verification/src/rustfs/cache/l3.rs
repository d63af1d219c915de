//! Cold-storage (L3) tier: backend statistics and the in-memory backend.

use vstd::prelude::*;

verus! {

/// L3 backend statistics.
#[derive(Debug, Clone, Copy, PartialEq, Eq, Default)]
pub struct L3BackendStats {
    /// Total objects stored
    pub object_count: u64,
    /// Total bytes stored
    pub total_bytes: u64,
    /// Read operations
    pub reads: u64,
    /// Write operations
    pub writes: u64,
    /// Delete operations
    pub deletes: u64,
}

/// 64-bit wrapping addition, as the counters use.
pub open spec fn wadd(a: u64, b: u64) -> u64 {
    vstd::wrapping::u64_specs::wrapping_add(a, b)
}

/// 64-bit wrapping subtraction, as the counters use.
pub open spec fn wsub(a: u64, b: u64) -> u64 {
    vstd::wrapping::u64_specs::wrapping_sub(a, b)
}

/// A stored object: bucket, key and data.
pub type StoredObject = (String, String, Vec<u8>);

/// Position of the object stored under `bucket`/`key`, if any.
pub open spec fn object_index(objs: Seq<StoredObject>, bucket: Seq<char>, key: Seq<char>) -> Option<int> {
    if exists|i: int| 0 <= i < objs.len() && (#[trigger] objs[i]).0@ == bucket && objs[i].1@ == key {
        Some(choose|i: int| 0 <= i < objs.len() && (#[trigger] objs[i]).0@ == bucket && objs[i].1@ == key)
    } else {
        None
    }
}

/// No two stored objects share a bucket and key.
pub open spec fn unique_objects(objs: Seq<StoredObject>) -> bool {
    forall|i: int, j: int|
        0 <= i < j < objs.len() ==> !((#[trigger] objs[i]).0@ == (#[trigger] objs[j]).0@ && objs[i].1@ == objs[j].1@)
}

/// The stored data by bucket and key.
pub open spec fn objects_map(objs: Seq<StoredObject>) -> Map<(Seq<char>, Seq<char>), Seq<u8>> {
    Map::new(
        |p: (Seq<char>, Seq<char>)| object_index(objs, p.0, p.1) is Some,
        |p: (Seq<char>, Seq<char>)| objs[object_index(objs, p.0, p.1)->0].2@,
    )
}

/// No stored objects.
pub open spec fn no_objects() -> Map<(Seq<char>, Seq<char>), Seq<u8>> {
    Map::empty()
}

/// A found position holds an object with that bucket and key.
proof fn lemma_object_found(objs: Seq<StoredObject>, bucket: Seq<char>, key: Seq<char>)
    ensures
        object_index(objs, bucket, key) matches Some(i) ==> 0 <= i < objs.len() && objs[i].0@ == bucket && objs[i].1@
            == key,
{
}

/// With unique objects, the object at `j` is the one found for its bucket and key.
proof fn lemma_object_index(objs: Seq<StoredObject>, j: int)
    requires
        unique_objects(objs),
        0 <= j < objs.len(),
    ensures
        object_index(objs, objs[j].0@, objs[j].1@) == Some(j),
{
    let b = objs[j].0@;
    let k = objs[j].1@;
    assert(objs[j].0@ == b && objs[j].1@ == k);
    let i = choose|i: int| 0 <= i < objs.len() && (#[trigger] objs[i]).0@ == b && objs[i].1@ == k;
    if i < j {
        assert(!((objs[i]).0@ == (objs[j]).0@ && objs[i].1@ == objs[j].1@));
    } else if i > j {
        assert(!((objs[j]).0@ == (objs[i]).0@ && objs[j].1@ == objs[i].1@));
    }
}

/// In-memory cold-storage backend: objects by bucket and key, with
/// operation counters.
#[derive(Debug)]
pub struct InMemoryL3Backend {
    objects: Vec<StoredObject>,
    object_count: u64,
    total_bytes: u64,
    reads: u64,
    writes: u64,
    deletes: u64,
}

impl InMemoryL3Backend {
    /// The stored objects.
    pub closed spec fn objects_spec(&self) -> Seq<StoredObject> {
        self.objects@
    }

    /// The stored data by bucket and key.
    pub open spec fn contents(&self) -> Map<(Seq<char>, Seq<char>), Seq<u8>> {
        objects_map(self.objects_spec())
    }

    /// The counters.
    pub closed spec fn stats_spec(&self) -> L3BackendStats {
        L3BackendStats {
            object_count: self.object_count,
            total_bytes: self.total_bytes,
            reads: self.reads,
            writes: self.writes,
            deletes: self.deletes,
        }
    }

    /// No two objects share a bucket and key.
    pub open spec fn wf(&self) -> bool {
        unique_objects(self.objects_spec())
    }

    /// An empty backend.
    pub fn new() -> (r: InMemoryL3Backend)
        ensures
            r.wf(),
            r.contents() == no_objects(),
            r.stats_spec() == (L3BackendStats { object_count: 0, total_bytes: 0, reads: 0, writes: 0, deletes: 0 }),
    {
        let r = InMemoryL3Backend {
            objects: Vec::new(),
            object_count: 0,
            total_bytes: 0,
            reads: 0,
            writes: 0,
            deletes: 0,
        };
        assert(r.contents() =~= no_objects());
        r
    }

    /// Position of the object stored under `bucket`/`key`.
    fn find(&self, bucket: &str, key: &str) -> (r: Option<usize>)
        requires
            self.wf(),
        ensures
            r is None <==> object_index(self.objects_spec(), bucket@, key@) is None,
            r matches Some(i) ==> object_index(self.objects_spec(), bucket@, key@) == Some(i as int) && i
                < self.objects_spec().len() && self.objects_spec()[i as int].0@ == bucket@
                && self.objects_spec()[i as int].1@ == key@,
    {
        let b = bucket.to_owned();
        let k = key.to_owned();
        let mut i: usize = 0;
        while i < self.objects.len()
            invariant
                0 <= i <= self.objects@.len(),
                unique_objects(self.objects@),
                b@ == bucket@,
                k@ == key@,
                forall|j: int| 0 <= j < i ==> !((#[trigger] self.objects@[j]).0@ == bucket@ && self.objects@[j].1@ == key@),
            decreases self.objects@.len() - i,
        {
            if self.objects[i].0 == b && self.objects[i].1 == k {
                proof {
                    lemma_object_index(self.objects@, i as int);
                }
                return Some(i);
            }
            i += 1;
        }
        proof {
            lemma_object_found(self.objects@, bucket@, key@);
        }
        None
    }

    /// The data stored under `bucket`/`key`; counts a read.
    pub fn get(&mut self, bucket: &str, key: &str) -> (r: Option<Vec<u8>>)
        requires
            old(self).wf(),
        ensures
            final(self).wf(),
            final(self).contents() == old(self).contents(),
            final(self).stats_spec() == (L3BackendStats { reads: wadd(old(self).stats_spec().reads, 1), ..old(self).stats_spec() }),
            match r {
                Some(d) => old(self).contents().contains_key((bucket@, key@)) && d@ == old(self).contents()[(bucket@, key@)],
                None => !old(self).contents().contains_key((bucket@, key@)),
            },
    {
        self.reads = self.reads.wrapping_add(1);
        match self.find(bucket, key) {
            Some(i) => {
                let v = self.objects[i].2.clone();
                proof {
                    lemma_object_found(self.objects@, bucket@, key@);
                    assert(v@ =~= self.objects@[i as int].2@);
                    assert(objects_map(self.objects@).contains_key((bucket@, key@)));
                    assert(objects_map(self.objects@)[(bucket@, key@)] == self.objects@[i as int].2@);
                }
                Some(v)
            },
            None => None,
        }
    }

    /// Stores `data` under `bucket`/`key`, replacing what was there; counts
    /// a write and keeps the object count and byte total.
    pub fn put(&mut self, bucket: &str, key: &str, data: Vec<u8>)
        requires
            old(self).wf(),
        ensures
            final(self).wf(),
            final(self).contents() == old(self).contents().insert((bucket@, key@), data@),
            ({
                let s = old(self).stats_spec();
                let size = data@.len() as u64;
                final(self).stats_spec() == if old(self).contents().contains_key((bucket@, key@)) {
                    let old_size = old(self).contents()[(bucket@, key@)].len() as u64;
                    L3BackendStats {
                        writes: wadd(s.writes, 1),
                        total_bytes: if size > old_size {
                            wadd(s.total_bytes, (size - old_size) as u64)
                        } else {
                            wsub(s.total_bytes, (old_size - size) as u64)
                        },
                        ..s
                    }
                } else {
                    L3BackendStats {
                        writes: wadd(s.writes, 1),
                        object_count: wadd(s.object_count, 1),
                        total_bytes: wadd(s.total_bytes, size),
                        ..s
                    }
                }
            }),
    {
        self.writes = self.writes.wrapping_add(1);
        let size = data.len() as u64;
        let ghost old_objs = self.objects@;
        let ghost pair = (bucket@, key@);
        let ghost dv = data@;
        match self.find(bucket, key) {
            Some(i) => {
                let old_size = self.objects[i].2.len() as u64;
                if size > old_size {
                    self.total_bytes = self.total_bytes.wrapping_add(size - old_size);
                } else {
                    self.total_bytes = self.total_bytes.wrapping_sub(old_size - size);
                }
                proof {
                    lemma_object_found(old_objs, bucket@, key@);
                }
                let entry = (bucket.to_owned(), key.to_owned(), data);
                assert(entry.0@ == bucket@ && entry.1@ == key@);
                self.objects.set(i, entry);
                proof {
                    let objs = self.objects@;
                    assert(objs == old_objs.update(i as int, entry));
                    assert(unique_objects(objs)) by {
                        assert forall|a: int, b: int| 0 <= a < b < objs.len() implies !((#[trigger] objs[a]).0@
                            == (#[trigger] objs[b]).0@ && objs[a].1@ == objs[b].1@) by {
                            if a == i as int {
                                assert(objs[a] == entry);
                            } else {
                                assert(objs[a] == old_objs[a]);
                            }
                            if b == i as int {
                                assert(objs[b] == entry);
                            } else {
                                assert(objs[b] == old_objs[b]);
                            }
                            assert(old_objs[a].0@ == objs[a].0@ && old_objs[a].1@ == objs[a].1@);
                            assert(old_objs[b].0@ == objs[b].0@ && old_objs[b].1@ == objs[b].1@);
                        }
                    }
                    assert forall|p: (Seq<char>, Seq<char>)| #[trigger] object_index(objs, p.0, p.1) == object_index(old_objs, p.0, p.1) by {
                        if let Some(j) = object_index(old_objs, p.0, p.1) {
                            assert(objs[j].0@ == old_objs[j].0@ && objs[j].1@ == old_objs[j].1@);
                            lemma_object_index(objs, j);
                        } else {
                            if object_index(objs, p.0, p.1) is Some {
                                let j = object_index(objs, p.0, p.1)->0;
                                assert(objs[j].0@ == old_objs[j].0@ && objs[j].1@ == old_objs[j].1@);
                                assert(old_objs[j].0@ == p.0 && old_objs[j].1@ == p.1);
                            }
                        }
                    }
                    lemma_object_index(old_objs, i as int);
                    assert(objects_map(objs) =~= objects_map(old_objs).insert(pair, dv));
                }
            },
            None => {
                self.object_count = self.object_count.wrapping_add(1);
                self.total_bytes = self.total_bytes.wrapping_add(size);
                let entry = (bucket.to_owned(), key.to_owned(), data);
                assert(entry.0@ == bucket@ && entry.1@ == key@);
                self.objects.push(entry);
                proof {
                    let objs = self.objects@;
                    let n = old_objs.len() as int;
                    assert(unique_objects(objs)) by {
                        assert forall|a: int, b: int| 0 <= a < b < objs.len() implies !((#[trigger] objs[a]).0@
                            == (#[trigger] objs[b]).0@ && objs[a].1@ == objs[b].1@) by {
                            if b == n {
                                assert(objs[a] == old_objs[a]);
                            } else {
                                assert(objs[a] == old_objs[a] && objs[b] == old_objs[b]);
                            }
                        }
                    }
                    lemma_object_index(objs, n);
                    assert forall|p: (Seq<char>, Seq<char>)| p != pair implies #[trigger] object_index(objs, p.0, p.1)
                        == object_index(old_objs, p.0, p.1) by {
                        if let Some(j) = object_index(old_objs, p.0, p.1) {
                            assert(objs[j] == old_objs[j]);
                            lemma_object_index(objs, j);
                        } else {
                            if object_index(objs, p.0, p.1) is Some {
                                let j = object_index(objs, p.0, p.1)->0;
                                if j < n {
                                    assert(objs[j] == old_objs[j]);
                                }
                            }
                        }
                    }
                    assert forall|p: (Seq<char>, Seq<char>)| p != pair && #[trigger] object_index(old_objs, p.0, p.1) is Some
                        implies objs[object_index(objs, p.0, p.1)->0] == old_objs[object_index(old_objs, p.0, p.1)->0] by {
                        let j = object_index(old_objs, p.0, p.1)->0;
                        assert(objs[j] == old_objs[j]);
                        lemma_object_index(objs, j);
                    }
                    assert(objects_map(objs) =~= objects_map(old_objs).insert(pair, dv));
                }
            },
        }
    }

    /// Removes the object under `bucket`/`key`; says whether there was one.
    /// Counts a delete either way.
    pub fn delete(&mut self, bucket: &str, key: &str) -> (r: bool)
        requires
            old(self).wf(),
        ensures
            final(self).wf(),
            r == old(self).contents().contains_key((bucket@, key@)),
            final(self).contents() == old(self).contents().remove((bucket@, key@)),
            ({
                let s = old(self).stats_spec();
                final(self).stats_spec() == if r {
                    L3BackendStats {
                        deletes: wadd(s.deletes, 1),
                        object_count: wsub(s.object_count, 1),
                        total_bytes: wsub(s.total_bytes, old(self).contents()[(bucket@, key@)].len() as u64),
                        ..s
                    }
                } else {
                    L3BackendStats { deletes: wadd(s.deletes, 1), ..s }
                }
            }),
    {
        self.deletes = self.deletes.wrapping_add(1);
        let ghost old_objs = self.objects@;
        let ghost pair = (bucket@, key@);
        match self.find(bucket, key) {
            Some(i) => {
                proof {
                    lemma_object_found(old_objs, bucket@, key@);
                }
                let removed = self.objects.remove(i);
                self.object_count = self.object_count.wrapping_sub(1);
                self.total_bytes = self.total_bytes.wrapping_sub(removed.2.len() as u64);
                proof {
                    let objs = self.objects@;
                    let ii = i as int;
                    assert(objs =~= old_objs.remove(ii));
                    assert(unique_objects(objs)) by {
                        assert forall|a: int, b: int| 0 <= a < b < objs.len() implies !((#[trigger] objs[a]).0@
                            == (#[trigger] objs[b]).0@ && objs[a].1@ == objs[b].1@) by {
                            let oa = if a < ii { a } else { a + 1 };
                            let ob = if b < ii { b } else { b + 1 };
                            assert(objs[a] == old_objs[oa] && objs[b] == old_objs[ob]);
                        }
                    }
                    lemma_object_index(old_objs, ii);
                    assert forall|p: (Seq<char>, Seq<char>)| p != pair && #[trigger] object_index(old_objs, p.0, p.1) is Some
                        implies object_index(objs, p.0, p.1) is Some && objs[object_index(objs, p.0, p.1)->0]
                        == old_objs[object_index(old_objs, p.0, p.1)->0] by {
                        let j = object_index(old_objs, p.0, p.1)->0;
                        lemma_object_found(old_objs, p.0, p.1);
                        if j == ii {
                            assert(p.0 == pair.0 && p.1 == pair.1);
                            assert(p == pair);
                        }
                        let nj = if j < ii { j } else { j - 1 };
                        assert(objs[nj] == old_objs[j]);
                        lemma_object_index(objs, nj);
                    }
                    assert forall|p: (Seq<char>, Seq<char>)| #[trigger] object_index(objs, p.0, p.1) is Some
                        implies p != pair && object_index(old_objs, p.0, p.1) is Some by {
                        let j = object_index(objs, p.0, p.1)->0;
                        lemma_object_found(objs, p.0, p.1);
                        let oj = if j < ii { j } else { j + 1 };
                        assert(objs[j] == old_objs[oj]);
                        lemma_object_index(old_objs, oj);
                        if p == pair {
                            assert(oj != ii);
                        }
                    }
                    assert(objects_map(objs) =~= objects_map(old_objs).remove(pair));
                }
                true
            },
            None => {
                assert(objects_map(old_objs).remove(pair) =~= objects_map(old_objs));
                false
            },
        }
    }

    /// Whether an object is stored under `bucket`/`key`; counts a read.
    pub fn has_object(&mut self, bucket: &str, key: &str) -> (r: bool)
        requires
            old(self).wf(),
        ensures
            final(self).wf(),
            final(self).contents() == old(self).contents(),
            final(self).stats_spec() == (L3BackendStats { reads: wadd(old(self).stats_spec().reads, 1), ..old(self).stats_spec() }),
            r == old(self).contents().contains_key((bucket@, key@)),
    {
        self.reads = self.reads.wrapping_add(1);
        self.find(bucket, key).is_some()
    }

    /// The counters.
    pub fn stats(&self) -> (r: L3BackendStats)
        ensures
            r == self.stats_spec(),
    {
        L3BackendStats {
            object_count: self.object_count,
            total_bytes: self.total_bytes,
            reads: self.reads,
            writes: self.writes,
            deletes: self.deletes,
        }
    }
}

/// Reading an object back gives the data last stored under its bucket and
/// key; storing under one bucket and key leaves every other object as it was.
pub proof fn law_get_after_put(
    before: InMemoryL3Backend,
    after: InMemoryL3Backend,
    bucket: Seq<char>,
    key: Seq<char>,
    data: Seq<u8>,
    other: (Seq<char>, Seq<char>),
)
    requires
        after.contents() == before.contents().insert((bucket, key), data),
        other != (bucket, key),
    ensures
        after.contents().contains_key((bucket, key)),
        after.contents()[(bucket, key)] == data,
        after.contents().contains_key(other) == before.contents().contains_key(other),
        before.contents().contains_key(other) ==> after.contents()[other] == before.contents()[other],
{
}

/// A deleted object is gone, and no other object is touched.
pub proof fn law_delete_removes_only_target(
    before: InMemoryL3Backend,
    after: InMemoryL3Backend,
    bucket: Seq<char>,
    key: Seq<char>,
    other: (Seq<char>, Seq<char>),
)
    requires
        after.contents() == before.contents().remove((bucket, key)),
        other != (bucket, key),
    ensures
        !after.contents().contains_key((bucket, key)),
        after.contents().contains_key(other) == before.contents().contains_key(other),
        before.contents().contains_key(other) ==> after.contents()[other] == before.contents()[other],
{
}

} // verus!
