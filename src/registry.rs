use vstd::prelude::*;

verus! {

/// Names one channel: the connection that owns it and the channel's number
/// within that connection. Channel numbers are unique within a connection only.
#[derive(Clone, Copy, Debug, PartialEq, Eq, Structural)]
pub struct ChannelKey {
    pub conn: u64,
    pub chan: u32,
}

/// A registered channel together with the handle that delivers data to it.
pub struct Entry<H> {
    pub key: ChannelKey,
    pub handle: H,
}

/// No two entries share a key.
pub open spec fn keys_unique<H>(s: Seq<Entry<H>>) -> bool {
    forall|i: int, j: int|
        0 <= i < s.len() && 0 <= j < s.len() && #[trigger] s[i].key == #[trigger] s[j].key ==> i
            == j
}

pub open spec fn has_key<H>(s: Seq<Entry<H>>, k: ChannelKey) -> bool {
    exists|i: int| 0 <= i < s.len() && #[trigger] s[i].key == k
}

/// Position of the entry with key `k`, or -1 when there is none.
pub open spec fn index_of<H>(s: Seq<Entry<H>>, k: ChannelKey) -> int {
    if has_key(s, k) {
        choose|i: int| 0 <= i < s.len() && #[trigger] s[i].key == k
    } else {
        -1
    }
}

/// The entries of `s` owned by a connection other than `conn`, in their order.
pub open spec fn other_conns<H>(s: Seq<Entry<H>>, conn: u64) -> Seq<Entry<H>>
    decreases s.len(),
{
    if s.len() == 0 {
        Seq::empty()
    } else {
        let rest = other_conns(s.subrange(1, s.len() as int), conn);
        if s[0].key.conn != conn {
            seq![s[0]] + rest
        } else {
            rest
        }
    }
}

/// `s` after registering `key` with `handle`: the entry's handle is replaced
/// where the key is present, else the entry is appended.
pub open spec fn registered<H>(s: Seq<Entry<H>>, key: ChannelKey, handle: H) -> Seq<Entry<H>> {
    if has_key(s, key) {
        s.update(index_of(s, key), Entry { key, handle })
    } else {
        s.push(Entry { key, handle })
    }
}

/// `s` after removing the entry for `key`, if there is one.
pub open spec fn deregistered<H>(s: Seq<Entry<H>>, key: ChannelKey) -> Seq<Entry<H>> {
    if has_key(s, key) {
        s.remove(index_of(s, key))
    } else {
        s
    }
}

/// `b` holds the keys of `a`, in the same order, each with a clone of its handle.
pub open spec fn clones_of<H: Clone>(a: Seq<Entry<H>>, b: Seq<Entry<H>>) -> bool {
    &&& a.len() == b.len()
    &&& forall|i: int| 0 <= i < a.len() ==> #[trigger] b[i].key == a[i].key
    &&& forall|i: int| 0 <= i < a.len() ==> cloned(a[i].handle, #[trigger] b[i].handle)
}

pub proof fn lemma_other_conns_append<H>(a: Seq<Entry<H>>, b: Seq<Entry<H>>, conn: u64)
    ensures
        other_conns(a + b, conn) == other_conns(a, conn) + other_conns(b, conn),
    decreases a.len(),
{
    if a.len() == 0 {
        assert(a + b =~= b);
        assert(other_conns(a, conn) + other_conns(b, conn) =~= other_conns(b, conn));
    } else {
        let ab = a + b;
        assert(ab.subrange(1, ab.len() as int) =~= a.subrange(1, a.len() as int) + b);
        lemma_other_conns_append(a.subrange(1, a.len() as int), b, conn);
        assert(ab[0] == a[0]);
        if a[0].key.conn != conn {
            assert(seq![a[0]] + (other_conns(a.subrange(1, a.len() as int), conn) + other_conns(
                b,
                conn,
            )) =~= (seq![a[0]] + other_conns(a.subrange(1, a.len() as int), conn)) + other_conns(
                b,
                conn,
            ));
        }
    }
}

/// What the filter keeps: exactly the entries of other connections, each once
/// when the keys of `s` are unique.
pub proof fn lemma_other_conns_members<H>(s: Seq<Entry<H>>, conn: u64)
    ensures
        forall|i: int|
            0 <= i < other_conns(s, conn).len() ==> #[trigger] other_conns(s, conn)[i].key.conn
                != conn && has_key(s, other_conns(s, conn)[i].key),
        forall|j: int|
            0 <= j < s.len() && #[trigger] s[j].key.conn != conn ==> has_key(
                other_conns(s, conn),
                s[j].key,
            ),
        keys_unique(s) ==> forall|i: int|
            0 <= i < other_conns(s, conn).len() ==> s[index_of(
                s,
                #[trigger] other_conns(s, conn)[i].key,
            )] == other_conns(s, conn)[i],
        keys_unique(s) ==> keys_unique(other_conns(s, conn)),
        other_conns(s, conn).len() <= s.len(),
    decreases s.len(),
{
    if s.len() > 0 {
        let tail = s.subrange(1, s.len() as int);
        lemma_other_conns_members(tail, conn);
        let r = other_conns(s, conn);
        let rt = other_conns(tail, conn);
        assert forall|i: int| 0 <= i < r.len() implies #[trigger] r[i].key.conn != conn && has_key(
            s,
            r[i].key,
        ) by {
            if s[0].key.conn != conn {
                assert(r == seq![s[0]] + rt);
                if i == 0 {
                    assert(s[0].key == r[i].key);
                } else {
                    assert(r[i] == rt[i - 1]);
                    assert(rt[i - 1].key.conn != conn);
                    let j = choose|j: int| 0 <= j < tail.len() && #[trigger] tail[j].key == rt[i - 1].key;
                    assert(s[j + 1].key == r[i].key);
                }
            } else {
                assert(r == rt);
                assert(rt[i].key.conn != conn);
                let j = choose|j: int| 0 <= j < tail.len() && #[trigger] tail[j].key == rt[i].key;
                assert(s[j + 1].key == r[i].key);
            }
        }
        assert forall|j: int| 0 <= j < s.len() && #[trigger] s[j].key.conn != conn implies has_key(
            r,
            s[j].key,
        ) by {
            if j == 0 {
                assert(r[0].key == s[0].key);
            } else {
                assert(tail[j - 1].key.conn != conn);
                let m = choose|m: int| 0 <= m < rt.len() && #[trigger] rt[m].key == tail[j - 1].key;
                if s[0].key.conn != conn {
                    assert(r[m + 1].key == s[j].key);
                } else {
                    assert(r[m].key == s[j].key);
                }
            }
        }
        if keys_unique(s) {
            assert(keys_unique(tail)) by {
                assert forall|a: int, b: int|
                    0 <= a < tail.len() && 0 <= b < tail.len() && #[trigger] tail[a].key
                        == #[trigger] tail[b].key implies a == b by {
                    assert(s[a + 1].key == s[b + 1].key);
                }
            }
            assert forall|i: int| 0 <= i < r.len() implies has_key(s, #[trigger] r[i].key) && s[index_of(
                s,
                r[i].key,
            )] == r[i] by {
                let e = if s[0].key.conn != conn && i == 0 {
                    0
                } else {
                    let ti = if s[0].key.conn != conn {
                        i - 1
                    } else {
                        i
                    };
                    assert(r[i] == rt[ti]);
                    assert(rt[ti].key.conn != conn);
                    assert(has_key(tail, rt[ti].key));
                    let t = index_of(tail, rt[ti].key);
                    assert(tail[t] == rt[ti]);
                    t + 1
                };
                assert(s[e] == r[i]);
                let p = index_of(s, r[i].key);
                assert(s[p].key == s[e].key);
            }
            assert forall|a: int, b: int|
                0 <= a < r.len() && 0 <= b < r.len() && #[trigger] r[a].key == #[trigger] r[b].key implies a
                == b by {
                if s[0].key.conn != conn {
                    if a == 0 && b != 0 {
                        let t = index_of(tail, rt[b - 1].key);
                        assert(s[t + 1].key == s[0].key);
                    } else if b == 0 && a != 0 {
                        let t = index_of(tail, rt[a - 1].key);
                        assert(s[t + 1].key == s[0].key);
                    } else if a != 0 && b != 0 {
                        assert(rt[a - 1].key == rt[b - 1].key);
                    }
                } else {
                    assert(rt[a].key == rt[b].key);
                }
            }
        }
    }
}

/// The shared table of open channels: one entry per key, kept in the order in
/// which the keys were first registered.
pub struct Registry<H> {
    entries: Vec<Entry<H>>,
}

impl<H> Registry<H> {
    pub closed spec fn entries(&self) -> Seq<Entry<H>> {
        self.entries@
    }

    pub open spec fn wf(&self) -> bool {
        keys_unique(self.entries())
    }

    pub fn new() -> (r: Self)
        ensures
            r.wf(),
            r.entries() == Seq::<Entry<H>>::empty(),
    {
        Registry { entries: Vec::new() }
    }

    /// Position of `key`, if it is registered.
    fn find(&self, key: ChannelKey) -> (r: Option<usize>)
        requires
            self.wf(),
        ensures
            match r {
                Some(i) => has_key(self.entries(), key) && i as int == index_of(self.entries(), key)
                    && i < self.entries().len(),
                None => !has_key(self.entries(), key),
            },
    {
        let n = self.entries.len();
        let mut i: usize = 0;
        while i < n
            invariant
                self.wf(),
                n == self.entries@.len(),
                i <= n,
                forall|j: int| 0 <= j < i ==> self.entries@[j].key != key,
            decreases n - i,
        {
            if self.entries[i].key == key {
                proof {
                    assert(self.entries@[i as int].key == key);
                    assert(has_key(self.entries(), key));
                    let p = index_of(self.entries(), key);
                    assert(self.entries@[p].key == self.entries@[i as int].key);
                }
                return Some(i);
            }
            i = i + 1;
        }
        None
    }

    /// Inserts the entry for `key`, or replaces its handle where the key is
    /// already registered.
    pub fn register(&mut self, key: ChannelKey, handle: H)
        requires
            old(self).wf(),
        ensures
            final(self).wf(),
            final(self).entries() == registered(old(self).entries(), key, handle),
    {
        match self.find(key) {
            Some(i) => {
                self.entries.set(i, Entry { key, handle });
            },
            None => {
                self.entries.push(Entry { key, handle });
                proof {
                    let s = self.entries@;
                    assert forall|a: int, b: int|
                        0 <= a < s.len() && 0 <= b < s.len() && #[trigger] s[a].key
                            == #[trigger] s[b].key implies a == b by {
                        if a == s.len() - 1 && b != a {
                            assert(old(self).entries@[b].key == key);
                        } else if b == s.len() - 1 && b != a {
                            assert(old(self).entries@[a].key == key);
                        } else {
                            assert(old(self).entries@[a].key == old(self).entries@[b].key);
                        }
                    }
                }
            },
        }
    }

    /// Removes the entry for `key`; removing an absent key changes nothing.
    /// Returns whether an entry was removed.
    pub fn deregister(&mut self, key: ChannelKey) -> (r: bool)
        requires
            old(self).wf(),
        ensures
            final(self).wf(),
            r == has_key(old(self).entries(), key),
            final(self).entries() == deregistered(old(self).entries(), key),
    {
        match self.find(key) {
            Some(i) => {
                let _gone = self.entries.remove(i);
                proof {
                    let o = old(self).entries@;
                    let s = self.entries@;
                    assert forall|a: int, b: int|
                        0 <= a < s.len() && 0 <= b < s.len() && #[trigger] s[a].key
                            == #[trigger] s[b].key implies a == b by {
                        let oa = if a < i {
                            a
                        } else {
                            a + 1
                        };
                        let ob = if b < i {
                            b
                        } else {
                            b + 1
                        };
                        assert(o[oa].key == o[ob].key);
                    }
                }
                true
            },
            None => false,
        }
    }

    /// Removes every entry owned by connection `conn`; the others keep their order.
    pub fn deregister_connection(&mut self, conn: u64)
        requires
            old(self).wf(),
        ensures
            final(self).wf(),
            final(self).entries() == other_conns(old(self).entries(), conn),
    {
        let ghost o = self.entries@;
        let mut i: usize = self.entries.len();
        while i > 0
            invariant
                i <= o.len(),
                self.entries@ == o.subrange(0, i as int) + other_conns(
                    o.subrange(i as int, o.len() as int),
                    conn,
                ),
            decreases i,
        {
            let ghost before = self.entries@;
            let ghost rest = o.subrange(i as int, o.len() as int);
            let ghost from = o.subrange(i - 1, o.len() as int);
            assert(from.subrange(1, from.len() as int) =~= rest);
            assert(from[0] == o[i - 1]);
            proof {
                lemma_other_conns_members(rest, conn);
            }
            if self.entries[i - 1].key.conn == conn {
                let _gone = self.entries.remove(i - 1);
                assert(self.entries@ =~= o.subrange(0, i - 1) + other_conns(from, conn));
            } else {
                assert(before =~= o.subrange(0, i - 1) + other_conns(from, conn));
            }
            i = i - 1;
        }
        assert(o.subrange(0, 0) + other_conns(o.subrange(0, o.len() as int), conn) =~= other_conns(
            o,
            conn,
        )) by {
            assert(o.subrange(0, o.len() as int) =~= o);
        }
        proof {
            lemma_other_conns_members(o, conn);
        }
    }

    /// Number of registered channels.
    pub fn len(&self) -> (r: usize)
        ensures
            r == self.entries().len(),
    {
        self.entries.len()
    }

    /// Whether `key` is registered.
    pub fn contains(&self, key: ChannelKey) -> (r: bool)
        requires
            self.wf(),
        ensures
            r == has_key(self.entries(), key),
    {
        self.find(key).is_some()
    }
}

impl<H: Clone> Registry<H> {
    /// A snapshot of every channel whose connection is not `excluding`, in
    /// registry order, each with a clone of its handle. The snapshot owns its
    /// handles, so the caller may release the registry before using them.
    pub fn broadcast_targets(&self, excluding: u64) -> (r: Vec<Entry<H>>)
        ensures
            clones_of(other_conns(self.entries(), excluding), r@),
    {
        let n = self.entries.len();
        let ghost s = self.entries@;
        let mut out: Vec<Entry<H>> = Vec::new();
        let mut i: usize = 0;
        while i < n
            invariant
                n == s.len(),
                s == self.entries@,
                i <= n,
                clones_of(other_conns(s.subrange(0, i as int), excluding), out@),
            decreases n - i,
        {
            proof {
                lemma_other_conns_append(s.subrange(0, i as int), seq![s[i as int]], excluding);
                assert(s.subrange(0, i as int) + seq![s[i as int]] =~= s.subrange(0, i + 1));
                let one = seq![s[i as int]];
                assert(one.subrange(1, one.len() as int) =~= Seq::<Entry<H>>::empty());
                assert(other_conns(Seq::<Entry<H>>::empty(), excluding) =~= Seq::<Entry<H>>::empty());
            }
            let e = &self.entries[i];
            if e.key.conn != excluding {
                let h = e.handle.clone();
                out.push(Entry { key: e.key, handle: h });
                proof {
                    let pre = other_conns(s.subrange(0, i as int), excluding);
                    assert(other_conns(seq![s[i as int]], excluding) =~= seq![s[i as int]]);
                    assert(other_conns(s.subrange(0, i + 1), excluding) =~= pre.push(s[i as int]));
                }
            } else {
                proof {
                    let pre = other_conns(s.subrange(0, i as int), excluding);
                    assert(other_conns(s.subrange(0, i + 1), excluding) =~= pre);
                }
            }
            i = i + 1;
        }
        assert(s.subrange(0, n as int) =~= s);
        out
    }
}

} // verus!
