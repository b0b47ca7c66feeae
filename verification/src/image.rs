//! Disk images as lists of content-addressed chunks, and the table of the
//! distinct chunks of an image, ordered by hash, that a client still has to
//! fetch.

use vstd::prelude::*;

verus! {

/// Length of a chunk hash in bytes.
pub const HASH_LEN: usize = 32;

/// One chunk of a disk image: the hash of its bytes, where it starts on disk,
/// its size and its compressed size.
#[derive(Clone, Copy, Debug)]
pub struct Chunk {
    pub hash: [u8; 32],
    pub start: usize,
    pub size: usize,
    pub csize: usize,
}

/// `a` and `b` agree on their first `i` bytes.
pub open spec fn prefix_eq(a: Seq<u8>, b: Seq<u8>, i: int) -> bool {
    forall|k: int| 0 <= k < i ==> #[trigger] a[k] == b[k]
}

/// Lexicographic order of two hashes.
#[verifier::opaque]
pub open spec fn lex_lt(a: Seq<u8>, b: Seq<u8>) -> bool {
    exists|i: int| 0 <= i < a.len() && i < b.len() && prefix_eq(a, b, i) && #[trigger] a[i] < b[i]
}

/// Strictly increasing hashes.
pub open spec fn sorted_hashes(s: Seq<Seq<u8>>) -> bool {
    forall|i: int, j: int| 0 <= i < j < s.len() ==> lex_lt(#[trigger] s[i], #[trigger] s[j])
}

/// A first difference where `a` is smaller puts `a` before `b`.
pub proof fn lemma_lex_at(a: Seq<u8>, b: Seq<u8>, i: int)
    requires
        0 <= i < a.len(),
        i < b.len(),
        prefix_eq(a, b, i),
        a[i] < b[i],
    ensures
        lex_lt(a, b),
{
    reveal(lex_lt);
}

pub proof fn lemma_lex_irreflexive(a: Seq<u8>)
    ensures
        !lex_lt(a, a),
{
    reveal(lex_lt);
}

pub proof fn lemma_lex_transitive(a: Seq<u8>, b: Seq<u8>, c: Seq<u8>)
    requires
        a.len() == 32,
        b.len() == 32,
        c.len() == 32,
        lex_lt(a, b),
        lex_lt(b, c),
    ensures
        lex_lt(a, c),
{
    reveal(lex_lt);
    let i = choose|i: int| 0 <= i < a.len() && i < b.len() && prefix_eq(a, b, i) && #[trigger] a[i] < b[i];
    let j = choose|j: int| 0 <= j < b.len() && j < c.len() && prefix_eq(b, c, j) && #[trigger] b[j] < c[j];
    if i < j {
        assert(b[i] == c[i]);
        assert(prefix_eq(a, c, i));
        assert(a[i] < c[i]);
    } else if j < i {
        assert(a[j] == b[j]);
        assert(prefix_eq(a, c, j));
        assert(a[j] < c[j]);
    } else {
        assert(prefix_eq(a, c, i));
        assert(a[i] < c[i]);
    }
}

pub proof fn lemma_lex_asymmetric(a: Seq<u8>, b: Seq<u8>)
    requires
        lex_lt(a, b),
    ensures
        !lex_lt(b, a),
{
    reveal(lex_lt);
    let i = choose|i: int| 0 <= i < a.len() && i < b.len() && prefix_eq(a, b, i) && #[trigger] a[i] < b[i];
    if lex_lt(b, a) {
        let j = choose|j: int| 0 <= j < b.len() && j < a.len() && prefix_eq(b, a, j) && #[trigger] b[j] < a[j];
        if i < j {
            assert(b[i] == a[i]);
        } else if j < i {
            assert(a[j] == b[j]);
        }
    }
}

/// Compares two hashes: `Some(true)` when `a < b`, `Some(false)` when
/// `a > b`, `None` when they are equal.
pub fn hash_order(a: &[u8; 32], b: &[u8; 32]) -> (r: Option<bool>)
    ensures
        r == Some(true) <==> lex_lt(a@, b@),
        r == Some(false) <==> lex_lt(b@, a@),
        r is None <==> a@ == b@,
{
    let mut i: usize = 0;
    while i < 32
        invariant
            i <= 32,
            a@.len() == 32,
            b@.len() == 32,
            prefix_eq(a@, b@, i as int),
        decreases 32 - i,
    {
        if a[i] != b[i] {
            proof {
                if a[i as int] < b[i as int] {
                    lemma_lex_at(a@, b@, i as int);
                    lemma_lex_asymmetric(a@, b@);
                } else {
                    assert(prefix_eq(b@, a@, i as int));
                    lemma_lex_at(b@, a@, i as int);
                    lemma_lex_asymmetric(b@, a@);
                }
                assert(a@[i as int] != b@[i as int]);
            }
            return Some(a[i] < b[i]);
        }
        i = i + 1;
    }
    proof {
        assert(a@ =~= b@);
        lemma_lex_irreflexive(a@);
    }
    None
}

/// What the table keeps of a hash: size, compressed size, and the disk
/// offsets where the chunk goes, in image order.
pub type ChunkPlan = (usize, usize, Seq<usize>);

/// The distinct chunks of `disk`, keyed by hash: the first occurrence
/// gives size and compressed size, every occurrence adds its start.
pub open spec fn group_chunks(disk: Seq<Chunk>) -> Map<Seq<u8>, ChunkPlan>
    decreases disk.len(),
{
    if disk.len() == 0 {
        Map::empty()
    } else {
        let m = group_chunks(disk.drop_last());
        let c = disk.last();
        if m.contains_key(c.hash@) {
            let e = m[c.hash@];
            m.insert(c.hash@, (e.0, e.1, e.2.push(c.start)))
        } else {
            m.insert(c.hash@, (c.size, c.csize, seq![c.start]))
        }
    }
}

/// One distinct chunk still to fetch.
#[derive(Debug)]
pub struct ChunkEntry {
    pub hash: [u8; 32],
    pub size: usize,
    pub csize: usize,
    pub starts: Vec<usize>,
}

/// The distinct chunks of an image, ordered by hash.
pub struct ChunkTable {
    pub entries: Vec<ChunkEntry>,
}

/// The hashes of a list of entries.
pub open spec fn entry_hashes(es: Seq<ChunkEntry>) -> Seq<Seq<u8>> {
    es.map_values(|e: ChunkEntry| e.hash@)
}

/// The entries hold exactly the map `m`.
pub open spec fn entries_match(es: Seq<ChunkEntry>, m: Map<Seq<u8>, ChunkPlan>) -> bool {
    &&& forall|i: int|
        0 <= i < es.len() ==> m.contains_key(#[trigger] es[i].hash@) && m[es[i].hash@] == (
            es[i].size,
            es[i].csize,
            es[i].starts@,
        )
    &&& forall|h: Seq<u8>| #[trigger] m.contains_key(h) ==> exists|i: int| 0 <= i < es.len() && es[i].hash@ == h
}

impl ChunkTable {
    /// Hashes strictly increase along the entries.
    pub open spec fn wf(&self) -> bool {
        sorted_hashes(entry_hashes(self.entries@))
    }
}

/// The plan of one entry.
pub open spec fn plan_of(e: ChunkEntry) -> ChunkPlan {
    (e.size, e.csize, e.starts@)
}

/// The map that a list of entries with distinct hashes stands for.
pub open spec fn view_of(es: Seq<ChunkEntry>) -> Map<Seq<u8>, ChunkPlan> {
    Map::new(
        |h: Seq<u8>| exists|i: int| 0 <= i < es.len() && (#[trigger] es[i]).hash@ == h,
        |h: Seq<u8>| plan_of(es[index_of_hash(es, h)]),
    )
}

/// An entry with hash `h`.
pub open spec fn index_of_hash(es: Seq<ChunkEntry>, h: Seq<u8>) -> int {
    choose|i: int| 0 <= i < es.len() && (#[trigger] es[i]).hash@ == h
}

proof fn lemma_unique(es: Seq<ChunkEntry>, i: int, j: int)
    requires
        sorted_hashes(entry_hashes(es)),
        0 <= i < es.len(),
        0 <= j < es.len(),
        es[i].hash@ == es[j].hash@,
    ensures
        i == j,
{
    let hs = entry_hashes(es);
    lemma_lex_irreflexive(hs[i]);
    if i < j {
        assert(lex_lt(hs[i], hs[j]));
    } else if j < i {
        assert(lex_lt(hs[j], hs[i]));
    }
}

proof fn lemma_view_at(es: Seq<ChunkEntry>, i: int)
    requires
        sorted_hashes(entry_hashes(es)),
        0 <= i < es.len(),
    ensures
        view_of(es).contains_key(es[i].hash@),
        view_of(es)[es[i].hash@] == plan_of(es[i]),
{
    let h = es[i].hash@;
    assert(es[i].hash@ == h);
    assert(view_of(es).contains_key(h));
    let k = index_of_hash(es, h);
    lemma_unique(es, i, k);
}

proof fn lemma_match_view(es: Seq<ChunkEntry>, m: Map<Seq<u8>, ChunkPlan>)
    requires
        sorted_hashes(entry_hashes(es)),
        entries_match(es, m),
    ensures
        view_of(es) == m,
{
    assert forall|h: Seq<u8>| #[trigger] view_of(es).contains_key(h) <==> m.contains_key(h) by {
        if m.contains_key(h) {
            let i = choose|i: int| 0 <= i < es.len() && es[i].hash@ == h;
            lemma_view_at(es, i);
        }
        if view_of(es).contains_key(h) {
            let i = choose|i: int| 0 <= i < es.len() && (#[trigger] es[i]).hash@ == h;
            assert(m.contains_key(es[i].hash@));
        }
    }
    assert forall|h: Seq<u8>| #[trigger] view_of(es).contains_key(h) implies view_of(es)[h] == m[h] by {
        let i = choose|i: int| 0 <= i < es.len() && (#[trigger] es[i]).hash@ == h;
        lemma_view_at(es, i);
    }
    assert(view_of(es) =~= m);
}

/// Position of `h` among sorted entries: every entry before it is smaller;
/// the entry at it is `h` when `found`, else every entry from it on is larger.
fn lower_bound(es: &Vec<ChunkEntry>, h: &[u8; 32]) -> (r: (usize, bool))
    requires
        sorted_hashes(entry_hashes(es@)),
        forall|i: int| 0 <= i < es@.len() ==> (#[trigger] es@[i]).hash@.len() == 32,
    ensures
        r.0 <= es@.len(),
        forall|k: int| 0 <= k < r.0 ==> lex_lt((#[trigger] es@[k]).hash@, h@),
        r.1 ==> r.0 < es@.len() && es@[r.0 as int].hash@ == h@,
        !r.1 ==> forall|k: int| r.0 <= k < es@.len() ==> lex_lt(h@, (#[trigger] es@[k]).hash@),
{
    let mut i: usize = 0;
    while i < es.len()
        invariant
            i <= es@.len(),
            sorted_hashes(entry_hashes(es@)),
            forall|k: int| 0 <= k < es@.len() ==> (#[trigger] es@[k]).hash@.len() == 32,
            forall|k: int| 0 <= k < i ==> lex_lt((#[trigger] es@[k]).hash@, h@),
        decreases es@.len() - i,
    {
        match hash_order(&es[i].hash, h) {
            Some(true) => {
                i = i + 1;
            },
            Some(false) => {
                proof {
                    assert forall|k: int| i <= k < es@.len() implies lex_lt(h@, (#[trigger] es@[k]).hash@) by {
                        if k > i {
                            assert(lex_lt(entry_hashes(es@)[i as int], entry_hashes(es@)[k]));
                            lemma_lex_transitive(h@, es@[i as int].hash@, es@[k].hash@);
                        }
                    }
                }
                return (i, false);
            },
            None => {
                return (i, true);
            },
        }
    }
    (i, false)
}


/// Adding an occurrence of a known hash to its entry.
proof fn lemma_table_extend(old_es: Seq<ChunkEntry>, pos: int, e: ChunkEntry, m: Map<Seq<u8>, ChunkPlan>, c: Chunk)
    requires
        sorted_hashes(entry_hashes(old_es)),
        entries_match(old_es, m),
        0 <= pos < old_es.len(),
        old_es[pos].hash@ == c.hash@,
        e.hash == old_es[pos].hash,
        e.size == old_es[pos].size,
        e.csize == old_es[pos].csize,
        e.starts@ == old_es[pos].starts@.push(c.start),
    ensures
        sorted_hashes(entry_hashes(old_es.update(pos, e))),
        entries_match(old_es.update(pos, e), m.insert(c.hash@, (m[c.hash@].0, m[c.hash@].1, m[c.hash@].2.push(c.start)))),
{
    let es = old_es.update(pos, e);
    let h = c.hash@;
    let m2 = m.insert(h, (m[h].0, m[h].1, m[h].2.push(c.start)));
    assert(m.contains_key(h));
    assert(m[h] == plan_of(old_es[pos]));
    assert forall|a: int, b: int| 0 <= a < b < es.len() implies lex_lt(
        #[trigger] entry_hashes(es)[a],
        #[trigger] entry_hashes(es)[b],
    ) by {
        assert(entry_hashes(old_es)[a] == entry_hashes(es)[a]);
        assert(entry_hashes(old_es)[b] == entry_hashes(es)[b]);
    }
    assert forall|k: int| 0 <= k < es.len() implies m2.contains_key(#[trigger] es[k].hash@) && m2[es[k].hash@] == (
        es[k].size,
        es[k].csize,
        es[k].starts@,
    ) by {
        if k != pos {
            if old_es[k].hash@ == h {
                lemma_unique(old_es, k, pos);
            }
        }
    }
    assert forall|hh: Seq<u8>| #[trigger] m2.contains_key(hh) implies exists|k: int|
        0 <= k < es.len() && es[k].hash@ == hh by {
        if hh != h {
            let k = choose|k: int| 0 <= k < old_es.len() && old_es[k].hash@ == hh;
            assert(es[k].hash@ == hh);
        } else {
            assert(es[pos].hash@ == hh);
        }
    }
}

proof fn lemma_insert_sorted(old_es: Seq<ChunkEntry>, pos: int, e: ChunkEntry, h: Seq<u8>)
    requires
        sorted_hashes(entry_hashes(old_es)),
        forall|k: int| 0 <= k < old_es.len() ==> (#[trigger] old_es[k]).hash@.len() == 32,
        h.len() == 32,
        e.hash@ == h,
        0 <= pos <= old_es.len(),
        forall|k: int| 0 <= k < pos ==> lex_lt((#[trigger] old_es[k]).hash@, h),
        forall|k: int| pos <= k < old_es.len() ==> lex_lt(h, (#[trigger] old_es[k]).hash@),
    ensures
        sorted_hashes(entry_hashes(old_es.insert(pos, e))),
{
    let hs = entry_hashes(old_es);
    let hs2 = entry_hashes(old_es.insert(pos, e));
    assert(hs2 =~= hs.insert(pos, h));
    assert forall|a: int, b: int| 0 <= a < b < hs2.len() implies lex_lt(#[trigger] hs2[a], #[trigger] hs2[b]) by {
        if b < pos {
            assert(lex_lt(hs[a], hs[b]));
        } else if b == pos {
            assert(lex_lt(old_es[a].hash@, h));
        } else if a < pos {
            assert(lex_lt(old_es[a].hash@, h));
            assert(lex_lt(h, old_es[b - 1].hash@));
            lemma_lex_transitive(old_es[a].hash@, h, old_es[b - 1].hash@);
        } else if a == pos {
            assert(lex_lt(h, old_es[b - 1].hash@));
        } else {
            assert(lex_lt(hs[a - 1], hs[b - 1]));
        }
    }
}

/// Inserting a new hash at its sorted position.
#[verifier::rlimit(40)]
proof fn lemma_table_insert(old_es: Seq<ChunkEntry>, pos: int, e: ChunkEntry, m: Map<Seq<u8>, ChunkPlan>, c: Chunk)
    requires
        sorted_hashes(entry_hashes(old_es)),
        forall|k: int| 0 <= k < old_es.len() ==> (#[trigger] old_es[k]).hash@.len() == 32,
        c.hash@.len() == 32,
        entries_match(old_es, m),
        0 <= pos <= old_es.len(),
        forall|k: int| 0 <= k < pos ==> lex_lt((#[trigger] old_es[k]).hash@, c.hash@),
        forall|k: int| pos <= k < old_es.len() ==> lex_lt(c.hash@, (#[trigger] old_es[k]).hash@),
        e.hash == c.hash,
        e.size == c.size,
        e.csize == c.csize,
        e.starts@ == seq![c.start],
    ensures
        !m.contains_key(c.hash@),
        sorted_hashes(entry_hashes(old_es.insert(pos, e))),
        entries_match(old_es.insert(pos, e), m.insert(c.hash@, (c.size, c.csize, seq![c.start]))),
{
    let es = old_es.insert(pos, e);
    let h = c.hash@;
    let m2 = m.insert(h, (c.size, c.csize, seq![c.start]));
    assert(!m.contains_key(h)) by {
        lemma_lex_irreflexive(h);
        if m.contains_key(h) {
            let k = choose|k: int| 0 <= k < old_es.len() && old_es[k].hash@ == h;
            if k < pos {
                assert(lex_lt(old_es[k].hash@, h));
            } else {
                assert(lex_lt(h, old_es[k].hash@));
            }
        }
    }
    lemma_insert_sorted(old_es, pos, e, h);
    assert forall|k: int| 0 <= k < es.len() implies m2.contains_key(#[trigger] es[k].hash@) && m2[es[k].hash@] == (
        es[k].size,
        es[k].csize,
        es[k].starts@,
    ) by {
        if k < pos {
            assert(es[k] == old_es[k]);
            assert(lex_lt(old_es[k].hash@, h));
        } else if k > pos {
            assert(es[k] == old_es[k - 1]);
            assert(lex_lt(h, old_es[k - 1].hash@));
        }
    }
    assert forall|hh: Seq<u8>| #[trigger] m2.contains_key(hh) implies exists|k: int|
        0 <= k < es.len() && es[k].hash@ == hh by {
        if hh != h {
            let k = choose|k: int| 0 <= k < old_es.len() && old_es[k].hash@ == hh;
            if k < pos {
                assert(es[k].hash@ == hh);
            } else {
                assert(es[k + 1].hash@ == hh);
            }
        } else {
            assert(es[pos].hash@ == hh);
        }
    }
}

impl ChunkTable {
    /// The table as a map from hash to plan.
    pub open spec fn view(&self) -> Map<Seq<u8>, ChunkPlan> {
        view_of(self.entries@)
    }

    /// Groups the chunks of an image by hash: each distinct hash once, with
    /// the size and compressed size of its first occurrence and the starts
    /// of all its occurrences in image order.
    pub fn from_chunks(disk: &Vec<Chunk>) -> (t: ChunkTable)
        ensures
            t.wf(),
            t.view() == group_chunks(disk@),
    {
        let mut entries: Vec<ChunkEntry> = Vec::new();
        let mut i: usize = 0;
        proof {
            assert(disk@.take(0).len() == 0);
            assert(entries_match(entries@, group_chunks(disk@.take(0))));
        }
        while i < disk.len()
            invariant
                i <= disk@.len(),
                sorted_hashes(entry_hashes(entries@)),
                forall|k: int| 0 <= k < entries@.len() ==> (#[trigger] entries@[k]).hash@.len() == 32,
                entries_match(entries@, group_chunks(disk@.take(i as int))),
            decreases disk@.len() - i,
        {
            let c = disk[i];
            let ghost m = group_chunks(disk@.take(i as int));
            let ghost old_es = entries@;
            proof {
                assert(disk@.take(i as int + 1).drop_last() =~= disk@.take(i as int));
                assert(disk@.take(i as int + 1).last() == c);
            }
            let (pos, found) = lower_bound(&entries, &c.hash);
            if found {
                let mut e = entries.remove(pos);
                e.starts.push(c.start);
                entries.insert(pos, e);
                proof {
                    assert(entries@ =~= old_es.update(pos as int, e));
                    lemma_table_extend(old_es, pos as int, e, m, c);
                }
            } else {
                let mut starts: Vec<usize> = Vec::new();
                starts.push(c.start);
                let e = ChunkEntry { hash: c.hash, size: c.size, csize: c.csize, starts };
                entries.insert(pos, e);
                proof {
                    assert(e.starts@ =~= seq![c.start]);
                    lemma_table_insert(old_es, pos as int, e, m, c);
                }
            }
            i = i + 1;
        }
        proof {
            assert(disk@.take(disk@.len() as int) =~= disk@);
            lemma_match_view(entries@, group_chunks(disk@));
        }
        ChunkTable { entries }
    }
}

impl ChunkTable {
    /// Number of distinct chunks in the table.
    pub fn len(&self) -> (r: usize)
        ensures
            r == self.entries@.len(),
    {
        self.entries.len()
    }

    /// Whether the table is empty.
    pub fn is_empty(&self) -> (r: bool)
        requires
            self.wf(),
        ensures
            r <==> self.view() =~= Map::empty(),
    {
        proof {
            if self.entries@.len() > 0 {
                lemma_view_at(self.entries@, 0);
            }
        }
        self.entries.len() == 0
    }

    /// Size and compressed size of the chunk with hash `h`, if the table has it.
    pub fn get(&self, h: &[u8; 32]) -> (r: Option<(usize, usize)>)
        requires
            self.wf(),
        ensures
            r == (if self.view().contains_key(h@) {
                Some((self.view()[h@].0, self.view()[h@].1))
            } else {
                None::<(usize, usize)>
            }),
    {
        let (pos, found) = lower_bound(&self.entries, h);
        if found {
            proof {
                lemma_view_at(self.entries@, pos as int);
            }
            Some((self.entries[pos].size, self.entries[pos].csize))
        } else {
            proof {
                lemma_lex_irreflexive(h@);
                if self.view().contains_key(h@) {
                    let k = index_of_hash(self.entries@, h@);
                    if k < pos {
                        assert(lex_lt(self.entries@[k].hash@, h@));
                    } else {
                        assert(lex_lt(h@, self.entries@[k].hash@));
                    }
                }
            }
            None
        }
    }

    /// Takes the chunk with hash `h` out of the table, if it is there.
    pub fn remove(&mut self, h: &[u8; 32]) -> (r: Option<ChunkEntry>)
        requires
            old(self).wf(),
        ensures
            final(self).wf(),
            final(self).view() == old(self).view().remove(h@),
            r is Some <==> old(self).view().contains_key(h@),
            r is Some ==> r->0.hash@ == h@ && plan_of(r->0) == old(self).view()[h@],
    {
        let ghost es = self.entries@;
        let (pos, found) = lower_bound(&self.entries, h);
        if found {
            let e = self.entries.remove(pos);
            proof {
                lemma_view_at(es, pos as int);
                let es2 = self.entries@;
                assert(es2 =~= es.remove(pos as int));
                let m = view_of(es).remove(h@);
                assert forall|a: int, b: int| 0 <= a < b < es2.len() implies lex_lt(
                    #[trigger] entry_hashes(es2)[a],
                    #[trigger] entry_hashes(es2)[b],
                ) by {
                    if b < pos {
                        assert(lex_lt(entry_hashes(es)[a], entry_hashes(es)[b]));
                    } else if a < pos {
                        assert(lex_lt(entry_hashes(es)[a], entry_hashes(es)[b + 1]));
                    } else {
                        assert(lex_lt(entry_hashes(es)[a + 1], entry_hashes(es)[b + 1]));
                    }
                }
                assert forall|k: int| 0 <= k < es2.len() implies m.contains_key(#[trigger] es2[k].hash@) && m[es2[k].hash@]
                    == (es2[k].size, es2[k].csize, es2[k].starts@) by {
                    let kk = if k < pos { k } else { k + 1 };
                    assert(es2[k] == es[kk]);
                    lemma_view_at(es, kk);
                    if es[kk].hash@ == h@ {
                        lemma_unique(es, kk, pos as int);
                    }
                }
                assert forall|hh: Seq<u8>| #[trigger] m.contains_key(hh) implies exists|k: int|
                    0 <= k < es2.len() && es2[k].hash@ == hh by {
                    let k = index_of_hash(es, hh);
                    if k < pos {
                        assert(es2[k].hash@ == hh);
                    } else {
                        assert(k != pos);
                        assert(es2[k - 1].hash@ == hh);
                    }
                }
                lemma_match_view(es2, m);
            }
            Some(e)
        } else {
            proof {
                lemma_lex_irreflexive(h@);
                if view_of(es).contains_key(h@) {
                    let k = index_of_hash(es, h@);
                    if k < pos {
                        assert(lex_lt(es[k].hash@, h@));
                    } else {
                        assert(lex_lt(h@, es[k].hash@));
                    }
                }
                assert(view_of(es).remove(h@) =~= view_of(es));
            }
            None
        }
    }

    /// The first `limit` hashes in table order, that is the smallest ones.
    pub fn first_hashes(&self, limit: usize) -> (r: Vec<[u8; 32]>)
        ensures
            r@.len() == (if limit < self.entries@.len() { limit as int } else { self.entries@.len() as int }),
            forall|k: int| 0 <= k < r@.len() ==> #[trigger] r@[k]@ == self.entries@[k].hash@,
    {
        let mut out: Vec<[u8; 32]> = Vec::new();
        let mut i: usize = 0;
        while i < self.entries.len() && i < limit
            invariant
                i <= self.entries@.len(),
                i <= limit,
                out@.len() == i,
                forall|k: int| 0 <= k < i ==> #[trigger] out@[k]@ == self.entries@[k].hash@,
            decreases self.entries@.len() - i,
        {
            out.push(self.entries[i].hash);
            i = i + 1;
        }
        out
    }
}

} // verus!
