//! The storage shape of journal payloads: TLV records with content-hashed field
//! tags. A record is `[field hash u64][length u32][body]`, little-endian; nested
//! values are flattened into leaves whose tags hash their dotted path and type.
//! Writers emit records in hash order, and readers skip what they do not know.

use vstd::bytes::*;
use vstd::prelude::*;
use vstd::string::*;
use vstd::utf8::*;

verus! {

/// The depth of nesting past which a value is refused.
pub const MAX_STORAGE_DEPTH: u32 = 32;

/// The carries that field paths and variant names are folded onto.
#[derive(Debug, Clone, Copy)]
pub struct Roots {
    pub field: u64,
    pub variant: u64,
}

/// Why a storage encode or decode failed.
#[derive(Debug, Clone, Copy, PartialEq, Eq, Structural)]
pub enum StorageError {
    /// A required leaf was not present: the writer's schema did not have it.
    MissingRequiredField { hash: u64 },
    /// The same field hash appeared twice in one payload.
    DuplicateField { hash: u64 },
    /// Input ended mid-record.
    TrailingBytes,
    /// A leaf body is not a value of its type, or is too long.
    LeafBody,
    /// A discriminant that this schema does not bind.
    UnknownVariant { hash: u64 },
    /// Nested flattening exceeded [`MAX_STORAGE_DEPTH`].
    NestingTooDeep,
}

// --- hashing -----------------------------------------------------------------

/// The FNV-1a prime for 64 bits.
pub const FNV_PRIME: u64 = 0x0000_0100_0000_01b3;

/// One FNV-1a step.
pub open spec fn fnv_step(carry: u64, byte: u8) -> u64 {
    (carry ^ (byte as u64)).wrapping_mul(FNV_PRIME)
}

/// FNV-1a over `bytes`, continued from `carry`.
pub open spec fn folded(carry: u64, bytes: Seq<u8>) -> u64
    decreases bytes.len(),
{
    if bytes.len() == 0 {
        carry
    } else {
        fnv_step(folded(carry, bytes.drop_last()), bytes.last())
    }
}

/// FNV-1a over `bytes`, continued from `carry`.
pub fn fnv1a_64_fold(carry: u64, bytes: &[u8]) -> (r: u64)
    ensures
        r == folded(carry, bytes@),
{
    let mut h: u64 = carry;
    for i in 0..bytes.len()
        invariant
            h == folded(carry, bytes@.take(i as int)),
    {
        proof {
            assert(bytes@.take(i + 1).drop_last() =~= bytes@.take(i as int));
        }
        h = (h ^ (bytes[i] as u64)).wrapping_mul(FNV_PRIME);
    }
    proof {
        assert(bytes@.take(bytes@.len() as int) =~= bytes@);
    }
    h
}

/// A path carry with one more segment. At depth zero the segment stands alone;
/// deeper ones are joined with a dot.
pub open spec fn segment(carry: u64, name: Seq<char>, depth: u32) -> u64 {
    if depth == 0 {
        folded(carry, encode_utf8(name))
    } else {
        folded(folded(carry, seq![0x2eu8]), encode_utf8(name))
    }
}

/// Folds one path segment onto `carry`.
pub fn fold_path_segment(carry: u64, name: &str, depth: u32) -> (r: u64)
    ensures
        r == segment(carry, name@, depth),
{
    if depth == 0 {
        fnv1a_64_fold(carry, name.as_bytes())
    } else {
        let dot: Vec<u8> = vec![0x2eu8];
        proof {
            assert(dot@ =~= seq![0x2eu8]);
        }
        fnv1a_64_fold(fnv1a_64_fold(carry, dot.as_slice()), name.as_bytes())
    }
}

/// The field hash of a path: the carry, a NUL, and the type's schema bytes.
pub open spec fn terminated(carry: u64, schema: Seq<u8>) -> u64 {
    folded(folded(carry, seq![0u8]), schema)
}

/// Terminates a path carry with a NUL and folds the type's schema bytes.
pub fn terminate_field_hash(carry: u64, schema: &Vec<u8>) -> (r: u64)
    ensures
        r == terminated(carry, schema@),
{
    let nul: Vec<u8> = vec![0u8];
    proof {
        assert(nul@ =~= seq![0u8]);
    }
    fnv1a_64_fold(fnv1a_64_fold(carry, nul.as_slice()), schema.as_slice())
}

/// The discriminant of a variant: its name and the schema of its payload.
pub open spec fn variant_tag(roots: Roots, name: Seq<char>, body: Seq<u8>) -> u64 {
    terminated(folded(roots.variant, encode_utf8(name)), body)
}

/// The discriminant of a variant.
pub fn variant_hash(roots: &Roots, name: &str, body: &Vec<u8>) -> (r: u64)
    ensures
        r == variant_tag(*roots, name@, body@),
{
    terminate_field_hash(fnv1a_64_fold(roots.variant, name.as_bytes()), body)
}

// --- records -----------------------------------------------------------------

/// Whether records stand in strictly ascending hash order.
pub open spec fn ascending(entries: Seq<(u64, Seq<u8>)>) -> bool {
    forall|i: int, j: int|
        0 <= i < j < entries.len() ==> (#[trigger] entries[i]).0 < (#[trigger] entries[j]).0
}

/// The records as a map.
pub open spec fn as_map(entries: Seq<(u64, Seq<u8>)>) -> Map<u64, Seq<u8>>
    decreases entries.len(),
{
    if entries.len() == 0 {
        Map::empty()
    } else {
        as_map(entries.drop_last()).insert(entries.last().0, entries.last().1)
    }
}

/// Records by field hash.
#[derive(Debug)]
pub struct Records {
    entries: Vec<(u64, Vec<u8>)>,
}

impl Records {
    /// The records in hash order.
    pub closed spec fn rows(self) -> Seq<(u64, Seq<u8>)> {
        self.entries@.map_values(|e: (u64, Vec<u8>)| (e.0, e.1@))
    }

    /// Whether the records stand in strictly ascending hash order.
    pub open spec fn wf(self) -> bool {
        ascending(self.rows())
    }
}

impl View for Records {
    type V = Map<u64, Seq<u8>>;

    open spec fn view(&self) -> Map<u64, Seq<u8>> {
        as_map(self.rows())
    }
}

proof fn lemma_as_map(entries: Seq<(u64, Seq<u8>)>)
    requires
        ascending(entries),
    ensures
        forall|k: u64|
            #![trigger as_map(entries).dom().contains(k)]
            as_map(entries).dom().contains(k) <==> exists|i: int|
                0 <= i < entries.len() && (#[trigger] entries[i]).0 == k,
        forall|i: int|
            0 <= i < entries.len() ==> as_map(entries).dom().contains((#[trigger] entries[i]).0)
                && as_map(entries)[entries[i].0] == entries[i].1,
    decreases entries.len(),
{
    if entries.len() > 0 {
        let t = entries.drop_last();
        assert(ascending(t)) by {
            assert forall|i: int, j: int| 0 <= i < j < t.len() implies (#[trigger] t[i]).0 < (
            #[trigger] t[j]).0 by {
                assert(entries[i].0 < entries[j].0);
            }
        }
        lemma_as_map(t);
        assert forall|k: u64|
            #![trigger as_map(entries).dom().contains(k)]
            as_map(entries).dom().contains(k) <==> exists|i: int|
                0 <= i < entries.len() && (#[trigger] entries[i]).0 == k by {
            if as_map(entries).dom().contains(k) {
                if k == entries.last().0 {
                    assert(entries[entries.len() - 1].0 == k);
                } else {
                    assert(as_map(t).dom().contains(k));
                    let i = choose|i: int| 0 <= i < t.len() && (#[trigger] t[i]).0 == k;
                    assert(entries[i].0 == k);
                }
            }
            if exists|i: int| 0 <= i < entries.len() && (#[trigger] entries[i]).0 == k {
                let i = choose|i: int| 0 <= i < entries.len() && (#[trigger] entries[i]).0 == k;
                if i < t.len() {
                    assert(t[i].0 == k);
                    assert(as_map(t).dom().contains(k));
                }
            }
        }
        assert forall|i: int| 0 <= i < entries.len() implies as_map(entries).dom().contains(
            (#[trigger] entries[i]).0,
        ) && as_map(entries)[entries[i].0] == entries[i].1 by {
            if i < t.len() {
                assert(t[i] == entries[i]);
                assert(as_map(t).dom().contains(t[i].0));
                assert(entries[i].0 < entries[entries.len() - 1].0);
            }
        }
    }
}

/// Two ascending lists of records with the same contents are the same map.
proof fn lemma_map_of(entries: Seq<(u64, Seq<u8>)>, m: Map<u64, Seq<u8>>)
    requires
        ascending(entries),
        forall|i: int|
            0 <= i < entries.len() ==> m.dom().contains((#[trigger] entries[i]).0)
                && m[entries[i].0] == entries[i].1,
        forall|k: u64| #[trigger]
            m.dom().contains(k) ==> exists|i: int|
                0 <= i < entries.len() && (#[trigger] entries[i]).0 == k,
    ensures
        as_map(entries) == m,
{
    lemma_as_map(entries);
    assert forall|k: u64| as_map(entries).dom().contains(k) <==> m.dom().contains(k) by {
        if as_map(entries).dom().contains(k) {
            let i = choose|i: int| 0 <= i < entries.len() && (#[trigger] entries[i]).0 == k;
            assert(m.dom().contains(entries[i].0));
        }
    }
    assert forall|k: u64| m.dom().contains(k) implies as_map(entries)[k] == m[k] by {
        let i = choose|i: int| 0 <= i < entries.len() && (#[trigger] entries[i]).0 == k;
        assert(m[entries[i].0] == entries[i].1);
    }
    assert(as_map(entries) =~= m);
}

proof fn lemma_ascending_shorter(entries: Seq<(u64, Seq<u8>)>)
    requires
        ascending(entries),
        entries.len() > 0,
    ensures
        ascending(entries.drop_last()),
        forall|k: u64| #[trigger]
            as_map(entries.drop_last()).dom().contains(k) ==> k < entries.last().0,
{
    let t = entries.drop_last();
    assert forall|i: int, j: int| 0 <= i < j < t.len() implies (#[trigger] t[i]).0 < (
    #[trigger] t[j]).0 by {
        assert(entries[i].0 < entries[j].0);
    }
    lemma_as_map(t);
    assert forall|k: u64| #[trigger] as_map(t).dom().contains(k) implies k < entries.last().0 by {
        let i = choose|i: int| 0 <= i < t.len() && (#[trigger] t[i]).0 == k;
        assert(entries[i].0 < entries[entries.len() - 1].0);
    }
}

/// Records in hash order are determined by what they hold.
pub proof fn lemma_rows_are_unique(a: Seq<(u64, Seq<u8>)>, b: Seq<(u64, Seq<u8>)>)
    requires
        ascending(a),
        ascending(b),
        as_map(a) == as_map(b),
    ensures
        a == b,
    decreases a.len(),
{
    if a.len() == 0 {
        if b.len() > 0 {
            lemma_as_map(b);
            assert(as_map(b).dom().contains(b[0].0));
        }
        assert(a =~= b);
    } else {
        lemma_as_map(a);
        assert(as_map(a).dom().contains(a[a.len() - 1].0));
        if b.len() == 0 {
            assert(as_map(b).dom() =~= Set::empty());
        }
        lemma_as_map(b);
        assert(as_map(b).dom().contains(b[b.len() - 1].0));
        lemma_ascending_shorter(a);
        lemma_ascending_shorter(b);
        let x = a.last().0;
        let y = b.last().0;
        if x != y {
            assert(as_map(b.drop_last()).dom().contains(x));
            assert(as_map(a.drop_last()).dom().contains(y));
        }
        assert(as_map(a)[x] == a.last().1);
        assert(as_map(b)[y] == b.last().1);
        assert(as_map(a.drop_last()) =~= as_map(a).remove(x)) by {
            if as_map(a.drop_last()).dom().contains(x) {
                assert(x < a.last().0);
            }
        }
        assert(as_map(b.drop_last()) =~= as_map(b).remove(y)) by {
            if as_map(b.drop_last()).dom().contains(y) {
                assert(y < b.last().0);
            }
        }
        lemma_rows_are_unique(a.drop_last(), b.drop_last());
        assert(a =~= a.drop_last().push(a.last()));
        assert(b =~= b.drop_last().push(b.last()));
    }
}

proof fn lemma_insert_row(rows: Seq<(u64, Seq<u8>)>, hash: u64, body: Seq<u8>) -> (r: Seq<
    (u64, Seq<u8>),
>)
    requires
        ascending(rows),
        !as_map(rows).dom().contains(hash),
    ensures
        ascending(r),
        as_map(r) == as_map(rows).insert(hash, body),
    decreases rows.len(),
{
    if rows.len() == 0 || rows.last().0 < hash {
        let r = rows.push((hash, body));
        assert(r.drop_last() =~= rows);
        assert forall|i: int, j: int| 0 <= i < j < r.len() implies (#[trigger] r[i]).0 < (
        #[trigger] r[j]).0 by {
            if j == rows.len() && i < rows.len() - 1 {
                assert(rows[i].0 < rows[rows.len() - 1].0);
            }
        }
        r
    } else {
        lemma_ascending_shorter(rows);
        lemma_as_map(rows);
        let last = rows.last();
        assert(as_map(rows).dom().contains(rows[rows.len() - 1].0));
        let t = lemma_insert_row(rows.drop_last(), hash, body);
        let r = t.push(last);
        assert(r.drop_last() =~= t);
        lemma_as_map(t);
        assert forall|i: int, j: int| 0 <= i < j < r.len() implies (#[trigger] r[i]).0 < (
        #[trigger] r[j]).0 by {
            if j == t.len() {
                assert(as_map(t).dom().contains(t[i].0));
                if t[i].0 != hash {
                    assert(as_map(rows.drop_last()).dom().contains(t[i].0));
                }
            } else {
                assert(t[i].0 < t[j].0);
            }
        }
        assert(as_map(r) =~= as_map(rows).insert(hash, body));
        r
    }
}

/// Every finite set of records can be put in hash order.
pub proof fn lemma_rows_exist(m: Map<u64, Seq<u8>>) -> (r: Seq<(u64, Seq<u8>)>)
    requires
        m.dom().finite(),
    ensures
        ascending(r),
        as_map(r) == m,
    decreases m.dom().len(),
{
    if m.dom().len() == 0 {
        assert(m.dom() =~= Set::empty());
        assert(m =~= Map::empty());
        let r = Seq::<(u64, Seq<u8>)>::empty();
        assert(as_map(r) =~= m);
        r
    } else {
        let k = m.dom().choose();
        let fewer = m.remove(k);
        assert(fewer.dom() =~= m.dom().remove(k));
        let t = lemma_rows_exist(fewer);
        let r = lemma_insert_row(t, k, m[k]);
        assert(fewer.insert(k, m[k]) =~= m);
        r
    }
}

impl Records {
    /// No records.
    pub fn new() -> (r: Records)
        ensures
            r.wf(),
            r@ == Map::<u64, Seq<u8>>::empty(),
    {
        let r: Records = Records { entries: Vec::new() };
        proof {
            assert(r.rows() =~= seq![]);
        }
        r
    }

    /// The index of the first record whose hash is not below `hash`.
    fn place(&self, hash: u64) -> (r: usize)
        requires
            self.wf(),
        ensures
            r <= self.rows().len(),
            self.rows().len() == self.entries@.len(),
            forall|i: int| 0 <= i < r ==> (#[trigger] self.rows()[i]).0 < hash,
            forall|i: int| r <= i < self.rows().len() ==> hash <= (#[trigger] self.rows()[i]).0,
    {
        let n: usize = self.entries.len();
        let mut k: usize = 0;
        while k < n && self.entries[k].0 < hash
            invariant
                n == self.entries@.len(),
                k <= n,
                forall|i: int| 0 <= i < k ==> (#[trigger] self.rows()[i]).0 < hash,
            decreases n - k,
        {
            proof {
                assert(self.rows()[k as int].0 == self.entries@[k as int].0);
            }
            k = k + 1;
        }
        proof {
            if k < n {
                assert(self.rows()[k as int].0 == self.entries@[k as int].0);
                assert forall|i: int| k <= i < self.rows().len() implies hash <= (
                #[trigger] self.rows()[i]).0 by {
                    if i > k {
                        assert(self.rows()[k as int].0 < self.rows()[i].0);
                    }
                }
            }
        }
        k
    }

    /// Whether a record with this hash is present.
    pub fn contains(&self, hash: u64) -> (r: bool)
        requires
            self.wf(),
        ensures
            r == self@.dom().contains(hash),
    {
        let k: usize = self.place(hash);
        proof {
            lemma_as_map(self.rows());
            if k < self.entries@.len() {
                assert(self.rows()[k as int].0 == self.entries@[k as int].0);
            }
        }
        k < self.entries.len() && self.entries[k].0 == hash
    }

    /// Records one leaf. Fails if the hash is already there.
    pub fn emit(&mut self, hash: u64, body: Vec<u8>) -> (r: Result<(), StorageError>)
        requires
            old(self).wf(),
        ensures
            final(self).wf(),
            match r {
                Ok(_) => !old(self)@.dom().contains(hash) && final(self)@ == old(self)@.insert(
                    hash,
                    body@,
                ),
                Err(e) => old(self)@.dom().contains(hash) && final(self)@ == old(self)@ && e
                    == (StorageError::DuplicateField { hash }),
            },
    {
        if self.contains(hash) {
            return Err(StorageError::DuplicateField { hash });
        }
        let k: usize = self.place(hash);
        let ghost before = self.rows();
        let ghost row = (hash, body@);
        proof {
            lemma_as_map(before);
        }
        self.entries.insert(k, (hash, body));
        proof {
            let now = self.rows();
            assert(now =~= before.insert(k as int, row));
            assert forall|i: int, j: int| 0 <= i < j < now.len() implies (#[trigger] now[i]).0 < (
            #[trigger] now[j]).0 by {
                let a = if i < k {
                    i
                } else {
                    i - 1
                };
                let b = if j < k {
                    j
                } else {
                    j - 1
                };
                if i != k {
                    assert(now[i] == before[a]);
                }
                if j != k {
                    assert(now[j] == before[b]);
                }
                if i == k {
                    assert(hash <= before[b].0);
                    assert(before[b].0 != hash);
                } else if j == k {
                    assert(before[a].0 < hash);
                } else {
                    assert(before[a].0 < before[b].0);
                }
            }
            let m = as_map(before).insert(hash, row.1);
            assert forall|i: int| 0 <= i < now.len() implies m.dom().contains(
                (#[trigger] now[i]).0,
            ) && m[now[i].0] == now[i].1 by {
                if i != k {
                    let a = if i < k {
                        i
                    } else {
                        i - 1
                    };
                    assert(now[i] == before[a]);
                    assert(as_map(before).dom().contains(before[a].0));
                }
            }
            assert forall|x: u64| #[trigger] m.dom().contains(x) implies exists|i: int|
                0 <= i < now.len() && (#[trigger] now[i]).0 == x by {
                if x == hash {
                    assert(now[k as int].0 == x);
                } else {
                    assert(as_map(before).dom().contains(x));
                    let a = choose|a: int| 0 <= a < before.len() && (#[trigger] before[a]).0 == x;
                    let i = if a < k {
                        a
                    } else {
                        a + 1
                    };
                    assert(now[i].0 == x);
                }
            }
            lemma_map_of(now, m);
        }
        Ok(())
    }

    /// Takes the body for `hash`, if present.
    pub fn take(&mut self, hash: u64) -> (r: Option<Vec<u8>>)
        requires
            old(self).wf(),
        ensures
            final(self).wf(),
            match r {
                Some(body) => old(self)@.dom().contains(hash) && body@ == old(self)@[hash]
                    && final(self)@ == old(self)@.remove(hash),
                None => !old(self)@.dom().contains(hash) && final(self)@ == old(self)@,
            },
    {
        let k: usize = self.place(hash);
        proof {
            lemma_as_map(self.rows());
            if k < self.entries@.len() {
                assert(self.rows()[k as int].0 == self.entries@[k as int].0);
            }
        }
        if k < self.entries.len() && self.entries[k].0 == hash {
            let ghost before = self.rows();
            let (_, body) = self.entries.remove(k);
            proof {
                let now = self.rows();
                assert(before[k as int] == (hash, body@));
                assert(now =~= before.remove(k as int));
                assert forall|i: int, j: int| 0 <= i < j < now.len() implies (#[trigger] now[i]).0
                    < (#[trigger] now[j]).0 by {
                    let a = if i < k {
                        i
                    } else {
                        i + 1
                    };
                    let b = if j < k {
                        j
                    } else {
                        j + 1
                    };
                    assert(now[i] == before[a] && now[j] == before[b]);
                    assert(before[a].0 < before[b].0);
                }
                let m = as_map(before).remove(hash);
                assert forall|i: int| 0 <= i < now.len() implies m.dom().contains(
                    (#[trigger] now[i]).0,
                ) && m[now[i].0] == now[i].1 by {
                    let a = if i < k {
                        i
                    } else {
                        i + 1
                    };
                    assert(now[i] == before[a]);
                    assert(as_map(before).dom().contains(before[a].0));
                    if a < k {
                        assert(before[a].0 < before[k as int].0);
                    } else {
                        assert(before[k as int].0 < before[a].0);
                    }
                }
                assert forall|x: u64| #[trigger] m.dom().contains(x) implies exists|i: int|
                    0 <= i < now.len() && (#[trigger] now[i]).0 == x by {
                    assert(as_map(before).dom().contains(x));
                    let a = choose|a: int| 0 <= a < before.len() && (#[trigger] before[a]).0 == x;
                    let i = if a < k {
                        a
                    } else {
                        a - 1
                    };
                    assert(now[i].0 == x);
                }
                lemma_map_of(now, m);
            }
            Some(body)
        } else {
            None
        }
    }
}

// --- bytes -------------------------------------------------------------------

/// The bytes of a record's header.
pub const HEADER_LEN: usize = 12;

/// One record on the wire.
pub open spec fn record_bytes(hash: u64, body: Seq<u8>) -> Seq<u8> {
    spec_u64_to_le_bytes(hash) + spec_u32_to_le_bytes(body.len() as u32) + body
}

/// Records on the wire, in the order given.
pub open spec fn stream(rows: Seq<(u64, Seq<u8>)>) -> Seq<u8>
    decreases rows.len(),
{
    if rows.len() == 0 {
        seq![]
    } else {
        record_bytes(rows[0].0, rows[0].1) + stream(rows.skip(1))
    }
}

/// Whether every body's length can be written down.
pub open spec fn writable(rows: Seq<(u64, Seq<u8>)>) -> bool {
    forall|i: int| 0 <= i < rows.len() ==> (#[trigger] rows[i]).1.len() <= u32::MAX
}

/// The records that `bytes` hold, added to `found`.
pub open spec fn parsed(bytes: Seq<u8>, found: Map<u64, Seq<u8>>) -> Result<
    Map<u64, Seq<u8>>,
    StorageError,
>
    decreases bytes.len(),
{
    if bytes.len() == 0 {
        Ok(found)
    } else if bytes.len() < HEADER_LEN {
        Err(StorageError::TrailingBytes)
    } else {
        let hash = spec_u64_from_le_bytes(bytes.subrange(0, 8));
        let len = spec_u32_from_le_bytes(bytes.subrange(8, 12));
        if bytes.len() - HEADER_LEN < len {
            Err(StorageError::TrailingBytes)
        } else if found.dom().contains(hash) {
            Err(StorageError::DuplicateField { hash })
        } else {
            parsed(
                bytes.skip(HEADER_LEN + len),
                found.insert(hash, bytes.subrange(12, HEADER_LEN + len)),
            )
        }
    }
}

fn slice_bytes(v: &Vec<u8>, from: usize, to: usize) -> (r: Vec<u8>)
    requires
        from <= to <= v@.len(),
    ensures
        r@ == v@.subrange(from as int, to as int),
{
    let mut r: Vec<u8> = Vec::new();
    let mut i: usize = from;
    while i < to
        invariant
            from <= i <= to <= v@.len(),
            r@ =~= v@.subrange(from as int, i as int),
        decreases to - i,
    {
        r.push(v[i]);
        i = i + 1;
    }
    r
}

impl Records {
    /// Serializes every record, in hash order. Fails if a body's length does not
    /// fit the header.
    pub fn finish(&self) -> (r: Result<Vec<u8>, StorageError>)
        ensures
            match r {
                Ok(bytes) => writable(self.rows()) && bytes@ == stream(self.rows()),
                Err(e) => !writable(self.rows()) && e == StorageError::LeafBody,
            },
    {
        let ghost rows = self.rows();
        let mut out: Vec<u8> = Vec::new();
        proof {
            assert(rows.skip(0) =~= rows);
            assert(out@ + stream(rows) =~= stream(rows));
        }
        for i in 0..self.entries.len()
            invariant
                rows == self.rows(),
                rows.len() == self.entries@.len(),
                out@ + stream(rows.skip(i as int)) == stream(rows),
                forall|j: int| 0 <= j < i ==> (#[trigger] rows[j]).1.len() <= u32::MAX,
        {
            let body: &Vec<u8> = &self.entries[i].1;
            proof {
                assert(rows[i as int] == (self.entries@[i as int].0, body@));
            }
            let n: usize = body.len();
            if n > u32::MAX as usize {
                proof {
                    assert(rows[i as int].1.len() > u32::MAX);
                }
                return Err(StorageError::LeafBody);
            }
            let ghost before = out@;
            let mut tag: Vec<u8> = u64_to_le_bytes(self.entries[i].0);
            let mut len: Vec<u8> = u32_to_le_bytes(n as u32);
            let mut copy: Vec<u8> = slice_bytes(body, 0, n);
            out.append(&mut tag);
            out.append(&mut len);
            out.append(&mut copy);
            proof {
                assert(body@.subrange(0, n as int) =~= body@);
                let rec = record_bytes(rows[i as int].0, rows[i as int].1);
                assert(out@ =~= before + rec);
                assert(rows.skip(i as int)[0] == rows[i as int]);
                assert(rows.skip(i as int).skip(1) =~= rows.skip(i + 1));
                assert(before + (rec + stream(rows.skip(i + 1))) =~= out@ + stream(
                    rows.skip(i + 1),
                ));
            }
        }
        proof {
            assert(rows.skip(rows.len() as int) =~= seq![]);
            assert(out@ + stream(seq![]) =~= out@);
        }
        Ok(out)
    }

    /// Walks `bytes` into records. Duplicate hashes and a truncated header or
    /// body are errors.
    pub fn parse(bytes: &Vec<u8>) -> (r: Result<Records, StorageError>)
        ensures
            match r {
                Ok(records) => records.wf() && parsed(bytes@, Map::empty()) == Ok::<
                    Map<u64, Seq<u8>>,
                    StorageError,
                >(records@),
                Err(e) => parsed(bytes@, Map::empty()) == Err::<Map<u64, Seq<u8>>, StorageError>(e),
            },
    {
        let n: usize = bytes.len();
        let mut records: Records = Records::new();
        let mut at: usize = 0;
        proof {
            assert(bytes@.skip(0) =~= bytes@);
        }
        while at < n
            invariant
                n == bytes@.len(),
                at <= n,
                records.wf(),
                parsed(bytes@, Map::empty()) == parsed(bytes@.skip(at as int), records@),
            decreases n - at,
        {
            let ghost rest = bytes@.skip(at as int);
            if n - at < HEADER_LEN {
                return Err(StorageError::TrailingBytes);
            }
            let hash: u64 = u64_from_le_bytes(slice_bytes(bytes, at, at + 8).as_slice());
            let len: u32 = u32_from_le_bytes(slice_bytes(bytes, at + 8, at + 12).as_slice());
            proof {
                assert(bytes@.subrange(at as int, at + 8) =~= rest.subrange(0, 8));
                assert(bytes@.subrange(at + 8, at + 12) =~= rest.subrange(8, 12));
            }
            let start: usize = at + HEADER_LEN;
            if n - start < len as usize {
                return Err(StorageError::TrailingBytes);
            }
            let end: usize = start + len as usize;
            let body: Vec<u8> = slice_bytes(bytes, start, end);
            proof {
                assert(body@ =~= rest.subrange(12, HEADER_LEN + len));
                assert(rest.skip(HEADER_LEN + len) =~= bytes@.skip(end as int));
            }
            if let Err(e) = records.emit(hash, body) {
                return Err(e);
            }
            at = end;
        }
        proof {
            assert(bytes@.skip(n as int) =~= seq![]);
        }
        Ok(records)
    }
}

proof fn lemma_stream_parses(
    rows: Seq<(u64, Seq<u8>)>,
    done: Seq<(u64, Seq<u8>)>,
    found: Map<u64, Seq<u8>>,
)
    requires
        ascending(done + rows),
        writable(rows),
        found == as_map(done),
    ensures
        parsed(stream(rows), found) == Ok::<Map<u64, Seq<u8>>, StorageError>(as_map(done + rows)),
    decreases rows.len(),
{
    if rows.len() == 0 {
        assert(done + rows =~= done);
    } else {
        lemma_auto_spec_u64_to_from_le_bytes();
        lemma_auto_spec_u32_to_from_le_bytes();
        let hash = rows[0].0;
        let body = rows[0].1;
        let bytes = stream(rows);
        let rest = stream(rows.skip(1));
        assert(bytes == record_bytes(hash, body) + rest);
        assert(bytes.subrange(0, 8) =~= spec_u64_to_le_bytes(hash));
        assert(bytes.subrange(8, 12) =~= spec_u32_to_le_bytes(body.len() as u32));
        assert(bytes.subrange(12, 12 + body.len() as int) =~= body);
        assert(bytes.skip(12 + body.len() as int) =~= rest);
        assert(ascending(done)) by {
            assert forall|i: int, j: int| 0 <= i < j < done.len() implies (#[trigger] done[i]).0 < (
            #[trigger] done[j]).0 by {
                assert((done + rows)[i].0 < (done + rows)[j].0);
            }
        }
        lemma_as_map(done);
        if found.dom().contains(hash) {
            let i = choose|i: int| 0 <= i < done.len() && (#[trigger] done[i]).0 == hash;
            assert((done + rows)[i].0 < (done + rows)[done.len() as int].0);
        }
        let more = done.push(rows[0]);
        assert(more + rows.skip(1) =~= done + rows);
        assert(more.drop_last() =~= done);
        assert(writable(rows.skip(1))) by {
            assert forall|i: int| 0 <= i < rows.skip(1).len() implies (
            #[trigger] rows.skip(1)[i]).1.len() <= u32::MAX by {
                assert(rows[i + 1].1.len() <= u32::MAX);
            }
        }
        lemma_stream_parses(rows.skip(1), more, as_map(more));
    }
}

/// Parsing gives back the records that were serialized.
pub proof fn lemma_records_read_back(rows: Seq<(u64, Seq<u8>)>)
    requires
        ascending(rows),
        writable(rows),
    ensures
        parsed(stream(rows), Map::empty()) == Ok::<Map<u64, Seq<u8>>, StorageError>(as_map(rows)),
{
    assert(Seq::<(u64, Seq<u8>)>::empty() + rows =~= rows);
    lemma_stream_parses(rows, seq![], Map::empty());
}

} // verus!
