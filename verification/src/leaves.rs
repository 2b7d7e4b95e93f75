//! The value walk of the storage shape: values flattened into leaves, and
//! assembled again from a set of records.

use vstd::bytes::*;
use vstd::prelude::*;
use vstd::string::*;
use vstd::utf8::*;

use crate::storage;
use crate::storage::{
    fold_path_segment, terminate_field_hash, variant_hash, Records, Roots, StorageError,
    MAX_STORAGE_DEPTH,
};

verus! {

// --- leaf bodies -------------------------------------------------------------

/// A type whose values are single leaves.
pub trait Leaf: Sized {
    /// What a value means.
    type Val;

    spec fn meaning(&self) -> Self::Val;

    /// The canonical schema bytes of the type.
    spec fn schema() -> Seq<u8>;

    /// The body that a value is written as; none where it is too long.
    spec fn body(v: Self::Val) -> Option<Seq<u8>>;

    /// The value that a body holds.
    spec fn value(body: Seq<u8>) -> Option<Self::Val>;

    fn schema_bytes() -> (r: Vec<u8>)
        ensures
            r@ == Self::schema(),
    ;

    fn encode(&self) -> (r: Option<Vec<u8>>)
        ensures
            match r {
                Some(b) => Self::body(self.meaning()) == Some(b@),
                None => Self::body(self.meaning()) is None,
            },
    ;

    fn decode(body: &Vec<u8>) -> (r: Option<Self>)
        ensures
            match r {
                Some(x) => Self::value(body@) == Some(x.meaning()),
                None => Self::value(body@) is None,
            },
    ;

    /// A body reads back as the value that was written.
    proof fn lemma_reads_back(v: Self::Val)
        ensures
            match Self::body(v) {
                Some(b) => Self::value(b) == Some(v),
                None => true,
            },
    ;
}

/// The schema bytes of a scalar: the selector of scalars and its own.
pub open spec fn scalar_schema(primitive: u32) -> Seq<u8> {
    spec_u32_to_le_bytes(2) + spec_u32_to_le_bytes(primitive)
}

fn scalar_bytes(primitive: u32) -> (r: Vec<u8>)
    ensures
        r@ == scalar_schema(primitive),
{
    let mut r: Vec<u8> = u32_to_le_bytes(2);
    let mut p: Vec<u8> = u32_to_le_bytes(primitive);
    r.append(&mut p);
    r
}

impl Leaf for u32 {
    type Val = u32;

    open spec fn meaning(&self) -> u32 {
        *self
    }

    open spec fn schema() -> Seq<u8> {
        scalar_schema(2)
    }

    open spec fn body(v: u32) -> Option<Seq<u8>> {
        Some(spec_u32_to_le_bytes(v))
    }

    open spec fn value(body: Seq<u8>) -> Option<u32> {
        if body.len() == 4 {
            Some(spec_u32_from_le_bytes(body))
        } else {
            None
        }
    }

    fn schema_bytes() -> (r: Vec<u8>) {
        scalar_bytes(2)
    }

    fn encode(&self) -> (r: Option<Vec<u8>>) {
        Some(u32_to_le_bytes(*self))
    }

    fn decode(body: &Vec<u8>) -> (r: Option<u32>) {
        if body.len() == 4 {
            Some(u32_from_le_bytes(body.as_slice()))
        } else {
            None
        }
    }

    proof fn lemma_reads_back(v: u32) {
        lemma_auto_spec_u32_to_from_le_bytes();
    }
}

impl Leaf for u64 {
    type Val = u64;

    open spec fn meaning(&self) -> u64 {
        *self
    }

    open spec fn schema() -> Seq<u8> {
        scalar_schema(3)
    }

    open spec fn body(v: u64) -> Option<Seq<u8>> {
        Some(spec_u64_to_le_bytes(v))
    }

    open spec fn value(body: Seq<u8>) -> Option<u64> {
        if body.len() == 8 {
            Some(spec_u64_from_le_bytes(body))
        } else {
            None
        }
    }

    fn schema_bytes() -> (r: Vec<u8>) {
        scalar_bytes(3)
    }

    fn encode(&self) -> (r: Option<Vec<u8>>) {
        Some(u64_to_le_bytes(*self))
    }

    fn decode(body: &Vec<u8>) -> (r: Option<u64>) {
        if body.len() == 8 {
            Some(u64_from_le_bytes(body.as_slice()))
        } else {
            None
        }
    }

    proof fn lemma_reads_back(v: u64) {
        lemma_auto_spec_u64_to_from_le_bytes();
    }
}

impl Leaf for i32 {
    type Val = i32;

    open spec fn meaning(&self) -> i32 {
        *self
    }

    open spec fn schema() -> Seq<u8> {
        scalar_schema(6)
    }

    open spec fn body(v: i32) -> Option<Seq<u8>> {
        Some(spec_u32_to_le_bytes(v as u32))
    }

    open spec fn value(body: Seq<u8>) -> Option<i32> {
        if body.len() == 4 {
            Some(spec_u32_from_le_bytes(body) as i32)
        } else {
            None
        }
    }

    fn schema_bytes() -> (r: Vec<u8>) {
        scalar_bytes(6)
    }

    fn encode(&self) -> (r: Option<Vec<u8>>) {
        Some(u32_to_le_bytes(#[verifier::truncate] (*self as u32)))
    }

    fn decode(body: &Vec<u8>) -> (r: Option<i32>) {
        if body.len() == 4 {
            let n: u32 = u32_from_le_bytes(body.as_slice());
            Some(#[verifier::truncate] (n as i32))
        } else {
            None
        }
    }

    proof fn lemma_reads_back(v: i32) {
        lemma_auto_spec_u32_to_from_le_bytes();
        assert((v as u32) as i32 == v) by (bit_vector);
    }
}

impl Leaf for i64 {
    type Val = i64;

    open spec fn meaning(&self) -> i64 {
        *self
    }

    open spec fn schema() -> Seq<u8> {
        scalar_schema(7)
    }

    open spec fn body(v: i64) -> Option<Seq<u8>> {
        Some(spec_u64_to_le_bytes(v as u64))
    }

    open spec fn value(body: Seq<u8>) -> Option<i64> {
        if body.len() == 8 {
            Some(spec_u64_from_le_bytes(body) as i64)
        } else {
            None
        }
    }

    fn schema_bytes() -> (r: Vec<u8>) {
        scalar_bytes(7)
    }

    fn encode(&self) -> (r: Option<Vec<u8>>) {
        Some(u64_to_le_bytes(#[verifier::truncate] (*self as u64)))
    }

    fn decode(body: &Vec<u8>) -> (r: Option<i64>) {
        if body.len() == 8 {
            let n: u64 = u64_from_le_bytes(body.as_slice());
            Some(#[verifier::truncate] (n as i64))
        } else {
            None
        }
    }

    proof fn lemma_reads_back(v: i64) {
        lemma_auto_spec_u64_to_from_le_bytes();
        assert((v as u64) as i64 == v) by (bit_vector);
    }
}

/// Decodes UTF-8 (std's `String::from_utf8`): the characters the bytes encode,
/// or nothing where they are not valid UTF-8.
#[verifier::external_body]
fn text_from_utf8(bytes: Vec<u8>) -> (r: Option<String>)
    ensures
        match r {
            Some(s) => valid_utf8(bytes@) && s@ == decode_utf8(bytes@),
            None => !valid_utf8(bytes@),
        },
{
    String::from_utf8(bytes).ok()
}

impl Leaf for String {
    type Val = Seq<char>;

    open spec fn meaning(&self) -> Seq<char> {
        self@
    }

    open spec fn schema() -> Seq<u8> {
        spec_u32_to_le_bytes(3)
    }

    /// A length, and the text in UTF-8.
    open spec fn body(v: Seq<char>) -> Option<Seq<u8>> {
        let bytes = encode_utf8(v);
        if bytes.len() <= u32::MAX {
            Some(spec_u32_to_le_bytes(bytes.len() as u32) + bytes)
        } else {
            None
        }
    }

    open spec fn value(body: Seq<u8>) -> Option<Seq<char>> {
        if body.len() >= 4 && spec_u32_from_le_bytes(body.take(4)) == body.len() - 4
            && valid_utf8(body.skip(4)) {
            Some(decode_utf8(body.skip(4)))
        } else {
            None
        }
    }

    fn schema_bytes() -> (r: Vec<u8>) {
        u32_to_le_bytes(3)
    }

    fn encode(&self) -> (r: Option<Vec<u8>>) {
        let bytes: &[u8] = self.as_str().as_bytes();
        let n: usize = bytes.len();
        if n > u32::MAX as usize {
            return None;
        }
        let mut r: Vec<u8> = u32_to_le_bytes(n as u32);
        let ghost head = r@;
        for i in 0..n
            invariant
                n == bytes@.len(),
                r@ =~= head + bytes@.take(i as int),
        {
            r.push(bytes[i]);
        }
        proof {
            assert(bytes@.take(n as int) =~= bytes@);
        }
        Some(r)
    }

    fn decode(body: &Vec<u8>) -> (r: Option<String>) {
        let n: usize = body.len();
        if n < 4 {
            return None;
        }
        let mut head: Vec<u8> = Vec::new();
        for i in 0..4usize
            invariant
                4 <= n == body@.len(),
                head@ =~= body@.take(i as int),
        {
            head.push(body[i]);
        }
        let len: u32 = u32_from_le_bytes(head.as_slice());
        if len as usize != n - 4 {
            return None;
        }
        let mut rest: Vec<u8> = Vec::new();
        for i in 4..n
            invariant
                4 <= n == body@.len(),
                rest@ =~= body@.skip(4).take(i - 4),
        {
            rest.push(body[i]);
        }
        proof {
            assert(body@.skip(4).take(n - 4) =~= body@.skip(4));
        }
        text_from_utf8(rest)
    }

    proof fn lemma_reads_back(v: Seq<char>) {
        broadcast use {encode_utf8_valid_utf8, encode_utf8_decode_utf8};

        lemma_auto_spec_u32_to_from_le_bytes();
        let bytes = encode_utf8(v);
        if bytes.len() <= u32::MAX {
            let body = spec_u32_to_le_bytes(bytes.len() as u32) + bytes;
            assert(body.take(4) =~= spec_u32_to_le_bytes(bytes.len() as u32));
            assert(body.skip(4) =~= bytes);
        }
    }
}

// --- the walk ----------------------------------------------------------------

pub type Rows = Map<u64, Seq<u8>>;

/// `m` with one more record, if its hash is new.
pub open spec fn added(m: Rows, hash: u64, body: Seq<u8>) -> Result<Rows, StorageError> {
    if m.dom().contains(hash) {
        Err(StorageError::DuplicateField { hash })
    } else {
        Ok(m.insert(hash, body))
    }
}

/// Whether `big` holds the records that `after` has and `before` has not.
pub open spec fn carries(big: Rows, before: Rows, after: Rows) -> bool {
    forall|k: u64|
        #![trigger after.dom().contains(k)]
        #![trigger big.dom().contains(k)]
        after.dom().contains(k) && !before.dom().contains(k) ==> big.dom().contains(k) && big[k]
            == after[k]
}

/// Whether `after` holds what `before` does.
pub open spec fn grows(before: Rows, after: Rows) -> bool {
    forall|k: u64|
        #![trigger after.dom().contains(k)]
        #![trigger before.dom().contains(k)]
        before.dom().contains(k) ==> after.dom().contains(k) && after[k] == before[k]
}

/// `big` without the records that `after` has and `before` has not.
pub open spec fn without(big: Rows, before: Rows, after: Rows) -> Rows {
    big.remove_keys(after.dom().difference(before.dom()))
}

/// A type that writes its values' leaves under a path carry, and assembles a
/// value again from a set of records.
pub trait StorageLeaves: Sized {
    /// What a value means.
    type Val;

    spec fn val(&self) -> Self::Val;

    /// The canonical schema bytes of the type.
    spec fn shape() -> Seq<u8>;

    /// Whether the discriminants that the type uses can be told apart.
    spec fn told_apart(roots: Roots) -> bool;

    /// The records after a value's leaves were added.
    spec fn put(v: Self::Val, roots: Roots, carry: u64, depth: u32, m: Rows) -> Result<
        Rows,
        StorageError,
    >;

    /// The value that the records hold, and the records that are left.
    spec fn get(roots: Roots, carry: u64, depth: u32, m: Rows) -> Result<
        (Self::Val, Rows),
        StorageError,
    >;

    /// Whether no leaf of the value is present.
    spec fn missing(carry: u64, depth: u32, m: Rows) -> bool;

    fn shape_bytes() -> (r: Vec<u8>)
        ensures
            r@ == Self::shape(),
    ;

    /// Writes every leaf of `self` under `carry`.
    fn contribute(&self, roots: &Roots, carry: u64, depth: u32, sink: &mut Records) -> (r: Result<
        (),
        StorageError,
    >)
        requires
            old(sink).wf(),
            depth <= MAX_STORAGE_DEPTH + 1,
        ensures
            final(sink).wf(),
            match r {
                Ok(_) => Self::put(self.val(), *roots, carry, depth, old(sink)@) == Ok::<
                    Rows,
                    StorageError,
                >(final(sink)@),
                Err(e) => Self::put(self.val(), *roots, carry, depth, old(sink)@) == Err::<
                    Rows,
                    StorageError,
                >(e),
            },
    ;

    /// Rebuilds a value from the records under `carry`.
    fn assemble(roots: &Roots, carry: u64, depth: u32, source: &mut Records) -> (r: Result<
        Self,
        StorageError,
    >)
        requires
            old(source).wf(),
            depth <= MAX_STORAGE_DEPTH + 1,
        ensures
            final(source).wf(),
            match r {
                Ok(x) => Self::get(*roots, carry, depth, old(source)@) == Ok::<
                    (Self::Val, Rows),
                    StorageError,
                >((x.val(), final(source)@)),
                Err(e) => Self::get(*roots, carry, depth, old(source)@) == Err::<
                    (Self::Val, Rows),
                    StorageError,
                >(e),
            },
    ;

    /// Whether no leaf under this path is present.
    fn is_absent(carry: u64, depth: u32, source: &Records) -> (r: bool)
        requires
            source.wf(),
            depth <= MAX_STORAGE_DEPTH + 1,
        ensures
            r == Self::missing(carry, depth, source@),
    ;

    /// Writing adds records and changes none, and the value comes back from any
    /// set of records that holds the added ones.
    proof fn lemma_comes_back(
        v: Self::Val,
        roots: Roots,
        carry: u64,
        depth: u32,
        m: Rows,
        big: Rows,
    )
        requires
            Self::told_apart(roots),
        ensures
            match Self::put(v, roots, carry, depth, m) {
                Ok(after) => {
                    &&& grows(m, after)
                    &&& m.dom().finite() ==> after.dom().finite()
                    &&& carries(big, m, after) ==> Self::get(roots, carry, depth, big) == Ok::<
                        (Self::Val, Rows),
                        StorageError,
                    >((v, without(big, m, after)))
                },
                Err(_) => true,
            },
    ;
}

impl<L: Leaf> StorageLeaves for L {
    type Val = L::Val;

    open spec fn val(&self) -> L::Val {
        self.meaning()
    }

    open spec fn shape() -> Seq<u8> {
        L::schema()
    }

    open spec fn told_apart(roots: Roots) -> bool {
        true
    }

    open spec fn put(v: L::Val, roots: Roots, carry: u64, depth: u32, m: Rows) -> Result<
        Rows,
        StorageError,
    > {
        if depth > MAX_STORAGE_DEPTH {
            Err(StorageError::NestingTooDeep)
        } else {
            match L::body(v) {
                Some(body) => added(m, storage::terminated(carry, L::schema()), body),
                None => Err(StorageError::LeafBody),
            }
        }
    }

    open spec fn get(roots: Roots, carry: u64, depth: u32, m: Rows) -> Result<
        (L::Val, Rows),
        StorageError,
    > {
        let hash = storage::terminated(carry, L::schema());
        if depth > MAX_STORAGE_DEPTH {
            Err(StorageError::NestingTooDeep)
        } else if !m.dom().contains(hash) {
            Err(StorageError::MissingRequiredField { hash })
        } else {
            match L::value(m[hash]) {
                Some(v) => Ok((v, m.remove(hash))),
                None => Err(StorageError::LeafBody),
            }
        }
    }

    open spec fn missing(carry: u64, depth: u32, m: Rows) -> bool {
        !m.dom().contains(storage::terminated(carry, L::schema()))
    }

    fn shape_bytes() -> (r: Vec<u8>) {
        L::schema_bytes()
    }

    fn contribute(&self, roots: &Roots, carry: u64, depth: u32, sink: &mut Records) -> (r: Result<
        (),
        StorageError,
    >) {
        if depth > MAX_STORAGE_DEPTH {
            return Err(StorageError::NestingTooDeep);
        }
        let hash: u64 = terminate_field_hash(carry, &L::schema_bytes());
        match self.encode() {
            Some(body) => sink.emit(hash, body),
            None => Err(StorageError::LeafBody),
        }
    }

    fn assemble(roots: &Roots, carry: u64, depth: u32, source: &mut Records) -> (r: Result<
        L,
        StorageError,
    >) {
        if depth > MAX_STORAGE_DEPTH {
            return Err(StorageError::NestingTooDeep);
        }
        let hash: u64 = terminate_field_hash(carry, &L::schema_bytes());
        match source.take(hash) {
            None => Err(StorageError::MissingRequiredField { hash }),
            Some(body) => match L::decode(&body) {
                Some(x) => Ok(x),
                None => Err(StorageError::LeafBody),
            },
        }
    }

    fn is_absent(carry: u64, depth: u32, source: &Records) -> (r: bool) {
        !source.contains(terminate_field_hash(carry, &L::schema_bytes()))
    }

    proof fn lemma_comes_back(
        v: L::Val,
        roots: Roots,
        carry: u64,
        depth: u32,
        m: Rows,
        big: Rows,
    ) {
        L::lemma_reads_back(v);
        if let Ok(after) = Self::put(v, roots, carry, depth, m) {
            let hash = storage::terminated(carry, L::schema());
            assert(after.dom().contains(hash));
            if carries(big, m, after) {
                assert(without(big, m, after) =~= big.remove(hash));
            }
        }
    }
}

// --- options -----------------------------------------------------------------

/// The tag of the leaf that says which variant an option is.
pub open spec fn option_tag(carry: u64, depth: u32) -> u64 {
    storage::terminated(storage::segment(carry, "__variant"@, depth), u64::schema())
}

/// The discriminant of `None`.
pub open spec fn none_tag(roots: Roots) -> u64 {
    storage::variant_tag(roots, "None"@, spec_u32_to_le_bytes(0))
}

/// The discriminant of `Some` over a payload of the given shape.
pub open spec fn some_tag(roots: Roots, shape: Seq<u8>) -> u64 {
    storage::variant_tag(roots, "Some"@, shape)
}

fn option_hash(carry: u64, depth: u32) -> (r: u64)
    ensures
        r == option_tag(carry, depth),
{
    terminate_field_hash(fold_path_segment(carry, "__variant", depth), &u64::schema_bytes())
}

fn none_hash(roots: &Roots) -> (r: u64)
    ensures
        r == none_tag(*roots),
{
    variant_hash(roots, "None", &u32_to_le_bytes(0))
}

impl<T: StorageLeaves> StorageLeaves for Option<T> {
    type Val = Option<T::Val>;

    open spec fn val(&self) -> Option<T::Val> {
        match self {
            Some(x) => Some(x.val()),
            None => None,
        }
    }

    open spec fn shape() -> Seq<u8> {
        spec_u32_to_le_bytes(5) + T::shape()
    }

    open spec fn told_apart(roots: Roots) -> bool {
        none_tag(roots) != some_tag(roots, T::shape()) && T::told_apart(roots)
    }

    open spec fn put(v: Option<T::Val>, roots: Roots, carry: u64, depth: u32, m: Rows) -> Result<
        Rows,
        StorageError,
    > {
        if depth > MAX_STORAGE_DEPTH {
            Err(StorageError::NestingTooDeep)
        } else {
            match v {
                None => added(m, option_tag(carry, depth), spec_u64_to_le_bytes(none_tag(roots))),
                Some(x) => match added(
                    m,
                    option_tag(carry, depth),
                    spec_u64_to_le_bytes(some_tag(roots, T::shape())),
                ) {
                    Ok(tagged) => T::put(
                        x,
                        roots,
                        storage::segment(carry, "Some"@, depth),
                        (depth + 1) as u32,
                        tagged,
                    ),
                    Err(e) => Err(e),
                },
            }
        }
    }

    open spec fn get(roots: Roots, carry: u64, depth: u32, m: Rows) -> Result<
        (Option<T::Val>, Rows),
        StorageError,
    > {
        let tag = option_tag(carry, depth);
        if depth > MAX_STORAGE_DEPTH {
            Err(StorageError::NestingTooDeep)
        } else if !m.dom().contains(tag) {
            Ok((None, m))
        } else {
            match u64::value(m[tag]) {
                None => Err(StorageError::LeafBody),
                Some(variant) => if variant == none_tag(roots) {
                    Ok((None, m.remove(tag)))
                } else if variant == some_tag(roots, T::shape()) {
                    match T::get(
                        roots,
                        storage::segment(carry, "Some"@, depth),
                        (depth + 1) as u32,
                        m.remove(tag),
                    ) {
                        Ok((x, rest)) => Ok((Some(x), rest)),
                        Err(e) => Err(e),
                    }
                } else {
                    Err(StorageError::UnknownVariant { hash: variant })
                },
            }
        }
    }

    open spec fn missing(carry: u64, depth: u32, m: Rows) -> bool {
        !m.dom().contains(option_tag(carry, depth))
    }

    fn shape_bytes() -> (r: Vec<u8>) {
        let mut r: Vec<u8> = u32_to_le_bytes(5);
        let mut inner: Vec<u8> = T::shape_bytes();
        r.append(&mut inner);
        r
    }

    fn contribute(&self, roots: &Roots, carry: u64, depth: u32, sink: &mut Records) -> (r: Result<
        (),
        StorageError,
    >) {
        if depth > MAX_STORAGE_DEPTH {
            return Err(StorageError::NestingTooDeep);
        }
        let tag: u64 = option_hash(carry, depth);
        match self {
            None => sink.emit(tag, u64_to_le_bytes(none_hash(roots))),
            Some(x) => {
                let variant: u64 = variant_hash(roots, "Some", &T::shape_bytes());
                match sink.emit(tag, u64_to_le_bytes(variant)) {
                    Ok(_) => x.contribute(
                        roots,
                        fold_path_segment(carry, "Some", depth),
                        depth + 1,
                        sink,
                    ),
                    Err(e) => Err(e),
                }
            },
        }
    }

    fn assemble(roots: &Roots, carry: u64, depth: u32, source: &mut Records) -> (r: Result<
        Option<T>,
        StorageError,
    >) {
        if depth > MAX_STORAGE_DEPTH {
            return Err(StorageError::NestingTooDeep);
        }
        match source.take(option_hash(carry, depth)) {
            None => Ok(None),
            Some(body) => match u64::decode(&body) {
                None => Err(StorageError::LeafBody),
                Some(variant) => if variant == none_hash(roots) {
                    Ok(None)
                } else if variant == variant_hash(roots, "Some", &T::shape_bytes()) {
                    match T::assemble(
                        roots,
                        fold_path_segment(carry, "Some", depth),
                        depth + 1,
                        source,
                    ) {
                        Ok(x) => Ok(Some(x)),
                        Err(e) => Err(e),
                    }
                } else {
                    Err(StorageError::UnknownVariant { hash: variant })
                },
            },
        }
    }

    fn is_absent(carry: u64, depth: u32, source: &Records) -> (r: bool) {
        !source.contains(option_hash(carry, depth))
    }

    proof fn lemma_comes_back(
        v: Option<T::Val>,
        roots: Roots,
        carry: u64,
        depth: u32,
        m: Rows,
        big: Rows,
    ) {
        lemma_auto_spec_u64_to_from_le_bytes();
        let tag = option_tag(carry, depth);
        if let Ok(after) = Self::put(v, roots, carry, depth, m) {
            match v {
                None => {
                    assert(after.dom().contains(tag));
                    if carries(big, m, after) {
                        assert(without(big, m, after) =~= big.remove(tag));
                    }
                },
                Some(x) => {
                    let tagged = m.insert(
                        tag,
                        spec_u64_to_le_bytes(some_tag(roots, T::shape())),
                    );
                    let inner = storage::segment(carry, "Some"@, depth);
                    let rest = big.remove(tag);
                    T::lemma_comes_back(x, roots, inner, (depth + 1) as u32, tagged, rest);
                    lemma_two_steps(m, tagged, after, big, rest);
                },
            }
        }
    }
}

/// Writing in two steps, from `a` to `b` and from `b` to `c`: what holds what
/// was added over both, holds what was added in each, and what is left of it is
/// the same.
proof fn lemma_two_steps(a: Rows, b: Rows, c: Rows, big: Rows, rest: Rows)
    requires
        grows(a, b),
        grows(b, c),
    ensures
        grows(a, c),
        carries(big, a, c) ==> carries(big, a, b),
        carries(big, a, c) && rest == without(big, a, b) ==> carries(rest, b, c) && without(
            rest,
            b,
            c,
        ) == without(big, a, c),
        forall|tag: u64, body: Seq<u8>|
            #![trigger a.insert(tag, body)]
            b == a.insert(tag, body) && !a.dom().contains(tag) && rest == big.remove(tag)
                && carries(big, a, c) ==> {
                &&& big.dom().contains(tag)
                &&& big[tag] == body
                &&& carries(rest, b, c)
                &&& without(rest, b, c) == without(big, a, c)
            },
{
    assert forall|k: u64| a.dom().contains(k) implies c.dom().contains(k) && c[k] == a[k] by {
        assert(b.dom().contains(k));
    }
    if carries(big, a, c) {
        assert forall|k: u64| b.dom().contains(k) && !a.dom().contains(k) implies big.dom().contains(
            k,
        ) && big[k] == b[k] by {
            assert(c.dom().contains(k));
        }
        if rest == without(big, a, b) {
            assert forall|k: u64| c.dom().contains(k) && !b.dom().contains(k) implies rest.dom().contains(
                k,
            ) && rest[k] == c[k] by {
                assert(!a.dom().contains(k)) by {
                    if a.dom().contains(k) {
                        assert(b.dom().contains(k));
                    }
                }
                assert(big.dom().contains(k));
            }
            assert(without(rest, b, c) =~= without(big, a, c)) by {
                assert forall|k: u64| without(rest, b, c).dom().contains(k) <==> without(
                    big,
                    a,
                    c,
                ).dom().contains(k) by {
                    if a.dom().contains(k) {
                        assert(b.dom().contains(k));
                    }
                    if b.dom().contains(k) {
                        assert(c.dom().contains(k));
                    }
                }
            }
        }
        assert forall|tag: u64, body: Seq<u8>|
            #![trigger a.insert(tag, body)]
            b == a.insert(tag, body) && !a.dom().contains(tag) && rest == big.remove(tag) implies {
            &&& big.dom().contains(tag)
            &&& big[tag] == body
            &&& carries(rest, b, c)
            &&& without(rest, b, c) == without(big, a, c)
        } by {
            assert(b.dom().contains(tag));
            assert(c.dom().contains(tag));
            assert(big.dom().contains(tag));
            assert(without(big, a, b) =~= big.remove(tag));
        }
    }
}

// --- rows of named fields ----------------------------------------------------

/// The depth of a value inside one at `depth`. Only whether it is zero matters
/// once the cap is passed.
pub open spec fn deeper(depth: u32) -> u32 {
    if depth <= MAX_STORAGE_DEPTH {
        (depth + 1) as u32
    } else {
        depth
    }
}

/// The values of a struct's fields, first to last, as nested pairs; their names
/// are handed along in the same order.
pub trait Row: Sized {
    /// What the fields mean.
    type Val;

    spec fn val(&self) -> Self::Val;

    /// How many fields there are.
    spec fn width() -> nat;

    /// The schema bytes of the fields, one after the other.
    spec fn shapes() -> Seq<u8>;

    spec fn told_apart(roots: Roots) -> bool;

    spec fn put(
        v: Self::Val,
        names: Seq<Seq<char>>,
        at: int,
        roots: Roots,
        carry: u64,
        depth: u32,
        m: Rows,
    ) -> Result<Rows, StorageError>;

    spec fn get(
        names: Seq<Seq<char>>,
        at: int,
        roots: Roots,
        carry: u64,
        depth: u32,
        m: Rows,
    ) -> Result<(Self::Val, Rows), StorageError>;

    spec fn missing(names: Seq<Seq<char>>, at: int, carry: u64, depth: u32, m: Rows) -> bool;

    fn shapes_bytes() -> (r: Vec<u8>)
        ensures
            r@ == Self::shapes(),
    ;

    fn contribute(
        &self,
        names: &Vec<&'static str>,
        at: usize,
        roots: &Roots,
        carry: u64,
        depth: u32,
        sink: &mut Records,
    ) -> (r: Result<(), StorageError>)
        requires
            old(sink).wf(),
            depth <= MAX_STORAGE_DEPTH,
            at + Self::width() <= names@.len(),
        ensures
            final(sink).wf(),
            match r {
                Ok(_) => Self::put(
                    self.val(),
                    labels(names@),
                    at as int,
                    *roots,
                    carry,
                    depth,
                    old(sink)@,
                ) == Ok::<Rows, StorageError>(final(sink)@),
                Err(e) => Self::put(
                    self.val(),
                    labels(names@),
                    at as int,
                    *roots,
                    carry,
                    depth,
                    old(sink)@,
                ) == Err::<Rows, StorageError>(e),
            },
    ;

    fn assemble(
        names: &Vec<&'static str>,
        at: usize,
        roots: &Roots,
        carry: u64,
        depth: u32,
        source: &mut Records,
    ) -> (r: Result<Self, StorageError>)
        requires
            old(source).wf(),
            depth <= MAX_STORAGE_DEPTH,
            at + Self::width() <= names@.len(),
        ensures
            final(source).wf(),
            match r {
                Ok(x) => Self::get(
                    labels(names@),
                    at as int,
                    *roots,
                    carry,
                    depth,
                    old(source)@,
                ) == Ok::<(Self::Val, Rows), StorageError>((x.val(), final(source)@)),
                Err(e) => Self::get(
                    labels(names@),
                    at as int,
                    *roots,
                    carry,
                    depth,
                    old(source)@,
                ) == Err::<(Self::Val, Rows), StorageError>(e),
            },
    ;

    fn is_absent(
        names: &Vec<&'static str>,
        at: usize,
        carry: u64,
        depth: u32,
        source: &Records,
    ) -> (r: bool)
        requires
            source.wf(),
            depth <= MAX_STORAGE_DEPTH + 1,
            at + Self::width() <= names@.len(),
        ensures
            r == Self::missing(labels(names@), at as int, carry, depth, source@),
    ;

    proof fn lemma_comes_back(
        v: Self::Val,
        names: Seq<Seq<char>>,
        at: int,
        roots: Roots,
        carry: u64,
        depth: u32,
        m: Rows,
        big: Rows,
    )
        requires
            Self::told_apart(roots),
        ensures
            match Self::put(v, names, at, roots, carry, depth, m) {
                Ok(after) => {
                    &&& grows(m, after)
                    &&& m.dom().finite() ==> after.dom().finite()
                    &&& carries(big, m, after) ==> Self::get(
                        names,
                        at,
                        roots,
                        carry,
                        depth,
                        big,
                    ) == Ok::<(Self::Val, Rows), StorageError>((v, without(big, m, after)))
                },
                Err(_) => true,
            },
    ;
}

/// The characters of a list of names.
pub open spec fn labels(names: Seq<&'static str>) -> Seq<Seq<char>> {
    names.map_values(|s: &'static str| s@)
}

impl Row for () {
    type Val = ();

    open spec fn val(&self) -> () {
        ()
    }

    open spec fn width() -> nat {
        0
    }

    open spec fn shapes() -> Seq<u8> {
        seq![]
    }

    open spec fn told_apart(roots: Roots) -> bool {
        true
    }

    open spec fn put(
        v: (),
        names: Seq<Seq<char>>,
        at: int,
        roots: Roots,
        carry: u64,
        depth: u32,
        m: Rows,
    ) -> Result<Rows, StorageError> {
        Ok(m)
    }

    open spec fn get(
        names: Seq<Seq<char>>,
        at: int,
        roots: Roots,
        carry: u64,
        depth: u32,
        m: Rows,
    ) -> Result<((), Rows), StorageError> {
        Ok(((), m))
    }

    open spec fn missing(names: Seq<Seq<char>>, at: int, carry: u64, depth: u32, m: Rows) -> bool {
        true
    }

    fn shapes_bytes() -> (r: Vec<u8>) {
        let r: Vec<u8> = Vec::new();
        proof {
            assert(r@ =~= seq![]);
        }
        r
    }

    fn contribute(
        &self,
        names: &Vec<&'static str>,
        at: usize,
        roots: &Roots,
        carry: u64,
        depth: u32,
        sink: &mut Records,
    ) -> (r: Result<(), StorageError>) {
        Ok(())
    }

    fn assemble(
        names: &Vec<&'static str>,
        at: usize,
        roots: &Roots,
        carry: u64,
        depth: u32,
        source: &mut Records,
    ) -> (r: Result<(), StorageError>) {
        Ok(())
    }

    fn is_absent(
        names: &Vec<&'static str>,
        at: usize,
        carry: u64,
        depth: u32,
        source: &Records,
    ) -> (r: bool) {
        true
    }

    proof fn lemma_comes_back(
        v: (),
        names: Seq<Seq<char>>,
        at: int,
        roots: Roots,
        carry: u64,
        depth: u32,
        m: Rows,
        big: Rows,
    ) {
        assert(without(big, m, m) =~= big);
    }
}

impl<A: StorageLeaves, R: Row> Row for (A, R) {
    type Val = (A::Val, R::Val);

    open spec fn val(&self) -> (A::Val, R::Val) {
        (self.0.val(), self.1.val())
    }

    open spec fn width() -> nat {
        R::width() + 1
    }

    open spec fn shapes() -> Seq<u8> {
        A::shape() + R::shapes()
    }

    open spec fn told_apart(roots: Roots) -> bool {
        A::told_apart(roots) && R::told_apart(roots)
    }

    open spec fn put(
        v: (A::Val, R::Val),
        names: Seq<Seq<char>>,
        at: int,
        roots: Roots,
        carry: u64,
        depth: u32,
        m: Rows,
    ) -> Result<Rows, StorageError> {
        match A::put(v.0, roots, storage::segment(carry, names[at], depth), deeper(depth), m) {
            Ok(next) => R::put(v.1, names, at + 1, roots, carry, depth, next),
            Err(e) => Err(e),
        }
    }

    open spec fn get(
        names: Seq<Seq<char>>,
        at: int,
        roots: Roots,
        carry: u64,
        depth: u32,
        m: Rows,
    ) -> Result<((A::Val, R::Val), Rows), StorageError> {
        match A::get(roots, storage::segment(carry, names[at], depth), deeper(depth), m) {
            Ok((a, next)) => match R::get(names, at + 1, roots, carry, depth, next) {
                Ok((r, rest)) => Ok(((a, r), rest)),
                Err(e) => Err(e),
            },
            Err(e) => Err(e),
        }
    }

    open spec fn missing(names: Seq<Seq<char>>, at: int, carry: u64, depth: u32, m: Rows) -> bool {
        A::missing(storage::segment(carry, names[at], depth), deeper(depth), m) && R::missing(
            names,
            at + 1,
            carry,
            depth,
            m,
        )
    }

    fn shapes_bytes() -> (r: Vec<u8>) {
        let mut r: Vec<u8> = A::shape_bytes();
        let mut rest: Vec<u8> = R::shapes_bytes();
        r.append(&mut rest);
        r
    }

    fn contribute(
        &self,
        names: &Vec<&'static str>,
        at: usize,
        roots: &Roots,
        carry: u64,
        depth: u32,
        sink: &mut Records,
    ) -> (r: Result<(), StorageError>) {
        proof {
            assert(at < names.len());
        }
        let inner: u64 = fold_path_segment(carry, names[at], depth);
        match self.0.contribute(roots, inner, depth + 1, sink) {
            Ok(_) => self.1.contribute(names, at + 1, roots, carry, depth, sink),
            Err(e) => Err(e),
        }
    }

    fn assemble(
        names: &Vec<&'static str>,
        at: usize,
        roots: &Roots,
        carry: u64,
        depth: u32,
        source: &mut Records,
    ) -> (r: Result<(A, R), StorageError>) {
        proof {
            assert(at < names.len());
        }
        let inner: u64 = fold_path_segment(carry, names[at], depth);
        match A::assemble(roots, inner, depth + 1, source) {
            Ok(a) => match R::assemble(names, at + 1, roots, carry, depth, source) {
                Ok(r) => Ok((a, r)),
                Err(e) => Err(e),
            },
            Err(e) => Err(e),
        }
    }

    fn is_absent(
        names: &Vec<&'static str>,
        at: usize,
        carry: u64,
        depth: u32,
        source: &Records,
    ) -> (r: bool) {
        proof {
            assert(at < names.len());
        }
        let inner: u64 = fold_path_segment(carry, names[at], depth);
        let next: u32 = if depth <= MAX_STORAGE_DEPTH {
            depth + 1
        } else {
            depth
        };
        A::is_absent(inner, next, source) && R::is_absent(names, at + 1, carry, depth, source)
    }

    proof fn lemma_comes_back(
        v: (A::Val, R::Val),
        names: Seq<Seq<char>>,
        at: int,
        roots: Roots,
        carry: u64,
        depth: u32,
        m: Rows,
        big: Rows,
    ) {
        let inner = storage::segment(carry, names[at], depth);
        A::lemma_comes_back(v.0, roots, inner, deeper(depth), m, big);
        if let Ok(next) = A::put(v.0, roots, inner, deeper(depth), m) {
            let rest = without(big, m, next);
            R::lemma_comes_back(v.1, names, at + 1, roots, carry, depth, next, rest);
            if let Ok(after) = R::put(v.1, names, at + 1, roots, carry, depth, next) {
                lemma_two_steps(m, next, after, big, rest);
            }
        }
    }
}

// --- whole payloads ----------------------------------------------------------

/// A kind of payload: a name, and a row of named fields.
pub trait Kind: Sized {
    /// What a value means.
    type Val;

    /// The fields.
    type Fields: Row;

    spec fn val(&self) -> Self::Val;

    /// The name of the kind.
    spec fn kind_name() -> Seq<char>;

    /// The names of the fields.
    spec fn field_names() -> Seq<Seq<char>>;

    /// The fields of a value.
    spec fn fields_of(v: Self::Val) -> <Self::Fields as Row>::Val;

    /// The value with the given fields.
    spec fn value_of(fields: <Self::Fields as Row>::Val) -> Self::Val;

    fn name() -> (r: &'static str)
        ensures
            r@ == Self::kind_name(),
    ;

    fn names() -> (r: Vec<&'static str>)
        ensures
            labels(r@) == Self::field_names(),
            r@.len() == Self::Fields::width(),
    ;

    fn to_fields(&self) -> (r: Self::Fields)
        ensures
            r.val() == Self::fields_of(self.val()),
    ;

    fn from_fields(fields: Self::Fields) -> (r: Self)
        ensures
            r.val() == Self::value_of(fields.val()),
    ;

    /// A value is its fields.
    proof fn lemma_fields(v: Self::Val)
        ensures
            Self::value_of(Self::fields_of(v)) == v,
    ;
}

/// The records that a value of a kind makes.
pub open spec fn kind_records<K: Kind>(v: K::Val, roots: Roots) -> Result<Rows, StorageError> {
    K::Fields::put(
        K::fields_of(v),
        K::field_names(),
        0,
        roots,
        roots.field,
        0,
        Map::empty(),
    )
}

/// The records of a map in hash order.
pub open spec fn in_hash_order(m: Rows) -> Seq<(u64, Seq<u8>)> {
    choose|rows: Seq<(u64, Seq<u8>)>|
        storage::ascending(rows) && #[trigger] storage::as_map(rows) == m
}

/// The bytes that a value of a kind is stored as.
pub open spec fn encoded<K: Kind>(v: K::Val, roots: Roots) -> Result<Seq<u8>, StorageError> {
    match kind_records::<K>(v, roots) {
        Ok(m) => if storage::writable(in_hash_order(m)) {
            Ok(storage::stream(in_hash_order(m)))
        } else {
            Err(StorageError::LeafBody)
        },
        Err(e) => Err(e),
    }
}

/// The value of a kind that some bytes hold. Records that the kind does not
/// bind are passed over.
pub open spec fn decoded<K: Kind>(bytes: Seq<u8>, roots: Roots) -> Result<K::Val, StorageError> {
    match storage::parsed(bytes, Map::empty()) {
        Ok(m) => match K::Fields::get(K::field_names(), 0, roots, roots.field, 0, m) {
            Ok((fields, _)) => Ok(K::value_of(fields)),
            Err(e) => Err(e),
        },
        Err(e) => Err(e),
    }
}

/// Encodes a value of a kind.
pub fn encode_storage<K: Kind>(event: &K, roots: &Roots) -> (r: Result<Vec<u8>, StorageError>)
    ensures
        match r {
            Ok(bytes) => encoded::<K>(event.val(), *roots) == Ok::<Seq<u8>, StorageError>(bytes@),
            Err(e) => encoded::<K>(event.val(), *roots) == Err::<Seq<u8>, StorageError>(e),
        },
{
    let mut sink: Records = Records::new();
    let fields: K::Fields = event.to_fields();
    match fields.contribute(&K::names(), 0, roots, roots.field, 0, &mut sink) {
        Ok(_) => {
            proof {
                let rows = sink.rows();
                let chosen = in_hash_order(sink@);
                assert(storage::ascending(rows) && storage::as_map(rows) == sink@);
                storage::lemma_rows_are_unique(rows, chosen);
            }
            sink.finish()
        },
        Err(e) => Err(e),
    }
}

/// Decodes a value of a kind.
pub fn decode_storage<K: Kind>(bytes: &Vec<u8>, roots: &Roots) -> (r: Result<K, StorageError>)
    ensures
        match r {
            Ok(x) => decoded::<K>(bytes@, *roots) == Ok::<K::Val, StorageError>(x.val()),
            Err(e) => decoded::<K>(bytes@, *roots) == Err::<K::Val, StorageError>(e),
        },
{
    match Records::parse(bytes) {
        Ok(records) => {
            let mut source: Records = records;
            match K::Fields::assemble(&K::names(), 0, roots, roots.field, 0, &mut source) {
                Ok(fields) => Ok(K::from_fields(fields)),
                Err(e) => Err(e),
            }
        },
        Err(e) => Err(e),
    }
}

/// A payload decodes to the value whose records it holds, whatever else it
/// holds: a newer writer's fields are passed over.
pub proof fn lemma_unknown_fields_are_passed_over<K: Kind>(v: K::Val, roots: Roots, bytes: Seq<u8>)
    requires
        K::Fields::told_apart(roots),
    ensures
        match (kind_records::<K>(v, roots), storage::parsed(bytes, Map::empty())) {
            (Ok(own), Ok(all)) => carries(all, Map::empty(), own) ==> decoded::<K>(bytes, roots)
                == Ok::<K::Val, StorageError>(v),
            _ => true,
        },
{
    if let Ok(all) = storage::parsed(bytes, Map::empty()) {
        K::Fields::lemma_comes_back(
            K::fields_of(v),
            K::field_names(),
            0,
            roots,
            roots.field,
            0,
            Map::empty(),
            all,
        );
        K::lemma_fields(v);
    }
}

/// What was encoded decodes to the same value.
pub proof fn lemma_payload_reads_back<K: Kind>(v: K::Val, roots: Roots)
    requires
        K::Fields::told_apart(roots),
    ensures
        match encoded::<K>(v, roots) {
            Ok(bytes) => decoded::<K>(bytes, roots) == Ok::<K::Val, StorageError>(v),
            Err(_) => true,
        },
{
    if let Ok(bytes) = encoded::<K>(v, roots) {
        let m = kind_records::<K>(v, roots)->Ok_0;
        K::Fields::lemma_comes_back(
            K::fields_of(v),
            K::field_names(),
            0,
            roots,
            roots.field,
            0,
            Map::empty(),
            m,
        );
        let witness = storage::lemma_rows_exist(m);
        assert(storage::ascending(witness) && storage::as_map(witness) == m);
        let rows = in_hash_order(m);
        storage::lemma_records_read_back(rows);
        lemma_unknown_fields_are_passed_over::<K>(v, roots, bytes);
    }
}

/// An optional field that a payload does not mention is absent: rows written
/// before the field existed still decode.
pub proof fn lemma_unmentioned_option_is_absent<T: StorageLeaves>(
    roots: Roots,
    carry: u64,
    depth: u32,
    m: Rows,
)
    requires
        depth <= MAX_STORAGE_DEPTH,
        <Option<T> as StorageLeaves>::missing(carry, depth, m),
    ensures
        <Option<T> as StorageLeaves>::get(roots, carry, depth, m) == Ok::<
            (Option<T::Val>, Rows),
            StorageError,
        >((None, m)),
{
}

} // verus!
