//! How a stored event lies on the wire, how its fields are hashed, and how it
//! is dumped.

use vstd::bytes::*;
use vstd::prelude::*;
use vstd::utf8::*;

use crate::dump;
use crate::json::{self, Tree};
use crate::kinds::{AbandonedV, AttachedV, AttemptV, PicksV, PostedV, RankSeenV};
use crate::storage::{self, StorageError};

verus! {

/// A record is its hash in eight bytes, the length of its body in four, both
/// with the lowest byte first, and its body.
pub proof fn lemma_record_layout(hash: u64, body: Seq<u8>)
    requires
        body.len() <= u32::MAX,
    ensures
        ({
            let bytes = storage::record_bytes(hash, body);
            &&& bytes.len() == 12 + body.len()
            &&& spec_u64_from_le_bytes(bytes.subrange(0, 8)) == hash
            &&& spec_u32_from_le_bytes(bytes.subrange(8, 12)) == body.len()
            &&& bytes.subrange(12, bytes.len() as int) == body
        }),
{
    lemma_auto_spec_u64_to_from_le_bytes();
    lemma_auto_spec_u32_to_from_le_bytes();
    let bytes = storage::record_bytes(hash, body);
    assert(bytes.subrange(0, 8) =~= spec_u64_to_le_bytes(hash));
    assert(bytes.subrange(8, 12) =~= spec_u32_to_le_bytes(body.len() as u32));
    assert(bytes.subrange(12, bytes.len() as int) =~= body);
}

/// A stream is its records, one after the other.
pub proof fn lemma_streams_are_records(a: Seq<(u64, Seq<u8>)>, b: Seq<(u64, Seq<u8>)>)
    ensures
        storage::stream(a + b) == storage::stream(a) + storage::stream(b),
    decreases a.len(),
{
    if a.len() == 0 {
        assert(a + b =~= b);
        assert(storage::stream(a) + storage::stream(b) =~= storage::stream(b));
    } else {
        assert((a + b).skip(1) =~= a.skip(1) + b);
        lemma_streams_are_records(a.skip(1), b);
        assert((a + b)[0] == a[0]);
        let one = storage::record_bytes(a[0].0, a[0].1);
        assert(one + (storage::stream(a.skip(1)) + storage::stream(b)) =~= (one + storage::stream(
            a.skip(1),
        )) + storage::stream(b));
    }
}

/// Bytes that are too few for a header, or for the body that a header promises,
/// are refused.
pub proof fn lemma_cut_records_are_refused(bytes: Seq<u8>, found: Map<u64, Seq<u8>>)
    requires
        bytes.len() > 0,
        bytes.len() < 12 || bytes.len() - 12 < spec_u32_from_le_bytes(bytes.subrange(8, 12)),
    ensures
        storage::parsed(bytes, found) == Err::<Map<u64, Seq<u8>>, StorageError>(
            StorageError::TrailingBytes,
        ),
{
}

/// A hash that comes twice is refused.
pub proof fn lemma_repeated_records_are_refused(
    hash: u64,
    body: Seq<u8>,
    rest: Seq<u8>,
    found: Map<u64, Seq<u8>>,
)
    requires
        body.len() <= u32::MAX,
        found.dom().contains(hash),
    ensures
        storage::parsed(storage::record_bytes(hash, body) + rest, found) == Err::<
            Map<u64, Seq<u8>>,
            StorageError,
        >(StorageError::DuplicateField { hash }),
{
    lemma_record_layout(hash, body);
    let one = storage::record_bytes(hash, body);
    let all = one + rest;
    assert(all.subrange(0, 8) =~= one.subrange(0, 8));
    assert(all.subrange(8, 12) =~= one.subrange(8, 12));
}

/// Hashing goes on where it stopped: two runs of bytes hash like the one that
/// they make.
pub proof fn lemma_hashes_go_on(carry: u64, a: Seq<u8>, b: Seq<u8>)
    ensures
        storage::folded(storage::folded(carry, a), b) == storage::folded(carry, a + b),
    decreases b.len(),
{
    if b.len() == 0 {
        assert(a + b =~= a);
    } else {
        lemma_hashes_go_on(carry, a, b.drop_last());
        assert((a + b).drop_last() =~= a + b.drop_last());
        assert((a + b).last() == b.last());
    }
}

/// The hash of a nested field is that of its path, dots between the names; a
/// NUL and the schema end it.
pub proof fn lemma_field_hashes(carry: u64, a: Seq<char>, b: Seq<char>, depth: u32, schema: Seq<u8>)
    requires
        depth > 0,
    ensures
        storage::segment(carry, a, 0) == storage::folded(carry, encode_utf8(a)),
        storage::segment(storage::segment(carry, a, 0), b, depth) == storage::folded(
            carry,
            encode_utf8(a) + seq![0x2eu8] + encode_utf8(b),
        ),
        storage::terminated(storage::segment(carry, a, 0), schema) == storage::folded(
            carry,
            encode_utf8(a) + seq![0u8] + schema,
        ),
{
    let x = encode_utf8(a);
    let y = encode_utf8(b);
    lemma_hashes_go_on(carry, x, seq![0x2eu8]);
    lemma_hashes_go_on(carry, x + seq![0x2eu8], y);
    lemma_hashes_go_on(carry, x, seq![0u8]);
    lemma_hashes_go_on(carry, x + seq![0u8], schema);
}

// --- dumping -----------------------------------------------------------------

/// Whether an object has a member with this name and this value.
pub open spec fn tells(t: Tree, key: Seq<char>, value: Tree) -> bool {
    t matches Tree::Obj(m) && exists|i: int|
        0 <= i < m.len() && #[trigger] m[i] == (key, value)
}

/// A dumped row tells its number, its time, its kind and what it says.
pub proof fn lemma_dumped_rows(seq: i64, at_millis: i64, kind: Seq<char>, payload: Tree)
    ensures
        ({
            let row = dump::row_tree(seq, at_millis, kind, payload);
            &&& tells(row, "seq"@, json::num(seq))
            &&& tells(row, "at_millis"@, json::num(at_millis))
            &&& tells(row, "kind"@, Tree::Str(kind))
            &&& tells(row, "payload"@, payload)
        }),
{
    let m = dump::row_tree(seq, at_millis, kind, payload)->Obj_0;
    assert(m[0] == ("seq"@, json::num(seq)));
    assert(m[1] == ("at_millis"@, json::num(at_millis)));
    assert(m[2] == ("kind"@, Tree::Str(kind)));
    assert(m[3] == ("payload"@, payload));
}

/// A dumped post tells the game, the player, the queue and the message.
pub proof fn lemma_dumped_posts(e: PostedV)
    requires
        e.game_id <= i64::MAX,
    ensures
        ({
            let t = dump::posted_tree(e);
            &&& tells(t, "platform"@, Tree::Str(e.platform))
            &&& tells(t, "game_id"@, json::num(e.game_id as i64))
            &&& tells(t, "riot_id"@, Tree::Str(e.riot_id))
            &&& tells(t, "queue_id"@, json::num(e.queue_id as i64))
            &&& tells(t, "message_id"@, Tree::Str(e.message_id))
            &&& e.puuid matches Some(puuid) ==> tells(t, "puuid"@, Tree::Str(puuid))
            &&& e.rank is None ==> tells(t, "rank"@, Tree::Null)
        }),
{
    let m = dump::posted_tree(e)->Obj_0;
    assert(m[0].0 == "platform"@);
    assert(m[1].0 == "game_id"@);
    assert(m[2].0 == "riot_id"@);
    assert(m[3].0 == "queue_id"@);
    assert(m[4].0 == "message_id"@);
    assert(m[5].0 == "rank"@);
    assert(m[6].0 == "puuid"@);
}

/// A dumped observation tells the player, the queue and the standing.
pub proof fn lemma_dumped_observations(e: RankSeenV)
    ensures
        ({
            let t = dump::observed_tree(e);
            &&& tells(t, "puuid"@, Tree::Str(e.puuid))
            &&& tells(t, "riot_id"@, Tree::Str(e.riot_id))
            &&& tells(t, "queue_id"@, json::num(e.queue_id as i64))
            &&& tells(t, "ladder_value"@, json::num(e.ladder_value as i64))
            &&& tells(t, "label"@, Tree::Str(e.label))
            &&& tells(t, "lp"@, json::num(e.lp as i64))
        }),
{
    let m = dump::observed_tree(e)->Obj_0;
    assert(m[0].0 == "puuid"@);
    assert(m[1].0 == "riot_id"@);
    assert(m[2].0 == "queue_id"@);
    assert(m[3].0 == "ladder_value"@);
    assert(m[4].0 == "label"@);
    assert(m[5].0 == "lp"@);
}

/// A dumped clip event tells the game and its number of tries, and the player
/// where it is about one.
pub proof fn lemma_dumped_clip_events(a: AttemptV, b: AttachedV, c: AbandonedV)
    requires
        a.game_id <= i64::MAX,
        b.game_id <= i64::MAX,
        c.game_id <= i64::MAX,
    ensures
        ({
            let t = dump::attempt_tree(a);
            &&& tells(t, "platform"@, Tree::Str(a.platform))
            &&& tells(t, "game_id"@, json::num(a.game_id as i64))
            &&& tells(t, "try_number"@, json::num(a.try_number as i64))
            &&& a.riot_id matches Some(id) ==> tells(t, "riot_id"@, Tree::Str(id))
        }),
        ({
            let t = dump::attached_tree(b);
            &&& tells(t, "platform"@, Tree::Str(b.platform))
            &&& tells(t, "game_id"@, json::num(b.game_id as i64))
            &&& b.riot_id matches Some(id) ==> tells(t, "riot_id"@, Tree::Str(id))
        }),
        ({
            let t = dump::abandoned_tree(c);
            &&& tells(t, "platform"@, Tree::Str(c.platform))
            &&& tells(t, "game_id"@, json::num(c.game_id as i64))
            &&& tells(t, "tries"@, json::num(c.tries as i64))
            &&& c.riot_id matches Some(id) ==> tells(t, "riot_id"@, Tree::Str(id))
        }),
{
    let m = dump::attempt_tree(a)->Obj_0;
    assert(m[0].0 == "platform"@ && m[1].0 == "game_id"@ && m[2].0 == "try_number"@ && m[3].0
        == "riot_id"@);
    let m = dump::attached_tree(b)->Obj_0;
    assert(m[0].0 == "platform"@ && m[1].0 == "game_id"@ && m[2].0 == "riot_id"@);
    let m = dump::abandoned_tree(c)->Obj_0;
    assert(m[0].0 == "platform"@ && m[1].0 == "game_id"@ && m[2].0 == "tries"@ && m[3].0
        == "riot_id"@);
}

/// Dumped picks tell the perspective, and the Highlight and the Lowlight each
/// under its own name.
pub proof fn lemma_dumped_picks(e: PicksV)
    ensures
        ({
            let t = dump::picks_tree(e);
            &&& tells(t, "platform"@, Tree::Str(e.platform))
            &&& tells(t, "riot_id"@, Tree::Str(e.riot_id))
            &&& tells(t, "puuid"@, Tree::Str(e.puuid))
            &&& tells(t, "highlight"@, dump::pick_tree(e.highlight))
            &&& tells(t, "lowlight"@, dump::pick_tree(e.lowlight))
        }),
{
    let m = dump::picks_tree(e)->Obj_0;
    assert(m[0].0 == "platform"@ && m[2].0 == "riot_id"@ && m[3].0 == "puuid"@);
    assert(m[4].0 == "highlight"@ && m[5].0 == "lowlight"@);
}

} // verus!
