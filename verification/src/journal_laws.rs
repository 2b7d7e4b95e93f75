//! What holds of every journal: identities survive renames and key swaps, a
//! posted game is seen as posted, and what is finished stays finished.

use vstd::prelude::*;

use crate::journal::{Perspective, ProjectionV, ERA_BUDGET};
use crate::kinds::{
    AccountResolved, ClipAttempt, ClipsAbandoned, ClipsAttached, GamePosted, PicksAssigned, PicksV,
    PostedV, RankObserved, RankSeenV,
};
use crate::leaves::Kind;
use crate::storage::{Roots, StorageError};
use crate::{journal, leaves, text};

verus! {

// --- era chains --------------------------------------------------------------

/// Whether every era chain ends within `n` links.
pub open spec fn chains_within(canon: Map<Seq<char>, Seq<char>>, n: nat) -> bool {
    forall|x: Seq<char>| !canon.dom().contains(#[trigger] journal::walk(canon, x, n))
}

proof fn lemma_walk_settles(canon: Map<Seq<char>, Seq<char>>, x: Seq<char>, n: nat, m: nat)
    requires
        n <= m,
        !canon.dom().contains(journal::walk(canon, x, n)),
    ensures
        journal::walk(canon, x, m) == journal::walk(canon, x, n),
    decreases n,
{
    if canon.dom().contains(x) {
        if n > 0 {
            lemma_walk_settles(canon, canon[x], (n - 1) as nat, (m - 1) as nat);
        }
    }
}

/// A walk after root `r` joined root `s`: it ends where it did, or at `s` where
/// it ended at `r`.
proof fn lemma_walk_joined(
    canon: Map<Seq<char>, Seq<char>>,
    r: Seq<char>,
    s: Seq<char>,
    x: Seq<char>,
    n: nat,
)
    requires
        !canon.dom().contains(r),
        !canon.dom().contains(s),
        r != s,
        !canon.dom().contains(journal::walk(canon, x, n)),
    ensures
        journal::walk(canon.insert(r, s), x, n + 1) == (if journal::walk(canon, x, n) == r {
            s
        } else {
            journal::walk(canon, x, n)
        }),
    decreases n,
{
    let joined = canon.insert(r, s);
    if canon.dom().contains(x) {
        if n > 0 {
            lemma_walk_joined(canon, r, s, canon[x], (n - 1) as nat);
        }
    } else if x == r {
        assert(joined.dom().contains(r));
        assert(journal::walk(joined, r, n + 1) == journal::walk(joined, s, n));
        assert(!joined.dom().contains(s));
    } else {
        assert(!joined.dom().contains(x));
    }
}

/// How every PUUID's root moves when a name is pinned: the roots that the pin
/// brings together become one, and no other root moves.
pub proof fn lemma_roots_after_pin(
    p: ProjectionV,
    riot_id: Seq<char>,
    puuid: Seq<char>,
    x: Seq<char>,
    n: nat,
)
    requires
        chains_within(p.canon, n),
        n < ERA_BUDGET,
    ensures
        ({
            let q = p.pinned(riot_id, puuid);
            let lower = text::lowercase(riot_id);
            &&& !q.canon.dom().contains(journal::walk(q.canon, x, n + 1))
            &&& q.root(x) == (if p.pins.dom().contains(lower) && p.root(x) == p.root(puuid) {
                p.root(p.pins[lower])
            } else {
                p.root(x)
            })
        }),
{
    let q = p.pinned(riot_id, puuid);
    let lower = text::lowercase(riot_id);
    let budget = ERA_BUDGET as nat;
    lemma_walk_settles(p.canon, x, n, budget);
    lemma_walk_settles(p.canon, puuid, n, budget);
    if p.pins.dom().contains(lower) {
        lemma_walk_settles(p.canon, p.pins[lower], n, budget);
        let r = p.root(puuid);
        let s = p.root(p.pins[lower]);
        assert(!p.canon.dom().contains(journal::walk(p.canon, puuid, n)));
        assert(!p.canon.dom().contains(journal::walk(p.canon, p.pins[lower], n)));
        assert(!p.canon.dom().contains(journal::walk(p.canon, x, n)));
        if r != s {
            lemma_walk_joined(p.canon, r, s, x, n);
            lemma_walk_settles(q.canon, x, n + 1, budget);
        } else {
            lemma_walk_settles(p.canon, x, n, n + 1);
        }
    } else {
        lemma_walk_settles(p.canon, x, n, n + 1);
        assert(!p.canon.dom().contains(journal::walk(p.canon, x, n)));
    }
}

/// Era chains stay acyclic: a pin lengthens the longest by at most one link.
pub proof fn lemma_pin_keeps_chains_short(
    p: ProjectionV,
    riot_id: Seq<char>,
    puuid: Seq<char>,
    n: nat,
)
    requires
        chains_within(p.canon, n),
        n < ERA_BUDGET,
    ensures
        chains_within(p.pinned(riot_id, puuid).canon, n + 1),
{
    assert forall|x: Seq<char>|
        !p.pinned(riot_id, puuid).canon.dom().contains(
            #[trigger] journal::walk(p.pinned(riot_id, puuid).canon, x, n + 1),
        ) by {
        lemma_roots_after_pin(p, riot_id, puuid, x, n);
    }
}

/// A pin unions the eras: afterwards the new PUUID, the one the name pointed at
/// before, and the name itself are one identity.
pub proof fn lemma_pin_unions_eras(
    p: ProjectionV,
    riot_id: Seq<char>,
    puuid: Seq<char>,
    n: nat,
)
    requires
        chains_within(p.canon, n),
        n < ERA_BUDGET,
    ensures
        ({
            let q = p.pinned(riot_id, puuid);
            let lower = text::lowercase(riot_id);
            &&& q.identity(riot_id) == q.root(puuid)
            &&& p.pins.dom().contains(lower) ==> q.root(puuid) == q.root(p.pins[lower])
                && q.root(puuid) == p.root(p.pins[lower])
        }),
{
    let lower = text::lowercase(riot_id);
    lemma_roots_after_pin(p, riot_id, puuid, puuid, n);
    if p.pins.dom().contains(lower) {
        lemma_roots_after_pin(p, riot_id, puuid, p.pins[lower], n);
    }
}

/// What a pin does to every other name: one that nothing has pinned stays
/// itself, and one that is pinned moves only if its identity was the new
/// PUUID's, to the identity that the pinned name had before.
pub proof fn lemma_pin_and_other_names(
    p: ProjectionV,
    riot_id: Seq<char>,
    puuid: Seq<char>,
    name: Seq<char>,
    n: nat,
)
    requires
        chains_within(p.canon, n),
        n < ERA_BUDGET,
        text::lowercase(name) != text::lowercase(riot_id),
    ensures
        ({
            let q = p.pinned(riot_id, puuid);
            let lower = text::lowercase(riot_id);
            q.identity(name) == (if p.pins.dom().contains(text::lowercase(name))
                && p.pins.dom().contains(lower) && p.identity(name) == p.root(puuid) {
                p.identity(riot_id)
            } else {
                p.identity(name)
            })
        }),
{
    let other = text::lowercase(name);
    if p.pins.dom().contains(other) {
        lemma_roots_after_pin(p, riot_id, puuid, p.pins[other], n);
    }
}

/// PUUIDs that are one identity stay one identity, whatever is pinned.
pub proof fn lemma_pin_keeps_identities(
    p: ProjectionV,
    riot_id: Seq<char>,
    puuid: Seq<char>,
    x: Seq<char>,
    y: Seq<char>,
    n: nat,
)
    requires
        chains_within(p.canon, n),
        n < ERA_BUDGET,
        p.root(x) == p.root(y),
    ensures
        p.pinned(riot_id, puuid).root(x) == p.pinned(riot_id, puuid).root(y),
{
    lemma_roots_after_pin(p, riot_id, puuid, x, n);
    lemma_roots_after_pin(p, riot_id, puuid, y, n);
}

// --- the pin pass ------------------------------------------------------------

/// Whether no era chain outgrows the budget while the pins are collected.
pub open spec fn shallow(rows: Seq<(Seq<char>, Seq<u8>)>, roots: Roots) -> bool {
    forall|k: nat|
        k <= rows.len() ==> match #[trigger] journal::pins_pass(rows, k, roots) {
            Ok(p) => chains_within(p.canon, (ERA_BUDGET - 1) as nat),
            Err(_) => true,
        }
}

proof fn lemma_chains_grow_slowly(rows: Seq<(Seq<char>, Seq<u8>)>, k: nat, roots: Roots)
    requires
        k < ERA_BUDGET,
    ensures
        match journal::pins_pass(rows, k, roots) {
            Ok(p) => chains_within(p.canon, k),
            Err(_) => true,
        },
    decreases k,
{
    if k > 0 {
        lemma_chains_grow_slowly(rows, (k - 1) as nat, roots);
        if let Ok(p) = journal::pins_pass(rows, (k - 1) as nat, roots) {
            if let Ok(Some((riot_id, puuid))) = journal::pin_of(rows[k - 1].0, rows[k - 1].1, roots) {
                lemma_pin_keeps_chains_short(p, riot_id, puuid, (k - 1) as nat);
            } else {
                assert forall|x: Seq<char>|
                    !p.canon.dom().contains(#[trigger] journal::walk(p.canon, x, k)) by {
                    assert(!p.canon.dom().contains(journal::walk(p.canon, x, (k - 1) as nat)));
                    lemma_walk_settles(p.canon, x, (k - 1) as nat, k);
                }
            }
        }
    }
}

/// A journal of fewer rows than the era budget is always shallow.
pub proof fn lemma_short_journals_are_shallow(rows: Seq<(Seq<char>, Seq<u8>)>, roots: Roots)
    requires
        rows.len() < ERA_BUDGET,
    ensures
        shallow(rows, roots),
{
    assert forall|k: nat| k <= rows.len() implies match #[trigger] journal::pins_pass(
        rows,
        k,
        roots,
    ) {
        Ok(p) => chains_within(p.canon, (ERA_BUDGET - 1) as nat),
        Err(_) => true,
    } by {
        lemma_chains_grow_slowly(rows, k, roots);
        if let Ok(p) = journal::pins_pass(rows, k, roots) {
            assert forall|x: Seq<char>|
                !p.canon.dom().contains(
                    #[trigger] journal::walk(p.canon, x, (ERA_BUDGET - 1) as nat),
                ) by {
                assert(!p.canon.dom().contains(journal::walk(p.canon, x, k)));
                lemma_walk_settles(p.canon, x, k, (ERA_BUDGET - 1) as nat);
            }
        }
    }
}

/// Whether `p` keeps the promise of a pin: the name resolves to the PUUID's
/// identity.
pub open spec fn keeps_pin(p: ProjectionV, riot_id: Seq<char>, puuid: Seq<char>) -> bool {
    p.pins.dom().contains(text::lowercase(riot_id)) && p.identity(riot_id) == p.root(puuid)
}

/// Every pin that a shallow journal ever recorded still holds at its end,
/// whatever was pinned later: a name stays with every PUUID it was pinned to.
pub proof fn lemma_pins_hold(rows: Seq<(Seq<char>, Seq<u8>)>, n: nat, i: int, roots: Roots)
    requires
        shallow(rows, roots),
        0 <= i < n <= rows.len(),
    ensures
        match (
            journal::pins_pass(rows, n, roots),
            journal::pin_of(rows[i].0, rows[i].1, roots),
        ) {
            (Ok(p), Ok(Some((riot_id, puuid)))) => keeps_pin(p, riot_id, puuid),
            _ => true,
        },
    decreases n,
{
    let links = (ERA_BUDGET - 1) as nat;
    let m = (n - 1) as nat;
    if let (Ok(q), Ok(Some((riot_id, puuid)))) = (
        journal::pins_pass(rows, n, roots),
        journal::pin_of(rows[i].0, rows[i].1, roots),
    ) {
        let p = journal::pins_pass(rows, m, roots)->Ok_0;
        assert(journal::pins_pass(rows, m, roots) is Ok);
        assert(chains_within(p.canon, links));
        if i < m {
            lemma_pins_hold(rows, m, i, roots);
            if let Ok(Some((name, id))) = journal::pin_of(rows[m as int].0, rows[m as int].1, roots) {
                let lower = text::lowercase(riot_id);
                lemma_roots_after_pin(p, name, id, puuid, links);
                lemma_roots_after_pin(p, name, id, p.pins[lower], links);
                if text::lowercase(name) == lower {
                    lemma_roots_after_pin(p, name, id, id, links);
                }
            }
        } else {
            lemma_pin_unions_eras(p, riot_id, puuid, links);
        }
    }
}

// --- the event pass ----------------------------------------------------------

/// Whether everything but the pins and eras may differ.
pub open spec fn same_identities(p: ProjectionV, q: ProjectionV) -> bool {
    p.pins == q.pins && p.canon == q.canon
}

/// What a step of the event pass keeps: identities, everything posted, every
/// finished job as it is, and every floor or a higher one.
pub open spec fn carried_on(p: ProjectionV, q: ProjectionV) -> bool {
    &&& same_identities(p, q)
    &&& p.posted.subset_of(q.posted)
    &&& forall|k: Perspective|
        #![trigger q.clips.dom().contains(k)]
        #![trigger p.clips.dom().contains(k)]
        p.clips.dom().contains(k) ==> q.clips.dom().contains(k) && p.clips[k].tries
            <= q.clips[k].tries && (p.clips[k].done ==> q.clips[k].done && q.clips[k].riot_id
            == p.clips[k].riot_id)
    &&& forall|f: (Seq<char>, u32)|
        #![trigger q.newest.dom().contains(f)]
        #![trigger p.newest.dom().contains(f)]
        p.newest.dom().contains(f) ==> q.newest.dom().contains(f) && p.newest[f].1
            <= q.newest[f].1
}

/// One row keeps what it must.
pub proof fn lemma_row_carries_on(p: ProjectionV, kind: Seq<char>, payload: Seq<u8>, roots: Roots)
    ensures
        match journal::applied(p, kind, payload, roots) {
            Ok(q) => carried_on(p, q),
            Err(_) => true,
        },
{
    reveal(journal::applied);
}

/// The event pass never forgets: identities do not move, what is posted stays
/// posted, a finished job stays finished (a re-post never resurrects it), tries
/// are never lost, and no floor sinks.
pub proof fn lemma_events_carry_on(
    start: ProjectionV,
    rows: Seq<(Seq<char>, Seq<u8>)>,
    k: nat,
    n: nat,
    roots: Roots,
)
    requires
        k <= n,
    ensures
        match (
            journal::events_pass(start, rows, k, roots),
            journal::events_pass(start, rows, n, roots),
        ) {
            (Ok(p), Ok(q)) => carried_on(p, q),
            _ => true,
        },
    decreases n - k,
{
    if k < n {
        let m = (n - 1) as nat;
        lemma_events_carry_on(start, rows, k, m, roots);
        if let Ok(q) = journal::events_pass(start, rows, m, roots) {
            lemma_row_carries_on(q, rows[m as int].0, rows[m as int].1, roots);
        }
    }
}

/// What a row that tells of a post does: it pins the player's name, where it
/// has a PUUID, and posts the game.
proof fn lemma_post_row(p: ProjectionV, payload: Seq<u8>, roots: Roots, e: PostedV)
    requires
        leaves::decoded::<GamePosted>(payload, roots) == Ok::<PostedV, StorageError>(e),
    ensures
        journal::applied(p, GamePosted::kind_name(), payload, roots) == Ok::<
            ProjectionV,
            StorageError,
        >(p.after_posted(e)),
        e.puuid matches Some(puuid) ==> journal::pin_of(GamePosted::kind_name(), payload, roots)
            == Ok::<Option<(Seq<char>, Seq<char>)>, StorageError>(Some((e.riot_id, puuid))),
{
    reveal(journal::applied);
    reveal(journal::pin_of);
    reveal_strlit("scry.journal.game_posted");
    reveal_strlit("scry.journal.account_resolved");
    assert("scry.journal.game_posted"@.len() != "scry.journal.account_resolved"@.len());
}

/// What a row of an unknown kind does: nothing.
proof fn lemma_unknown_row(p: ProjectionV, kind: Seq<char>, payload: Seq<u8>, roots: Roots)
    requires
        kind != AccountResolved::kind_name(),
        kind != GamePosted::kind_name(),
        kind != PicksAssigned::kind_name(),
        kind != RankObserved::kind_name(),
        kind != ClipAttempt::kind_name(),
        kind != ClipsAttached::kind_name(),
        kind != ClipsAbandoned::kind_name(),
    ensures
        journal::applied(p, kind, payload, roots) == Ok::<ProjectionV, StorageError>(p),
        journal::pin_of(kind, payload, roots) == Ok::<
            Option<(Seq<char>, Seq<char>)>,
            StorageError,
        >(None),
{
    reveal(journal::applied);
    reveal(journal::pin_of);
}

/// A game that was posted for a player is seen as posted for that player, in
/// the whole journal's state: under the name it was posted with, whatever was
/// renamed or re-keyed since.
pub proof fn lemma_posted_is_seen(
    rows: Seq<(Seq<char>, Seq<u8>)>,
    roots: Roots,
    i: int,
    e: PostedV,
)
    requires
        shallow(rows, roots),
        0 <= i < rows.len(),
        rows[i].0 == GamePosted::kind_name(),
        leaves::decoded::<GamePosted>(rows[i].1, roots) == Ok::<PostedV, StorageError>(e),
    ensures
        match journal::folded(rows, roots) {
            Ok(p) => p.posted.contains((e.platform, e.game_id, p.identity(e.riot_id))),
            Err(_) => true,
        },
{
    let n = rows.len();
    if let Ok(end) = journal::folded(rows, roots) {
        let start = journal::pins_pass(rows, n, roots)->Ok_0;
        lemma_events_reach(start, rows, i as nat, n, roots);
        lemma_events_reach(start, rows, (i + 1) as nat, n, roots);
        lemma_events_carry_on(start, rows, 0, i as nat, roots);
        lemma_events_carry_on(start, rows, (i + 1) as nat, n, roots);
        let before = journal::events_pass(start, rows, i as nat, roots)->Ok_0;
        let after = journal::events_pass(start, rows, (i + 1) as nat, roots)->Ok_0;
        lemma_post_row(before, rows[i].1, roots, e);
        assert(after == before.after_posted(e));
        assert(after.posted.contains((e.platform, e.game_id, before.poster(e))));
        if e.puuid is Some {
            lemma_pins_hold(rows, n, i, roots);
        }
        assert(before.poster(e) == end.identity(e.riot_id));
    }
}

proof fn lemma_events_reach(
    start: ProjectionV,
    rows: Seq<(Seq<char>, Seq<u8>)>,
    k: nat,
    n: nat,
    roots: Roots,
)
    requires
        k <= n,
        journal::events_pass(start, rows, n, roots) is Ok,
    ensures
        journal::events_pass(start, rows, k, roots) is Ok,
    decreases n - k,
{
    if k < n {
        lemma_events_reach(start, rows, k, (n - 1) as nat, roots);
    }
}

/// A rename keeps everything: two names that were ever pinned to one PUUID are
/// one identity, so either sees the other's posts, floors and picks.
pub proof fn lemma_rename_keeps_identity(
    rows: Seq<(Seq<char>, Seq<u8>)>,
    roots: Roots,
    i: int,
    j: int,
    old_name: Seq<char>,
    new_name: Seq<char>,
    puuid: Seq<char>,
)
    requires
        shallow(rows, roots),
        0 <= i < rows.len(),
        0 <= j < rows.len(),
        journal::pin_of(rows[i].0, rows[i].1, roots) == Ok::<
            Option<(Seq<char>, Seq<char>)>,
            StorageError,
        >(Some((old_name, puuid))),
        journal::pin_of(rows[j].0, rows[j].1, roots) == Ok::<
            Option<(Seq<char>, Seq<char>)>,
            StorageError,
        >(Some((new_name, puuid))),
    ensures
        match journal::folded(rows, roots) {
            Ok(p) => p.identity(old_name) == p.identity(new_name),
            Err(_) => true,
        },
{
    let n = rows.len();
    lemma_pins_hold(rows, n, i, roots);
    lemma_pins_hold(rows, n, j, roots);
    if let Ok(start) = journal::pins_pass(rows, n, roots) {
        lemma_events_carry_on(start, rows, 0, n, roots);
    }
}

/// A key swap keeps everything: two PUUIDs that one name was ever pinned to are
/// one identity, so the LP baseline of either is the other's.
pub proof fn lemma_key_swap_keeps_identity(
    rows: Seq<(Seq<char>, Seq<u8>)>,
    roots: Roots,
    i: int,
    j: int,
    name: Seq<char>,
    old_puuid: Seq<char>,
    new_puuid: Seq<char>,
    queue_id: u32,
)
    requires
        shallow(rows, roots),
        0 <= i < rows.len(),
        0 <= j < rows.len(),
        journal::pin_of(rows[i].0, rows[i].1, roots) == Ok::<
            Option<(Seq<char>, Seq<char>)>,
            StorageError,
        >(Some((name, old_puuid))),
        journal::pin_of(rows[j].0, rows[j].1, roots) == Ok::<
            Option<(Seq<char>, Seq<char>)>,
            StorageError,
        >(Some((name, new_puuid))),
    ensures
        match journal::folded(rows, roots) {
            Ok(p) => p.root(old_puuid) == p.root(new_puuid) && p.baseline(old_puuid, queue_id)
                == p.baseline(new_puuid, queue_id),
            Err(_) => true,
        },
{
    let n = rows.len();
    lemma_pins_hold(rows, n, i, roots);
    lemma_pins_hold(rows, n, j, roots);
    if let Ok(start) = journal::pins_pass(rows, n, roots) {
        lemma_events_carry_on(start, rows, 0, n, roots);
    }
}

/// Names that differ only in case are one player.
pub proof fn lemma_names_ignore_case(p: ProjectionV, a: Seq<char>, b: Seq<char>)
    requires
        text::lowercase(a) == text::lowercase(b),
    ensures
        p.identity(a) == p.identity(b),
{
}

/// A row whose kind is not known changes nothing, wherever it stands in the
/// journal.
pub proof fn lemma_unknown_kinds_are_skipped(
    rows: Seq<(Seq<char>, Seq<u8>)>,
    at: int,
    kind: Seq<char>,
    payload: Seq<u8>,
    roots: Roots,
)
    requires
        0 <= at <= rows.len(),
        kind != AccountResolved::kind_name(),
        kind != GamePosted::kind_name(),
        kind != PicksAssigned::kind_name(),
        kind != RankObserved::kind_name(),
        kind != ClipAttempt::kind_name(),
        kind != ClipsAttached::kind_name(),
        kind != ClipsAbandoned::kind_name(),
    ensures
        journal::folded(rows.insert(at, (kind, payload)), roots) == journal::folded(rows, roots),
{
    let n = rows.len();
    lemma_pins_skip(rows, at, kind, payload, n, roots);
    if let Ok(start) = journal::pins_pass(rows, n, roots) {
        lemma_events_skip(start, rows, at, kind, payload, n, roots);
    }
}

proof fn lemma_pins_skip(
    rows: Seq<(Seq<char>, Seq<u8>)>,
    at: int,
    kind: Seq<char>,
    payload: Seq<u8>,
    n: nat,
    roots: Roots,
)
    requires
        0 <= at <= rows.len(),
        n <= rows.len(),
        kind != AccountResolved::kind_name(),
        kind != GamePosted::kind_name(),
        kind != PicksAssigned::kind_name(),
        kind != RankObserved::kind_name(),
        kind != ClipAttempt::kind_name(),
        kind != ClipsAttached::kind_name(),
        kind != ClipsAbandoned::kind_name(),
    ensures
        journal::pins_pass(
            rows.insert(at, (kind, payload)),
            if n < at {
                n
            } else {
                n + 1
            },
            roots,
        ) == journal::pins_pass(rows, n, roots),
    decreases n,
{
    let longer = rows.insert(at, (kind, payload));
    if n > 0 {
        lemma_pins_skip(rows, at, kind, payload, (n - 1) as nat, roots);
        assert(longer[if n <= at {
            n - 1
        } else {
            n as int
        }] == rows[n - 1]);
    }
    if n == at {
        lemma_unknown_row(journal::nothing(), kind, payload, roots);
        assert(longer[n as int] == (kind, payload));
        assert(journal::pins_pass(longer, n, roots) == journal::pins_pass(rows, n, roots));
    }
}

proof fn lemma_events_skip(
    start: ProjectionV,
    rows: Seq<(Seq<char>, Seq<u8>)>,
    at: int,
    kind: Seq<char>,
    payload: Seq<u8>,
    n: nat,
    roots: Roots,
)
    requires
        0 <= at <= rows.len(),
        n <= rows.len(),
        kind != AccountResolved::kind_name(),
        kind != GamePosted::kind_name(),
        kind != PicksAssigned::kind_name(),
        kind != RankObserved::kind_name(),
        kind != ClipAttempt::kind_name(),
        kind != ClipsAttached::kind_name(),
        kind != ClipsAbandoned::kind_name(),
    ensures
        journal::events_pass(
            start,
            rows.insert(at, (kind, payload)),
            if n < at {
                n
            } else {
                n + 1
            },
            roots,
        ) == journal::events_pass(start, rows, n, roots),
    decreases n,
{
    let longer = rows.insert(at, (kind, payload));
    if n > 0 {
        lemma_events_skip(start, rows, at, kind, payload, (n - 1) as nat, roots);
        assert(longer[if n <= at {
            n - 1
        } else {
            n as int
        }] == rows[n - 1]);
    }
    if n == at {
        assert(longer[n as int] == (kind, payload));
        assert(journal::events_pass(start, longer, n, roots) == journal::events_pass(
            start,
            rows,
            n,
            roots,
        ));
        if let Ok(here) = journal::events_pass(start, rows, n, roots) {
            lemma_unknown_row(here, kind, payload, roots);
        }
    }
}

/// The last observation of an identity in a queue is the next delta's baseline,
/// under any of its PUUIDs.
pub proof fn lemma_observation_is_the_baseline(p: ProjectionV, e: RankSeenV, puuid: Seq<char>)
    requires
        p.root(puuid) == p.root(e.puuid),
    ensures
        p.after_rank(e).baseline(puuid, e.queue_id) == Some(e.ladder_value),
{
}

/// What a post records is what its edit reads: the message to edit, and the LP
/// line to reproduce, under any name of the player.
pub proof fn lemma_post_is_remembered(p: ProjectionV, e: PostedV, name: Seq<char>)
    requires
        p.identity(name) == p.poster(e),
    ensures
        ({
            let q = p.after_posted(e);
            let key = (e.platform, e.game_id, q.identity(name));
            &&& q.posted.contains(key)
            &&& e.message_id.len() > 0 ==> q.message_ids.dom().contains(key) && q.message_ids[key]
                == e.message_id
            &&& e.rank matches Some(rank) ==> q.rank_lines.dom().contains(key)
                && q.rank_lines[key] == rank
        }),
{
}

/// The last picks written for a perspective are the ones that are read.
pub proof fn lemma_last_picks_win(p: ProjectionV, first: PicksV, second: PicksV)
    requires
        first.platform == second.platform,
        first.game_id == second.game_id,
        p.root(first.puuid) == p.root(second.puuid),
    ensures
        p.after_picks(first).after_picks(second).picks == p.after_picks(second).picks,
        p.after_picks(first).after_picks(second).picks[(
            second.platform,
            second.game_id,
            p.root(second.puuid),
        )] == second,
{
    assert(p.after_picks(first).after_picks(second).picks =~= p.after_picks(second).picks);
}

} // verus!
