//! What is kept of a match for offline analysis:
//!   - `match.json`: the full match-v5 detail, pretty-printed
//!   - `timeline-events.jsonl`: every timeline event, one per line
//!   - `timeline-frames.jsonl`: one per-minute frame per line, slimmed to the
//!     per-player economy/position (the heavy champion/damage stat blocks
//!     dropped)

use vstd::prelude::*;

use crate::json::{Layer, Made, Tree};
use crate::seqs::{sort, Order};
use crate::text::same;
use crate::{json, seqs, text, timeline};

verus! {

/// The files of one archived match.
#[derive(Debug)]
pub struct Files {
    pub match_json: String,
    pub events_jsonl: String,
    pub frames_jsonl: String,
}

// --- trees -----------------------------------------------------------------------

/// The member called `key`, null without one.
pub open spec fn or_null(t: Tree, key: Seq<char>) -> Tree {
    match t.get(key) {
        Some(x) => x,
        None => Tree::Null,
    }
}

/// The economy/position signal of a participant frame.
pub open spec fn slim_tree(pf: Tree) -> Tree {
    Tree::Obj(
        seq![
            ("jungleMinionsKilled"@, or_null(pf, "jungleMinionsKilled"@)),
            ("level"@, or_null(pf, "level"@)),
            ("minionsKilled"@, or_null(pf, "minionsKilled"@)),
            ("participantId"@, or_null(pf, "participantId"@)),
            ("position"@, or_null(pf, "position"@)),
            ("totalGold"@, or_null(pf, "totalGold"@)),
            ("xp"@, or_null(pf, "xp"@)),
        ],
    )
}

/// The order of slim frames: by participant id, 0 for one without.
pub open spec fn by_participant() -> spec_fn(Tree, Tree) -> bool {
    |a: Tree, b: Tree| a.int_or_zero("participantId"@) < b.int_or_zero("participantId"@)
}

/// The slim frames of some participant frames.
pub open spec fn slim_all(m: Seq<(Seq<char>, Tree)>) -> Seq<Tree> {
    m.map_values(|e: (Seq<char>, Tree)| slim_tree(e.1))
}

/// The slim participant frames of a frame, by participant id.
pub open spec fn players_of(frame: Tree) -> Seq<Tree> {
    match frame.get("participantFrames"@) {
        Some(Tree::Obj(m)) => seqs::sorted_by(slim_all(m), by_participant()),
        _ => seq![],
    }
}

/// A slim frame.
pub open spec fn frame_tree(frame: Tree) -> Tree {
    Tree::Obj(
        seq![
            ("participants"@, Tree::Arr(players_of(frame))),
            ("timestamp"@, or_null(frame, "timestamp"@)),
        ],
    )
}

/// The frames of a timeline.
pub open spec fn frames_of(timeline: Tree) -> Seq<Tree> {
    match timeline.get("info"@) {
        Some(info) => info.items_at("frames"@),
        None => seq![],
    }
}

/// Trees one to a line.
pub open spec fn line_by_line(items: Seq<Tree>) -> Seq<char>
    decreases items.len(),
{
    if items.len() == 0 {
        seq![]
    } else {
        line_by_line(items.drop_last()) + json::written(items.last()) + "\n"@
    }
}

/// Whether the line that a tree is written as reads back.
pub open spec fn reads_back(t: Tree) -> bool {
    json::is_line_of(json::written(t), t)
}

/// Whether each of some trees is written as a line that reads back.
pub open spec fn all_read_back(items: Seq<Tree>) -> bool {
    forall|i: int| 0 <= i < items.len() ==> reads_back(#[trigger] items[i])
}

/// Whether the reader takes each of some trees as it was.
pub open spec fn all_plain(items: Seq<Tree>) -> bool {
    forall|i: int| 0 <= i < items.len() ==> json::plain(
        #[trigger] items[i],
        json::DEPTH_LIMIT as nat,
    )
}

/// The events of some frames, in order.
pub open spec fn events_of(frames: Seq<Tree>) -> Seq<Tree>
    decreases frames.len(),
{
    if frames.len() == 0 {
        seq![]
    } else {
        events_of(frames.drop_last()) + frames.last().items_at("events"@)
    }
}

/// The slim frames of some frames, in order.
pub open spec fn slim_frames(frames: Seq<Tree>) -> Seq<Tree> {
    frames.map_values(|f: Tree| frame_tree(f))
}

// --- taking values apart -----------------------------------------------------------

proof fn lemma_take_keeps_others(m: Seq<(Seq<char>, Tree)>, i: int, other: Seq<char>)
    requires
        0 <= i < m.len(),
        m[i].0 != other,
    ensures
        Tree::Obj(m.remove(i)).get(other) == Tree::Obj(m).get(other),
{
    let n = m.remove(i);
    let q = json::called(other);
    seqs::lemma_first_is(m, q);
    seqs::lemma_first_is(n, q);
    if let Some(k) = seqs::first_where(m, q) {
        if k < i {
            assert(n[k] == m[k]);
            assert forall|j: int| 0 <= j < k implies n[j] == m[j] by {}
        } else {
            assert(k != i);
            assert(n[k - 1] == m[k]);
        }
    }
    if let Some(k) = seqs::first_where(n, q) {
        if k < i {
            assert(n[k] == m[k]);
        } else {
            assert(n[k] == m[k + 1]);
            assert forall|j: int| 0 <= j < k + 1 && j != i implies !q(#[trigger] m[j]) by {
                if j < i {
                    assert(n[j] == m[j]);
                } else {
                    assert(n[j - 1] == m[j]);
                }
            }
        }
    }
}

/// The members that a value has; none for a value that is no object.
fn members_in(v: serde_json::Value) -> (m: Vec<(String, serde_json::Value)>)
    ensures
        forall|key: Seq<char>| #[trigger]
            Tree::Obj(json::value_members(m@)).get(key) == json::value_tree(v).get(key),
        match json::value_tree(v) {
            Tree::Obj(all) => json::value_members(m@) == all,
            _ => m@.len() == 0,
        },
{
    match json::peel(v) {
        Layer::Obj(m) => m,
        _ => {
            let m: Vec<(String, serde_json::Value)> = Vec::new();
            proof {
                assert forall|key: Seq<char>|
                    #[trigger] Tree::Obj(json::value_members(m@)).get(key) is None by {
                    assert(json::value_members(m@) =~= seq![]);
                }
            }
            m
        },
    }
}

/// The items that a value has; none for a value that is no array.
fn items_in(v: serde_json::Value) -> (a: Vec<serde_json::Value>)
    ensures
        json::value_trees(a@) == (match json::value_tree(v) {
            Tree::Arr(items) => items,
            _ => seq![],
        }),
{
    match json::peel(v) {
        Layer::Arr(a) => a,
        _ => {
            let a: Vec<serde_json::Value> = Vec::new();
            proof {
                assert(json::value_trees(a@) =~= seq![]);
            }
            a
        },
    }
}

/// Takes the member called `key` out; the members of other names stay.
fn take(m: &mut Vec<(String, serde_json::Value)>, key: &str) -> (r: Option<serde_json::Value>)
    ensures
        match r {
            Some(v) => Tree::Obj(json::value_members(old(m)@)).get(key@) == Some(
                json::value_tree(v),
            ),
            None => Tree::Obj(json::value_members(old(m)@)).get(key@) is None,
        },
        forall|other: Seq<char>|
            other != key@ ==> #[trigger] Tree::Obj(json::value_members(final(m)@)).get(other)
                == Tree::Obj(json::value_members(old(m)@)).get(other),
{
    let ghost all = json::value_members(m@);
    let ghost p = json::called(key@);
    let mut at: usize = 0;
    while at < m.len()
        invariant
            at <= m@.len(),
            all == json::value_members(m@),
            p == json::called(key@),
            seqs::first_where(all.take(at as int), p) is None,
            m@ == old(m)@,
        decreases m@.len() - at,
    {
        proof {
            assert(all.take(at + 1).drop_last() =~= all.take(at as int));
            assert(all.take(at + 1).last() == (m@[at as int].0@, json::value_tree(
                m@[at as int].1,
            )));
        }
        if same(m[at].0.as_str(), key) {
            proof {
                seqs::lemma_first_extends(all, p, at + 1);
            }
            let e: (String, serde_json::Value) = m.remove(at);
            proof {
                assert(json::value_members(m@) =~= all.remove(at as int));
                assert forall|other: Seq<char>| other != key@ implies #[trigger] Tree::Obj(
                    json::value_members(m@),
                ).get(other) == Tree::Obj(all).get(other) by {
                    lemma_take_keeps_others(all, at as int, other);
                }
            }
            return Some(e.1);
        }
        at = at + 1;
    }
    proof {
        assert(all.take(all.len() as int) =~= all);
    }
    None
}

fn take_or_null(m: &mut Vec<(String, serde_json::Value)>, key: &str) -> (r: serde_json::Value)
    ensures
        json::value_tree(r) == or_null(Tree::Obj(json::value_members(old(m)@)), key@),
        forall|other: Seq<char>|
            other != key@ ==> #[trigger] Tree::Obj(json::value_members(final(m)@)).get(other)
                == Tree::Obj(json::value_members(old(m)@)).get(other),
{
    match take(m, key) {
        Some(v) => v,
        None => json::make(Made::Null),
    }
}

// --- slim frames -------------------------------------------------------------------

proof fn lemma_slim_keys(m: Seq<(Seq<char>, Tree)>)
    requires
        m.len() == 7,
        m[0].0 == "jungleMinionsKilled"@,
        m[1].0 == "level"@,
        m[2].0 == "minionsKilled"@,
        m[3].0 == "participantId"@,
        m[4].0 == "position"@,
        m[5].0 == "totalGold"@,
        m[6].0 == "xp"@,
    ensures
        json::in_key_order(m),
        "jungleMinionsKilled"@ != "level"@,
        "jungleMinionsKilled"@ != "minionsKilled"@,
        "jungleMinionsKilled"@ != "participantId"@,
        "jungleMinionsKilled"@ != "position"@,
        "jungleMinionsKilled"@ != "totalGold"@,
        "jungleMinionsKilled"@ != "xp"@,
        "level"@ != "minionsKilled"@,
        "level"@ != "participantId"@,
        "level"@ != "position"@,
        "level"@ != "totalGold"@,
        "level"@ != "xp"@,
        "minionsKilled"@ != "participantId"@,
        "minionsKilled"@ != "position"@,
        "minionsKilled"@ != "totalGold"@,
        "minionsKilled"@ != "xp"@,
        "participantId"@ != "position"@,
        "participantId"@ != "totalGold"@,
        "participantId"@ != "xp"@,
        "position"@ != "totalGold"@,
        "position"@ != "xp"@,
        "totalGold"@ != "xp"@,
{
    reveal_strlit("jungleMinionsKilled");
    reveal_strlit("level");
    reveal_strlit("minionsKilled");
    reveal_strlit("participantId");
    reveal_strlit("position");
    reveal_strlit("totalGold");
    reveal_strlit("xp");
    assert("jungleMinionsKilled"@[0] == 'j');
    assert("level"@[0] == 'l');
    assert("minionsKilled"@[0] == 'm');
    assert("participantId"@[0] == 'p' && "participantId"@[1] == 'a');
    assert("position"@[0] == 'p' && "position"@[1] == 'o');
    assert("totalGold"@[0] == 't');
    assert("xp"@[0] == 'x');
    assert(text::comes_before("participantId"@, "position"@)) by {
        reveal_with_fuel(text::comes_before, 2);
        assert("participantId"@.skip(1)[0] == 'a');
        assert("position"@.skip(1)[0] == 'o');
    }
}

/// Keep only the economy/position signal from a participant frame.
pub fn slim_frame(pf: serde_json::Value) -> (r: serde_json::Value)
    ensures
        json::value_tree(r) == slim_tree(json::value_tree(pf)),
{
    let mut m: Vec<(String, serde_json::Value)> = members_in(pf);
    proof {
        lemma_slim_keys(
            seq![
                ("jungleMinionsKilled"@, Tree::Null),
                ("level"@, Tree::Null),
                ("minionsKilled"@, Tree::Null),
                ("participantId"@, Tree::Null),
                ("position"@, Tree::Null),
                ("totalGold"@, Tree::Null),
                ("xp"@, Tree::Null),
            ],
        );
    }
    let jungle: serde_json::Value = take_or_null(&mut m, "jungleMinionsKilled");
    let level: serde_json::Value = take_or_null(&mut m, "level");
    let minions: serde_json::Value = take_or_null(&mut m, "minionsKilled");
    let id: serde_json::Value = take_or_null(&mut m, "participantId");
    let position: serde_json::Value = take_or_null(&mut m, "position");
    let gold: serde_json::Value = take_or_null(&mut m, "totalGold");
    let xp: serde_json::Value = take_or_null(&mut m, "xp");
    let mut out: Vec<(String, serde_json::Value)> = Vec::new();
    out.push(("jungleMinionsKilled".to_string(), jungle));
    out.push(("level".to_string(), level));
    out.push(("minionsKilled".to_string(), minions));
    out.push(("participantId".to_string(), id));
    out.push(("position".to_string(), position));
    out.push(("totalGold".to_string(), gold));
    out.push(("xp".to_string(), xp));
    proof {
        lemma_slim_keys(json::value_members(out@));
        assert(Tree::Obj(json::value_members(out@)) == slim_tree(json::value_tree(pf))) by {
            assert(json::value_members(out@) =~= slim_tree(json::value_tree(pf))->Obj_0);
        }
    }
    json::make(Made::Obj(out))
}

/// The order of slim frames, on values.
pub struct ByParticipant;

fn participant_of(v: &serde_json::Value) -> (r: i64)
    ensures
        r == json::value_tree(*v).int_or_zero("participantId"@),
{
    match json::member(v, "participantId") {
        Some(id) => match json::integer(id) {
            Some(n) => n,
            None => 0,
        },
        None => 0,
    }
}

impl Order<serde_json::Value> for ByParticipant {
    open spec fn lt(a: serde_json::Value, b: serde_json::Value) -> bool {
        by_participant()(json::value_tree(a), json::value_tree(b))
    }

    fn before(a: &serde_json::Value, b: &serde_json::Value) -> (r: bool) {
        participant_of(a) < participant_of(b)
    }
}

fn slim_players(frames: Vec<(String, serde_json::Value)>) -> (r: Vec<serde_json::Value>)
    ensures
        json::value_trees(r@) == seqs::sorted_by(
            slim_all(json::value_members(frames@)),
            by_participant(),
        ),
{
    let ghost all = json::value_members(frames@);
    let ghost want = slim_all(all);
    let mut rest: Vec<(String, serde_json::Value)> = frames;
    let ghost items = rest@;
    let mut out: Vec<serde_json::Value> = Vec::new();
    while rest.len() > 0
        invariant
            rest@.len() + out@.len() == items.len(),
            rest@ == items.skip(out@.len() as int),
            all == json::value_members(items),
            want == slim_all(all),
            json::value_trees(out@) =~= want.take(out@.len() as int),
        decreases rest@.len(),
    {
        let e: (String, serde_json::Value) = rest.remove(0);
        let ghost k = out@.len() as int;
        let ghost done = out@;
        out.push(slim_frame(e.1));
        proof {
            assert(json::value_trees(out@) =~= json::value_trees(done).push(want[k]));
        }
    }
    proof {
        assert(want.take(want.len() as int) =~= want);
        let f = |x: serde_json::Value| json::value_tree(x);
        let lta = |a: serde_json::Value, b: serde_json::Value| ByParticipant::lt(a, b);
        assert(forall|a: serde_json::Value, b: serde_json::Value| #[trigger]
            lta(a, b) == by_participant()(f(a), f(b)));
        seqs::lemma_sorted_map(out@, f, lta, by_participant());
    }
    sort::<serde_json::Value, ByParticipant>(out)
}

// --- lines -------------------------------------------------------------------------

fn push_line(out: &mut String, v: &serde_json::Value)
    ensures
        final(out)@ == old(out)@ + json::written(json::value_tree(*v)) + "\n"@,
        reads_back(json::value_tree(*v)),
{
    let line: String = json::write(v);
    let so_far: String = out.clone();
    *out = so_far.concat(line.as_str()).concat("\n");
}

proof fn lemma_lines_join(a: Seq<Tree>, b: Seq<Tree>)
    ensures
        line_by_line(a + b) == line_by_line(a) + line_by_line(b),
    decreases b.len(),
{
    if b.len() == 0 {
        assert(a + b =~= a);
        assert(line_by_line(a) + line_by_line(b) =~= line_by_line(a));
    } else {
        lemma_lines_join(a, b.drop_last());
        assert((a + b).drop_last() =~= a + b.drop_last());
        assert(line_by_line(a) + line_by_line(b) =~= line_by_line(a) + line_by_line(b.drop_last())
            + json::written(b.last()) + "\n"@);
    }
}

fn push_events(out: &mut String, events: Vec<serde_json::Value>)
    ensures
        final(out)@ == old(out)@ + line_by_line(json::value_trees(events@)),
        all_read_back(json::value_trees(events@)),
{
    let ghost before = out@;
    let ghost all = json::value_trees(events@);
    proof {
        assert(before + line_by_line(all.take(0)) =~= before);
    }
    for i in 0..events.len()
        invariant
            all == json::value_trees(events@),
            out@ == before + line_by_line(all.take(i as int)),
            forall|j: int| 0 <= j < i ==> reads_back(#[trigger] all[j]),
    {
        proof {
            assert(all.take(i + 1).drop_last() =~= all.take(i as int));
            assert(all.take(i + 1).last() == json::value_tree(events@[i as int]));
        }
        push_line(out, &events[i]);
        proof {
            assert(out@ =~= before + line_by_line(all.take(i + 1)));
        }
    }
    proof {
        assert(all.take(all.len() as int) =~= all);
    }
}

proof fn lemma_line_keys(m: Seq<(Seq<char>, Tree)>)
    requires
        m.len() == 2,
        m[0].0 == "participants"@,
        m[1].0 == "timestamp"@,
    ensures
        json::in_key_order(m),
{
    reveal_strlit("participants");
    reveal_strlit("timestamp");
    assert("participants"@[0] == 'p');
    assert("timestamp"@[0] == 't');
}

proof fn lemma_frame_keys()
    ensures
        "events"@ != "participantFrames"@,
        "events"@ != "timestamp"@,
        "participantFrames"@ != "timestamp"@,
{
    reveal_strlit("events");
    reveal_strlit("participantFrames");
    reveal_strlit("timestamp");
    assert("events"@[0] == 'e');
    assert("participantFrames"@[0] == 'p');
    assert("timestamp"@[0] == 't');
}

/// Writes one frame: its events behind `events`, its slim line behind
/// `frames`.
fn push_frame(events: &mut String, frames: &mut String, frame: serde_json::Value)
    ensures
        final(events)@ == old(events)@ + line_by_line(
            json::value_tree(frame).items_at("events"@),
        ),
        final(frames)@ == old(frames)@ + json::written(frame_tree(json::value_tree(frame)))
            + "\n"@,
        all_read_back(json::value_tree(frame).items_at("events"@)),
        reads_back(frame_tree(json::value_tree(frame))),
{
    let ghost t = json::value_tree(frame);
    let mut m: Vec<(String, serde_json::Value)> = members_in(frame);
    proof {
        lemma_frame_keys();
    }
    match take(&mut m, "events") {
        Some(list) => push_events(events, items_in(list)),
        None => {
            proof {
                assert(events@ + line_by_line(seq![]) =~= events@);
            }
        },
    }
    let players: Vec<serde_json::Value> = match take(&mut m, "participantFrames") {
        Some(list) => {
            proof {
                assert(t.get("participantFrames"@) == Some(json::value_tree(list)));
            }
            let players: Vec<serde_json::Value> = slim_players(members_in(list));
            proof {
                if json::value_tree(list) !is Obj {
                    assert(json::value_trees(players@) =~= seq![]) by {
                        assert(slim_all(seq![]) =~= seq![]);
                    }
                }
            }
            players
        },
        None => {
            let none: Vec<serde_json::Value> = Vec::new();
            proof {
                assert(json::value_trees(none@) =~= seq![]);
            }
            none
        },
    };
    assert(json::value_trees(players@) == players_of(t));
    let stamp: serde_json::Value = take_or_null(&mut m, "timestamp");
    assert(json::value_tree(stamp) == or_null(t, "timestamp"@));
    let mut line: Vec<(String, serde_json::Value)> = Vec::new();
    line.push(("participants".to_string(), json::make(Made::Arr(players))));
    line.push(("timestamp".to_string(), stamp));
    proof {
        lemma_line_keys(json::value_members(line@));
        assert(json::value_members(line@) =~= frame_tree(t)->Obj_0);
    }
    push_line(frames, &json::make(Made::Obj(line)));
}

proof fn lemma_lines_cut(items: Seq<Tree>)
    requires
        all_read_back(items),
    ensures
        text::pieces(line_by_line(items), '\n') == items.map_values(
            |t: Tree| json::written(t),
        ).push(seq![]),
    decreases items.len(),
{
    let all = line_by_line(items);
    let want = items.map_values(|t: Tree| json::written(t)).push(seq![]);
    text::lemma_find(all, '\n');
    if items.len() == 0 {
        assert(text::pieces(all, '\n') =~= want);
    } else {
        let first = seq![items[0]];
        let rest = items.skip(1);
        let w = json::written(items[0]);
        assert(reads_back(items[0]));
        reveal_strlit("\n");
        assert(items =~= first + rest);
        lemma_lines_join(first, rest);
        assert(line_by_line(first) =~= w + "\n"@) by {
            assert(first.drop_last() =~= seq![]);
            reveal_with_fuel(line_by_line, 2);
        }
        assert(all =~= w + "\n"@ + line_by_line(rest));
        assert(all[w.len() as int] == '\n');
        assert forall|j: int| 0 <= j < w.len() implies all[j] != '\n' by {
            assert(all[j] == w[j]);
            assert(w.contains(w[j]));
        }
        assert(text::find(all, '\n') == Some(w.len() as int));
        assert(all.take(w.len() as int) =~= w);
        assert(all.skip(w.len() as int + 1) =~= line_by_line(rest));
        assert forall|i: int| 0 <= i < rest.len() implies reads_back(#[trigger] rest[i]) by {
            assert(rest[i] == items[i + 1]);
        }
        lemma_lines_cut(rest);
        assert(text::pieces(all, '\n') =~= want);
    }
}

proof fn lemma_events_of_lines(items: Seq<Tree>)
    requires
        all_read_back(items),
        all_plain(items),
    ensures
        timeline::line_events(items.map_values(|t: Tree| json::written(t))) == items,
    decreases items.len(),
{
    let lines = items.map_values(|t: Tree| json::written(t));
    if items.len() == 0 {
        assert(lines =~= seq![]);
        assert(timeline::line_events(lines) =~= items);
    } else {
        let before = items.drop_last();
        assert forall|i: int| 0 <= i < before.len() implies reads_back(#[trigger] before[i])
            && json::plain(before[i], json::DEPTH_LIMIT as nat) by {
            assert(before[i] == items[i]);
        }
        lemma_events_of_lines(before);
        assert(lines.drop_last() =~= before.map_values(|t: Tree| json::written(t)));
        let t = items[items.len() - 1];
        assert(reads_back(t) && json::plain(t, json::DEPTH_LIMIT as nat));
        assert(lines.last() == json::written(t));
        assert(text::trimmed(json::written(t)) == json::written(t));
        assert(before.push(t) =~= items);
    }
}

/// What is archived line by line is read back tree by tree.
proof fn lemma_lines_read_back(items: Seq<Tree>)
    requires
        all_read_back(items),
    ensures
        all_plain(items) ==> timeline::line_events(text::line_texts(line_by_line(items))) == items,
{
    if all_plain(items) {
        let lines = items.map_values(|t: Tree| json::written(t));
        lemma_lines_cut(items);
        let cut = text::pieces(line_by_line(items), '\n');
        assert(cut.last() =~= seq![]);
        assert(cut.drop_last() =~= lines);
        let ended = lines.map_values(|l: Seq<char>| text::strip_cr(l));
        assert forall|i: int| 0 <= i < lines.len() implies ended[i] == lines[i] by {
            assert(reads_back(items[i]));
            let last = lines[i].last();
            assert(!text::is_space(last));
        }
        assert(ended =~= lines);
        assert(text::line_texts(line_by_line(items)) =~= lines);
        lemma_events_of_lines(items);
    }
}

/// The files that a match is archived in, from its raw detail and timeline.
pub fn files_of(match_json: &serde_json::Value, timeline: serde_json::Value) -> (r: Files)
    ensures
        r.match_json@ == json::written_pretty(json::value_tree(*match_json)),
        json::plain(json::value_tree(*match_json), json::DEPTH_LIMIT as nat) ==> json::read_tree(
            r.match_json@,
        ) == Some(json::value_tree(*match_json)),
        r.events_jsonl@ == line_by_line(events_of(frames_of(json::value_tree(timeline)))),
        r.frames_jsonl@ == line_by_line(slim_frames(frames_of(json::value_tree(timeline)))),
        all_plain(events_of(frames_of(json::value_tree(timeline)))) ==> timeline::line_events(
            text::line_texts(r.events_jsonl@),
        ) == events_of(frames_of(json::value_tree(timeline))),
        all_plain(slim_frames(frames_of(json::value_tree(timeline)))) ==> timeline::line_events(
            text::line_texts(r.frames_jsonl@),
        ) == slim_frames(frames_of(json::value_tree(timeline))),
{
    let ghost want = frames_of(json::value_tree(timeline));
    let mut top: Vec<(String, serde_json::Value)> = members_in(timeline);
    let frames: Vec<serde_json::Value> = match take(&mut top, "info") {
        Some(info) => {
            let mut inner: Vec<(String, serde_json::Value)> = members_in(info);
            match take(&mut inner, "frames") {
                Some(list) => items_in(list),
                None => Vec::new(),
            }
        },
        None => Vec::new(),
    };
    proof {
        assert(json::value_trees(frames@) =~= want);
    }
    let mut rest: Vec<serde_json::Value> = frames;
    let ghost items = rest@;
    let count: usize = rest.len();
    let mut done: usize = 0;
    let mut events: String = String::new();
    let mut slim: String = String::new();
    proof {
        assert(events@ =~= line_by_line(events_of(want.take(0))));
        assert(slim@ =~= line_by_line(slim_frames(want.take(0))));
    }
    while rest.len() > 0
        invariant
            rest@.len() + done == items.len() == count,
            rest@ == items.skip(done as int),
            want == json::value_trees(items),
            events@ == line_by_line(events_of(want.take(done as int))),
            slim@ == line_by_line(slim_frames(want.take(done as int))),
            all_read_back(events_of(want.take(done as int))),
            all_read_back(slim_frames(want.take(done as int))),
        decreases rest@.len(),
    {
        let frame: serde_json::Value = rest.remove(0);
        let ghost now = want.take(done + 1);
        proof {
            assert(now.drop_last() =~= want.take(done as int));
            assert(now.last() == json::value_tree(frame));
            lemma_lines_join(events_of(now.drop_last()), now.last().items_at("events"@));
            assert(slim_frames(now).drop_last() =~= slim_frames(now.drop_last()));
            assert(slim_frames(now).last() == frame_tree(now.last()));
        }
        push_frame(&mut events, &mut slim, frame);
        proof {
            let lines = slim_frames(now);
            assert forall|i: int| 0 <= i < lines.len() implies reads_back(#[trigger] lines[i]) by {
                if i < done {
                    assert(lines[i] == slim_frames(want.take(done as int))[i]);
                }
            }
        }
        done = done + 1;
    }
    proof {
        assert(want.take(done as int) =~= want);
        lemma_lines_read_back(events_of(want));
        lemma_lines_read_back(slim_frames(want));
    }
    Files { match_json: json::write_pretty(match_json), events_jsonl: events, frames_jsonl: slim }
}

} // verus!
