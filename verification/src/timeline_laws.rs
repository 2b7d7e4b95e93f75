//! What a timeline says of the raw events it was read from: who did what to
//! whom, when, and for which side.

use vstd::prelude::*;

use crate::json::Tree;
use crate::timeline::{self, EventV, KillV, Monster, ObjectiveV, Party, Special, TimelineV};
use crate::{json, seqs, text};

verus! {

/// There are two sides, 100 and 200, each the other one's opponent.
pub proof fn lemma_sides(team: int)
    ensures
        team == 100 || team == 200 ==> timeline::opponent(team) == 300 - team,
        team != 100 && team != 200 ==> timeline::opponent(team) == 0,
{
}

/// The team of a participant is what the first entry about them says; a
/// stranger has none.
pub proof fn lemma_roster(map: Seq<(i32, i32)>, id: i32)
    ensures
        forall|i: int|
            0 <= i < map.len() && (#[trigger] map[i]).0 == id && (forall|j: int|
                0 <= j < i ==> (#[trigger] map[j]).0 != id) ==> timeline::roster_team(
                map,
                id as i64,
            ) == map[i].1,
        (forall|i: int| 0 <= i < map.len() ==> (#[trigger] map[i]).0 != id)
            ==> timeline::roster_team(map, id as i64) == 0,
{
    let p = timeline::entry_of(id as i64);
    seqs::lemma_first_is(map, p);
    assert forall|i: int| 0 <= i < map.len() implies p(#[trigger] map[i]) == (map[i].0 == id) by {}
    assert forall|i: int|
        0 <= i < map.len() && (#[trigger] map[i]).0 == id && (forall|j: int|
            0 <= j < i ==> (#[trigger] map[j]).0 != id) implies timeline::roster_team(
        map,
        id as i64,
    ) == map[i].1 by {
        assert(p(map[i]));
        let k = seqs::first_where(map, p)->Some_0;
        if k < i {
            assert(map[k].0 != id);
        }
        if i < k {
            assert(!p(map[i]));
        }
    }
}

proof fn lemma_type_names()
    ensures
        "CHAMPION_KILL"@ != "CHAMPION_SPECIAL_KILL"@,
        "CHAMPION_KILL"@ != "ELITE_MONSTER_KILL"@,
        "CHAMPION_KILL"@ != "BUILDING_KILL"@,
        "CHAMPION_SPECIAL_KILL"@ != "ELITE_MONSTER_KILL"@,
        "CHAMPION_SPECIAL_KILL"@ != "BUILDING_KILL"@,
        "ELITE_MONSTER_KILL"@ != "BUILDING_KILL"@,
        "KILL_MULTI"@ != "KILL_FIRST_BLOOD"@,
{
    reveal_strlit("CHAMPION_KILL");
    reveal_strlit("CHAMPION_SPECIAL_KILL");
    reveal_strlit("ELITE_MONSTER_KILL");
    reveal_strlit("BUILDING_KILL");
    reveal_strlit("KILL_MULTI");
    reveal_strlit("KILL_FIRST_BLOOD");
    assert("CHAMPION_KILL"@.len() == 13 && "CHAMPION_KILL"@[0] == 'C');
    assert("CHAMPION_SPECIAL_KILL"@.len() == 21);
    assert("ELITE_MONSTER_KILL"@.len() == 18);
    assert("BUILDING_KILL"@.len() == 13 && "BUILDING_KILL"@[0] == 'B');
    assert("KILL_MULTI"@.len() == 10);
    assert("KILL_FIRST_BLOOD"@.len() == 16);
}

/// The damage of a ledger entry, whatever its kind.
pub open spec fn dealt(entry: Tree) -> int {
    entry.int_or_zero("physicalDamage"@) + entry.int_or_zero("magicDamage"@) + entry.int_or_zero(
        "trueDamage"@,
    )
}

/// A ledger sum is the damage of all the entries it covers.
pub proof fn lemma_damage(entries: Seq<Tree>, who: Party)
    ensures
        timeline::damage_over(entries, who) matches Some(d) ==> d == seqs::sum_of(
            entries,
            |e: Tree|
                if who.covers(e) {
                    dealt(e)
                } else {
                    0
                },
        ),
    decreases entries.len(),
{
    if entries.len() > 0 {
        lemma_damage(entries.drop_last(), who);
    }
}

/// Whether a ledger entry has this participant on its other end.
pub open spec fn with_participant(entry: Tree, id: i64) -> bool {
    entry.int_at("participantId"@) == Some(id)
}

/// A kill is read off its event: when it was, who killed whom, for which team,
/// with whose help, what it paid, and how the damage went: what the victim
/// dealt to their killer and to champions at all, and what they took from the
/// killer and altogether.
pub proof fn lemma_kill_event(ev: Tree, team_of: Seq<(i32, i32)>)
    requires
        ev.str_at("type"@) == Some("CHAMPION_KILL"@),
    ensures
        match timeline::event_of(ev, team_of) {
            Some(EventV::Kill(k)) => {
                let killer = ev.int_or_zero("killerId"@);
                let given = ev.items_at("victimDamageDealt"@);
                let taken = ev.items_at("victimDamageReceived"@);
                &&& k.t == ev.int_or_zero("timestamp"@)
                &&& k.killer == killer as i32
                &&& k.victim == ev.int_or_zero("victimId"@) as i32
                &&& k.killer_team == timeline::roster_team(team_of, killer)
                &&& k.assists == timeline::ids(ev.items_at("assistingParticipantIds"@))
                &&& k.bounty == ev.int_or_zero("bounty"@)
                &&& k.shutdown == ev.int_or_zero("shutdownBounty"@)
                &&& k.fought_back == seqs::sum_of(
                    given,
                    |e: Tree|
                        if with_participant(e, killer) {
                            dealt(e)
                        } else {
                            0
                        },
                )
                &&& k.dealt_champs == seqs::sum_of(
                    given,
                    |e: Tree|
                        if e.str_at("type"@) == Some("OTHER"@) {
                            dealt(e)
                        } else {
                            0
                        },
                )
                &&& k.received_killer == seqs::sum_of(
                    taken,
                    |e: Tree|
                        if with_participant(e, killer) {
                            dealt(e)
                        } else {
                            0
                        },
                )
                &&& k.received_all == seqs::sum_of(taken, |e: Tree| dealt(e))
                &&& ev.get("position"@) matches Some(at) ==> (at.number_at("x"@) matches Some(n)
                    ==> k.x == n) && (at.number_at("y"@) matches Some(n) ==> k.y == n)
            },
            Some(_) => false,
            None => timeline::ledger_of(ev, ev.int_or_zero("killerId"@)) is None,
        },
{
    lemma_type_names();
    let killer = ev.int_or_zero("killerId"@);
    let given = ev.items_at("victimDamageDealt"@);
    let taken = ev.items_at("victimDamageReceived"@);
    lemma_damage(given, Party::Participant(killer));
    lemma_damage(given, Party::Champions);
    lemma_damage(taken, Party::Participant(killer));
    lemma_damage(taken, Party::Anyone);
    let a = |e: Tree|
        if with_participant(e, killer) {
            dealt(e)
        } else {
            0
        };
    let b = |e: Tree|
        if e.str_at("type"@) == Some("OTHER"@) {
            dealt(e)
        } else {
            0
        };
    lemma_same_sum(
        given,
        a,
        |e: Tree|
            if Party::Participant(killer).covers(e) {
                dealt(e)
            } else {
                0
            },
    );
    lemma_same_sum(
        taken,
        a,
        |e: Tree|
            if Party::Participant(killer).covers(e) {
                dealt(e)
            } else {
                0
            },
    );
    lemma_same_sum(
        given,
        b,
        |e: Tree|
            if Party::Champions.covers(e) {
                dealt(e)
            } else {
                0
            },
    );
    lemma_same_sum(
        taken,
        |e: Tree| dealt(e),
        |e: Tree|
            if Party::Anyone.covers(e) {
                dealt(e)
            } else {
                0
            },
    );
}

proof fn lemma_same_sum(s: Seq<Tree>, f: spec_fn(Tree) -> int, g: spec_fn(Tree) -> int)
    requires
        forall|e: Tree| #[trigger] f(e) == g(e),
    ensures
        seqs::sum_of(s, f) == seqs::sum_of(s, g),
    decreases s.len(),
{
    if s.len() > 0 {
        lemma_same_sum(s.drop_last(), f, g);
    }
}

/// A special kill is a multikill of its length, or first blood, by its killer.
pub proof fn lemma_special_event(ev: Tree, team_of: Seq<(i32, i32)>)
    requires
        ev.str_at("type"@) == Some("CHAMPION_SPECIAL_KILL"@),
    ensures
        ({
            let t = ev.int_or_zero("timestamp"@);
            let killer = ev.int_or_zero("killerId"@) as i32;
            &&& ev.str_at("killType"@) == Some("KILL_MULTI"@) ==> timeline::event_of(ev, team_of)
                == Some(
                EventV::Multi(Special { t, killer, len: ev.int_or_zero("multiKillLength"@) }),
            )
            &&& ev.str_at("killType"@) == Some("KILL_FIRST_BLOOD"@) ==> timeline::event_of(
                ev,
                team_of,
            ) == Some(EventV::FirstBlood(t, killer))
            &&& ev.str_at("killType"@) != Some("KILL_MULTI"@) && ev.str_at("killType"@) != Some(
                "KILL_FIRST_BLOOD"@,
            ) ==> timeline::event_of(ev, team_of) == Some(EventV::Other)
        }),
{
    lemma_type_names();
}

/// A monster goes to the team that killed it, with everyone who was credited;
/// one that neither team killed says nothing.
pub proof fn lemma_monster_event(ev: Tree, team_of: Seq<(i32, i32)>)
    requires
        ev.str_at("type"@) == Some("ELITE_MONSTER_KILL"@),
    ensures
        ({
            let team = ev.int_or_zero("killerTeamId"@) as i32;
            &&& team != 100 && team != 200 ==> timeline::event_of(ev, team_of) == Some(
                EventV::Other,
            )
            &&& team == 100 || team == 200 ==> match timeline::event_of(ev, team_of) {
                Some(EventV::Took(o)) => {
                    &&& o.t == ev.int_or_zero("timestamp"@)
                    &&& o.team == team
                    &&& o.killer == ev.int_or_zero("killerId"@) as i32
                    &&& ev.int_at("killerId"@) is Some ==> o.participants.contains(o.killer)
                    &&& forall|i: int|
                        0 <= i < ev.items_at("assistingParticipantIds"@).len() ==> ((
                        #[trigger] ev.items_at("assistingParticipantIds"@)[i]).as_int() matches Some(
                            n,
                        ) ==> o.participants.contains(n as i32))
                    &&& o.elder <==> ev.str_at("monsterSubType"@) == Some("ELDER_DRAGON"@)
                    &&& o.monster == Monster::Baron <==> ev.str_at("monsterType"@) == Some(
                        "BARON_NASHOR"@,
                    )
                    &&& o.monster == Monster::Herald <==> ev.str_at("monsterType"@) == Some(
                        "RIFTHERALD"@,
                    )
                    &&& o.monster == Monster::Grub <==> ev.str_at("monsterType"@) == Some("HORDE"@)
                    &&& o.monster == Monster::Dragon <==> ev.str_at("monsterType"@) == Some(
                        "DRAGON"@,
                    )
                    &&& o.monster == Monster::Baron ==> o.label == "Baron"@
                    &&& o.monster == Monster::Herald ==> o.label == "Rift Herald"@
                    &&& o.monster == Monster::Grub ==> o.label == "a Void Grub"@
                    &&& o.monster == Monster::Unknown ==> o.label == "an objective"@
                    &&& o.monster != Monster::Building
                },
                _ => false,
            }
        }),
{
    lemma_type_names();
    lemma_monster_names();
    let assists = ev.items_at("assistingParticipantIds"@);
    lemma_ids(assists);
    let parts = timeline::takers(ev);
    if let Some(k) = ev.int_at("killerId"@) {
        assert(parts[0] == k as i32);
    }
    assert forall|i: int| 0 <= i < assists.len() implies ((#[trigger] assists[i]).as_int() matches Some(
        n,
    ) ==> parts.contains(n as i32)) by {
        if let Some(n) = assists[i].as_int() {
            let ids = timeline::ids(assists);
            assert(ids.contains(n as i32));
            let j = choose|j: int| 0 <= j < ids.len() && ids[j] == n as i32;
            let first = parts.len() - ids.len();
            assert(parts[first + j] == n as i32);
        }
    }
}

proof fn lemma_monster_names()
    ensures
        "BARON_NASHOR"@ != "RIFTHERALD"@,
        "BARON_NASHOR"@ != "HORDE"@,
        "BARON_NASHOR"@ != "DRAGON"@,
        "RIFTHERALD"@ != "HORDE"@,
        "RIFTHERALD"@ != "DRAGON"@,
        "HORDE"@ != "DRAGON"@,
{
    reveal_strlit("BARON_NASHOR");
    reveal_strlit("RIFTHERALD");
    reveal_strlit("HORDE");
    reveal_strlit("DRAGON");
    assert("BARON_NASHOR"@.len() == 12);
    assert("RIFTHERALD"@.len() == 10);
    assert("HORDE"@.len() == 5);
    assert("DRAGON"@.len() == 6);
}

/// The integers of a list, each of them and nothing else.
pub proof fn lemma_ids(items: Seq<Tree>)
    ensures
        timeline::ids(items).len() == seqs::count_where(items, |x: Tree| x.as_int() is Some),
        forall|i: int|
            0 <= i < items.len() ==> ((#[trigger] items[i]).as_int() matches Some(n)
                ==> timeline::ids(items).contains(n as i32)),
    decreases items.len(),
{
    if items.len() > 0 {
        let fewer = items.drop_last();
        lemma_ids(fewer);
        let before = timeline::ids(fewer);
        let now = timeline::ids(items);
        assert forall|i: int| 0 <= i < items.len() implies ((#[trigger] items[i]).as_int() matches Some(
            n,
        ) ==> now.contains(n as i32)) by {
            if let Some(n) = items[i].as_int() {
                if i < fewer.len() {
                    assert(fewer[i] == items[i]);
                    let j = choose|j: int| 0 <= j < before.len() && before[j] == n as i32;
                    assert(now[j] == n as i32);
                } else {
                    assert(now[now.len() - 1] == n as i32);
                }
            }
        }
    }
}

/// A dragon is told by its element.
pub proof fn lemma_dragon_label(ev: Tree, sub: Seq<char>)
    requires
        ev.str_at("monsterType"@) == Some("DRAGON"@),
        ev.str_at("monsterSubType"@) == Some(sub),
    ensures
        sub == "FIRE_DRAGON"@ ==> timeline::monster_text(ev) == "the "@ + "Infernal"@ + " Dragon"@,
        sub == "WATER_DRAGON"@ ==> timeline::monster_text(ev) == "the "@ + "Ocean"@ + " Dragon"@,
        sub == "EARTH_DRAGON"@ ==> timeline::monster_text(ev) == "the "@ + "Mountain"@ + " Dragon"@,
        sub == "AIR_DRAGON"@ ==> timeline::monster_text(ev) == "the "@ + "Cloud"@ + " Dragon"@,
        sub == "HEXTECH_DRAGON"@ ==> timeline::monster_text(ev) == "the "@ + "Hextech"@
            + " Dragon"@,
        sub == "CHEMTECH_DRAGON"@ ==> timeline::monster_text(ev) == "the "@ + "Chemtech"@
            + " Dragon"@,
        sub == "ELDER_DRAGON"@ ==> timeline::monster_text(ev) == "the "@ + "Elder"@ + " Dragon"@,
{
    lemma_monster_names();
    reveal_strlit("FIRE_DRAGON");
    reveal_strlit("WATER_DRAGON");
    reveal_strlit("EARTH_DRAGON");
    reveal_strlit("AIR_DRAGON");
    reveal_strlit("HEXTECH_DRAGON");
    reveal_strlit("CHEMTECH_DRAGON");
    reveal_strlit("ELDER_DRAGON");
    assert("FIRE_DRAGON"@.len() == 11);
    assert("WATER_DRAGON"@.len() == 12 && "WATER_DRAGON"@[0] == 'W');
    assert("EARTH_DRAGON"@.len() == 12 && "EARTH_DRAGON"@[1] == 'A' && "EARTH_DRAGON"@[0] == 'E');
    assert("AIR_DRAGON"@.len() == 10);
    assert("HEXTECH_DRAGON"@.len() == 14);
    assert("CHEMTECH_DRAGON"@.len() == 15);
    assert("ELDER_DRAGON"@.len() == 12 && "ELDER_DRAGON"@[1] == 'L' && "ELDER_DRAGON"@[0] == 'E');
}

/// A building goes to the team that does not own it.
pub proof fn lemma_building_event(ev: Tree, team_of: Seq<(i32, i32)>)
    requires
        ev.str_at("type"@) == Some("BUILDING_KILL"@),
    ensures
        ({
            let owner = ev.int_or_zero("teamId"@);
            &&& owner != 100 && owner != 200 ==> timeline::event_of(ev, team_of) == Some(
                EventV::Other,
            )
            &&& owner == 100 || owner == 200 ==> match timeline::event_of(ev, team_of) {
                Some(EventV::Took(o)) => {
                    &&& o.t == ev.int_or_zero("timestamp"@)
                    &&& o.team == 300 - owner
                    &&& o.monster == Monster::Building
                    &&& o.participants.len() == 0
                    &&& ev.str_at("buildingType"@) == Some("INHIBITOR_BUILDING"@) ==> o.label
                        == "an inhibitor"@
                    &&& ev.str_at("buildingType"@) != Some("INHIBITOR_BUILDING"@) ==> o.label
                        == "a tower"@
                },
                _ => false,
            }
        }),
{
    lemma_type_names();
}

/// Whether an event was read into a timeline.
pub open spec fn holds_event(tl: TimelineV, e: EventV) -> bool {
    match e {
        EventV::Kill(k) => tl.kills.contains(k),
        EventV::Multi(s) => tl.specials.contains(s),
        EventV::Took(o) => tl.objectives.contains(o),
        EventV::FirstBlood(_, _) => tl.first_blood is Some,
        EventV::Other => true,
    }
}

proof fn lemma_gathered(events: Seq<Tree>, team_of: Seq<(i32, i32)>)
    ensures
        timeline::gathered(events, team_of) matches Some(tl) ==> {
            &&& forall|i: int|
                0 <= i < events.len() ==> (timeline::event_of(#[trigger] events[i], team_of) matches Some(
                    e,
                ) && holds_event(tl, e))
            &&& tl.kills.len() + tl.specials.len() + tl.objectives.len() <= events.len()
        },
    decreases events.len(),
{
    if events.len() > 0 {
        let fewer = events.drop_last();
        lemma_gathered(fewer, team_of);
        if let Some(tl) = timeline::gathered(events, team_of) {
            let before = timeline::gathered(fewer, team_of)->Some_0;
            let last = timeline::event_of(events.last(), team_of)->Some_0;
            assert(tl == before.with(last));
            assert forall|i: int| 0 <= i < events.len() implies (timeline::event_of(
                #[trigger] events[i],
                team_of,
            ) matches Some(e) && holds_event(tl, e)) by {
                if i < fewer.len() {
                    assert(fewer[i] == events[i]);
                    let e = timeline::event_of(events[i], team_of)->Some_0;
                    match e {
                        EventV::Kill(k) => {
                            let j = choose|j: int| 0 <= j < before.kills.len() && before.kills[j] == k;
                            assert(tl.kills[j] == k);
                        },
                        EventV::Multi(s) => {
                            let j = choose|j: int|
                                0 <= j < before.specials.len() && before.specials[j] == s;
                            assert(tl.specials[j] == s);
                        },
                        EventV::Took(o) => {
                            let j = choose|j: int|
                                0 <= j < before.objectives.len() && before.objectives[j] == o;
                            assert(tl.objectives[j] == o);
                        },
                        _ => {},
                    }
                } else {
                    match last {
                        EventV::Kill(k) => {
                            assert(tl.kills[tl.kills.len() - 1] == k);
                        },
                        EventV::Multi(s) => {
                            assert(tl.specials[tl.specials.len() - 1] == s);
                        },
                        EventV::Took(o) => {
                            assert(tl.objectives[tl.objectives.len() - 1] == o);
                        },
                        _ => {},
                    }
                }
            }
        }
    }
}

/// A timeline holds every kill, multikill and objective of its events, no more
/// than there were, and each of them in the order of time.
pub proof fn lemma_timeline_holds_all(events: Seq<Tree>, team_of: Seq<(i32, i32)>)
    ensures
        timeline::timeline_from(events, team_of) matches Some(tl) ==> {
            &&& forall|i: int|
                0 <= i < events.len() ==> (timeline::event_of(#[trigger] events[i], team_of) matches Some(
                    e,
                ) && holds_event(tl, e))
            &&& tl.kills.len() + tl.specials.len() + tl.objectives.len() <= events.len()
            &&& forall|i: int, j: int|
                0 <= i < j < tl.kills.len() ==> (#[trigger] tl.kills[i]).t <= (
                #[trigger] tl.kills[j]).t
            &&& forall|i: int, j: int|
                0 <= i < j < tl.specials.len() ==> (#[trigger] tl.specials[i]).t <= (
                #[trigger] tl.specials[j]).t
            &&& forall|i: int, j: int|
                0 <= i < j < tl.objectives.len() ==> (#[trigger] tl.objectives[i]).t <= (
                #[trigger] tl.objectives[j]).t
        },
{
    lemma_gathered(events, team_of);
    if let Some(tl) = timeline::timeline_from(events, team_of) {
        let raw = timeline::gathered(events, team_of)->Some_0;
        seqs::lemma_sorted_len(raw.kills, timeline::kill_earlier());
        seqs::lemma_sorted_len(raw.specials, timeline::special_earlier());
        seqs::lemma_sorted_len(raw.objectives, timeline::objective_earlier());
        seqs::lemma_sort_orders(raw.kills, timeline::kill_earlier());
        seqs::lemma_sort_orders(raw.specials, timeline::special_earlier());
        seqs::lemma_sort_orders(raw.objectives, timeline::objective_earlier());
        assert forall|i: int| 0 <= i < events.len() implies (timeline::event_of(
            #[trigger] events[i],
            team_of,
        ) matches Some(e) && holds_event(tl, e)) by {
            let e = timeline::event_of(events[i], team_of)->Some_0;
            assert(holds_event(raw, e));
            match e {
                EventV::Kill(k) => {
                    seqs::lemma_sort_contains(raw.kills, timeline::kill_earlier(), k);
                },
                EventV::Multi(s) => {
                    seqs::lemma_sort_contains(raw.specials, timeline::special_earlier(), s);
                },
                EventV::Took(o) => {
                    seqs::lemma_sort_contains(raw.objectives, timeline::objective_earlier(), o);
                },
                _ => {},
            }
        }
        assert forall|i: int, j: int| 0 <= i < j < tl.kills.len() implies (#[trigger] tl.kills[i]).t
            <= (#[trigger] tl.kills[j]).t by {
            assert(!timeline::kill_earlier()(tl.kills[j], tl.kills[i]));
        }
        assert forall|i: int, j: int| 0 <= i < j < tl.specials.len() implies (
        #[trigger] tl.specials[i]).t <= (#[trigger] tl.specials[j]).t by {
            assert(!timeline::special_earlier()(tl.specials[j], tl.specials[i]));
        }
        assert forall|i: int, j: int| 0 <= i < j < tl.objectives.len() implies (
        #[trigger] tl.objectives[i]).t <= (#[trigger] tl.objectives[j]).t by {
            assert(!timeline::objective_earlier()(tl.objectives[j], tl.objectives[i]));
        }
    }
}

/// A line is an event exactly if it holds one: blank lines and lines that are
/// no JSON are left out, and the others stay, in order.
pub proof fn lemma_lines(lines: Seq<Seq<char>>, line: Seq<char>)
    ensures
        text::trimmed(line).len() == 0 ==> timeline::line_events(lines.push(line))
            == timeline::line_events(lines),
        text::trimmed(line).len() > 0 ==> timeline::line_events(lines.push(line)) == match json::read_tree(
            text::trimmed(line),
        ) {
            Some(tree) => timeline::line_events(lines).push(tree),
            None => timeline::line_events(lines),
        },
{
    assert(lines.push(line).drop_last() =~= lines);
}

} // verus!
