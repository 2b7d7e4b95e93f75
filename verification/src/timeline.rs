//! The match timeline: the raw event stream reduced to the event kinds the
//! analysis joins over.

use vstd::prelude::*;
use vstd::string::*;

use crate::json::{Json, Number, NumberTree, Tree};
use crate::seqs::{sort, Order};
use crate::text::same;
use crate::{json, scan, seqs, text};

verus! {

/// One champion kill.
#[derive(Debug)]
pub struct KillEv {
    /// Game time in milliseconds.
    pub t: i64,
    pub killer: i32,
    pub victim: i32,
    pub killer_team: i32,
    /// Participant ids credited with an assist on the kill.
    pub assists: Vec<i32>,
    /// Base gold bounty for the kill.
    pub bounty: i64,
    /// Extra shutdown gold (the victim was on a streak/bounty).
    pub shutdown: i64,
    /// Damage the victim dealt to their killer before dying — the duel signal.
    pub fought_back: i64,
    /// Damage the victim dealt to champions overall before dying.
    pub dealt_champs: i64,
    /// Damage the victim received from the killer.
    pub received_killer: i64,
    /// All the damage the victim received; the killer's share of it is
    /// `received_killer / received_all`, and none where this is not positive.
    pub received_all: i64,
    /// Where it happened.
    pub x: Number,
    pub y: Number,
}

/// A multikill worth clipping.
#[derive(Debug, Clone, Copy)]
pub struct Special {
    pub t: i64,
    pub killer: i32,
    pub len: i64,
}

/// What an objective was.
#[derive(Debug, Clone, Copy, PartialEq, Eq, Structural)]
pub enum Monster {
    Dragon,
    Baron,
    Herald,
    Grub,
    /// A monster of no kind that the analysis tells apart.
    Unknown,
    Building,
}

/// One objective taken.
#[derive(Debug)]
pub struct Objective {
    pub t: i64,
    pub team: i32,
    pub monster: Monster,
    /// The participant credited with the killing blow (the smite, for
    /// monsters).
    pub killer: i32,
    /// Elder dragon, unlike an elemental drake.
    pub elder: bool,
    pub label: String,
    /// killer + assists (participant ids) for the take.
    pub participants: Vec<i32>,
}

/// The timeline reduced to the event kinds the analysis joins over.
#[derive(Debug)]
pub struct Timeline {
    pub kills: Vec<KillEv>,
    pub specials: Vec<Special>,
    pub objectives: Vec<Objective>,
    /// The game's first blood `(timestamp, killer)`, when the event appeared.
    pub first_blood: Option<(i64, i32)>,
}

/// The mathematical value of a [`KillEv`].
pub struct KillV {
    pub t: i64,
    pub killer: i32,
    pub victim: i32,
    pub killer_team: i32,
    pub assists: Seq<i32>,
    pub bounty: i64,
    pub shutdown: i64,
    pub fought_back: i64,
    pub dealt_champs: i64,
    pub received_killer: i64,
    pub received_all: i64,
    pub x: NumberTree,
    pub y: NumberTree,
}

/// The mathematical value of an [`Objective`].
pub struct ObjectiveV {
    pub t: i64,
    pub team: i32,
    pub monster: Monster,
    pub killer: i32,
    pub elder: bool,
    pub label: Seq<char>,
    pub participants: Seq<i32>,
}

/// The mathematical value of a [`Timeline`].
pub struct TimelineV {
    pub kills: Seq<KillV>,
    pub specials: Seq<Special>,
    pub objectives: Seq<ObjectiveV>,
    pub first_blood: Option<(i64, i32)>,
}

impl View for KillEv {
    type V = KillV;

    open spec fn view(&self) -> KillV {
        KillV {
            t: self.t,
            killer: self.killer,
            victim: self.victim,
            killer_team: self.killer_team,
            assists: self.assists@,
            bounty: self.bounty,
            shutdown: self.shutdown,
            fought_back: self.fought_back,
            dealt_champs: self.dealt_champs,
            received_killer: self.received_killer,
            received_all: self.received_all,
            x: self.x@,
            y: self.y@,
        }
    }
}

impl View for Objective {
    type V = ObjectiveV;

    open spec fn view(&self) -> ObjectiveV {
        ObjectiveV {
            t: self.t,
            team: self.team,
            monster: self.monster,
            killer: self.killer,
            elder: self.elder,
            label: self.label@,
            participants: self.participants@,
        }
    }
}

impl View for Special {
    type V = Special;

    open spec fn view(&self) -> Special {
        *self
    }
}

/// The values of a list of kills.
pub open spec fn kill_views(v: Seq<KillEv>) -> Seq<KillV> {
    scan::views(v)
}

/// The values of a list of objectives.
pub open spec fn objective_views(v: Seq<Objective>) -> Seq<ObjectiveV> {
    scan::views(v)
}

impl View for Timeline {
    type V = TimelineV;

    open spec fn view(&self) -> TimelineV {
        TimelineV {
            kills: kill_views(self.kills@),
            specials: scan::views(self.specials@),
            objectives: objective_views(self.objectives@),
            first_blood: self.first_blood,
        }
    }
}

impl Monster {
    /// Major neutral objectives worth participating in.
    pub open spec fn major(self) -> bool {
        self == Monster::Dragon || self == Monster::Baron || self == Monster::Herald
    }

    /// Major neutral objectives worth participating in.
    pub fn is_major(&self) -> (r: bool)
        ensures
            r == self.major(),
    {
        *self == Monster::Dragon || *self == Monster::Baron || *self == Monster::Herald
    }
}

// --- helpers -----------------------------------------------------------------

/// Which roster entries are about a participant.
pub open spec fn entry_of(participant_id: i64) -> spec_fn((i32, i32)) -> bool {
    |e: (i32, i32)| e.0 == participant_id
}

/// The team of a participant by the roster, 0 for a stranger.
pub open spec fn roster_team(map: Seq<(i32, i32)>, participant_id: i64) -> i32 {
    match seqs::first_where(map, entry_of(participant_id)) {
        Some(i) => map[i].1,
        None => 0,
    }
}

pub fn team_of_participant(map: &Vec<(i32, i32)>, participant_id: i64) -> (r: i32)
    ensures
        r == roster_team(map@, participant_id),
{
    let ghost p = entry_of(participant_id);
    for i in 0..map.len()
        invariant
            p == entry_of(participant_id),
            seqs::first_where(map@.take(i as int), p) is None,
    {
        proof {
            assert(map@.take(i + 1).drop_last() =~= map@.take(i as int));
        }
        if map[i].0 as i64 == participant_id {
            proof {
                seqs::lemma_first_extends(map@, p, i + 1);
            }
            return map[i].1;
        }
    }
    proof {
        assert(map@.take(map@.len() as int) =~= map@);
    }
    0
}

/// The other side of a team id, 0 for neither side.
pub open spec fn opponent(team: int) -> i32 {
    if team == 100 {
        200
    } else if team == 200 {
        100
    } else {
        0
    }
}

pub fn other_team(team: i64) -> (r: i32)
    ensures
        r == opponent(team as int),
{
    if team == 100 {
        200
    } else if team == 200 {
        100
    } else {
        0
    }
}

/// The element of a drake by its subtype.
pub open spec fn element(sub: Seq<char>) -> Seq<char> {
    if sub == "FIRE_DRAGON"@ {
        "Infernal"@
    } else if sub == "WATER_DRAGON"@ {
        "Ocean"@
    } else if sub == "EARTH_DRAGON"@ {
        "Mountain"@
    } else if sub == "AIR_DRAGON"@ {
        "Cloud"@
    } else if sub == "HEXTECH_DRAGON"@ {
        "Hextech"@
    } else if sub == "CHEMTECH_DRAGON"@ {
        "Chemtech"@
    } else if sub == "ELDER_DRAGON"@ {
        "Elder"@
    } else {
        "elemental"@
    }
}

pub fn drake_element(sub: &str) -> (r: &'static str)
    ensures
        r@ == element(sub@),
{
    if same(sub, "FIRE_DRAGON") {
        "Infernal"
    } else if same(sub, "WATER_DRAGON") {
        "Ocean"
    } else if same(sub, "EARTH_DRAGON") {
        "Mountain"
    } else if same(sub, "AIR_DRAGON") {
        "Cloud"
    } else if same(sub, "HEXTECH_DRAGON") {
        "Hextech"
    } else if same(sub, "CHEMTECH_DRAGON") {
        "Chemtech"
    } else if same(sub, "ELDER_DRAGON") {
        "Elder"
    } else {
        "elemental"
    }
}

/// Which monster an event names.
pub open spec fn monster_of(ev: Tree) -> Monster {
    match ev.str_at("monsterType"@) {
        Some(s) => if s == "BARON_NASHOR"@ {
            Monster::Baron
        } else if s == "RIFTHERALD"@ {
            Monster::Herald
        } else if s == "HORDE"@ {
            Monster::Grub
        } else if s == "DRAGON"@ {
            Monster::Dragon
        } else {
            Monster::Unknown
        },
        None => Monster::Unknown,
    }
}

pub fn monster_kind(ev: &Json) -> (r: Monster)
    ensures
        r == monster_of(ev@),
{
    match ev.str_at("monsterType") {
        Some(s) => if same(s.as_str(), "BARON_NASHOR") {
            Monster::Baron
        } else if same(s.as_str(), "RIFTHERALD") {
            Monster::Herald
        } else if same(s.as_str(), "HORDE") {
            Monster::Grub
        } else if same(s.as_str(), "DRAGON") {
            Monster::Dragon
        } else {
            Monster::Unknown
        },
        None => Monster::Unknown,
    }
}

/// The display label of a monster kill.
pub open spec fn monster_text(ev: Tree) -> Seq<char> {
    match ev.str_at("monsterType"@) {
        Some(s) => if s == "BARON_NASHOR"@ {
            "Baron"@
        } else if s == "RIFTHERALD"@ {
            "Rift Herald"@
        } else if s == "HORDE"@ {
            "a Void Grub"@
        } else if s == "DRAGON"@ {
            match ev.str_at("monsterSubType"@) {
                Some(sub) => "the "@ + element(sub) + " Dragon"@,
                None => "a Dragon"@,
            }
        } else {
            "an objective"@
        },
        None => "an objective"@,
    }
}

pub fn monster_label(ev: &Json) -> (r: String)
    ensures
        r@ == monster_text(ev@),
{
    match ev.str_at("monsterType") {
        Some(s) => if same(s.as_str(), "BARON_NASHOR") {
            "Baron".to_string()
        } else if same(s.as_str(), "RIFTHERALD") {
            "Rift Herald".to_string()
        } else if same(s.as_str(), "HORDE") {
            "a Void Grub".to_string()
        } else if same(s.as_str(), "DRAGON") {
            match ev.str_at("monsterSubType") {
                Some(sub) => "the ".to_string().concat(drake_element(sub.as_str())).concat(
                    " Dragon",
                ),
                None => "a Dragon".to_string(),
            }
        } else {
            "an objective".to_string()
        },
        None => "an objective".to_string(),
    }
}

/// The display label of a building kill.
pub open spec fn building_text(ev: Tree) -> Seq<char> {
    if ev.str_at("buildingType"@) == Some("INHIBITOR_BUILDING"@) {
        "an inhibitor"@
    } else {
        "a tower"@
    }
}

pub fn building_label(ev: &Json) -> (r: String)
    ensures
        r@ == building_text(ev@),
{
    if ev.str_is("buildingType", "INHIBITOR_BUILDING") {
        "an inhibitor".to_string()
    } else {
        "a tower".to_string()
    }
}

/// The integers among a list of values, cut to 32 bits.
pub open spec fn ids(items: Seq<Tree>) -> Seq<i32>
    decreases items.len(),
{
    if items.len() == 0 {
        seq![]
    } else {
        match items.last().as_int() {
            Some(n) => ids(items.drop_last()).push(n as i32),
            None => ids(items.drop_last()),
        }
    }
}

/// Appends the participant ids of an event's assists.
fn add_assists(ev: &Json, out: Vec<i32>) -> (r: Vec<i32>)
    ensures
        r@ == out@ + ids(ev@.items_at("assistingParticipantIds"@)),
{
    let mut r: Vec<i32> = out;
    match ev.array_at("assistingParticipantIds") {
        Some(a) => {
            let ghost items = json::trees(a@);
            let ghost start = r@;
            for i in 0..a.len()
                invariant
                    items == json::trees(a@),
                    r@ =~= start + ids(items.take(i as int)),
            {
                proof {
                    assert(items.take(i + 1).drop_last() =~= items.take(i as int));
                    assert(items.take(i + 1).last() == a@[i as int]@);
                }
                if let Some(n) = a[i].as_i64() {
                    r.push(#[verifier::truncate] (n as i32));
                }
            }
            proof {
                assert(items.take(items.len() as int) =~= items);
            }
        },
        None => {
            proof {
                assert(r@ =~= r@ + ids(Seq::<Tree>::empty()));
            }
        },
    }
    r
}

/// Everyone credited with a monster kill.
pub open spec fn takers(ev: Tree) -> Seq<i32> {
    let first = match ev.int_at("killerId"@) {
        Some(k) => seq![k as i32],
        None => seq![],
    };
    first + ids(ev.items_at("assistingParticipantIds"@))
}

pub fn monster_participants(ev: &Json) -> (r: Vec<i32>)
    ensures
        r@ == takers(ev@),
{
    let mut parts: Vec<i32> = Vec::new();
    if let Some(k) = ev.int_at("killerId") {
        parts.push(#[verifier::truncate] (k as i32));
        proof {
            assert(parts@ =~= seq![k as i32]);
        }
    }
    add_assists(ev, parts)
}

// --- the kill ledger ---------------------------------------------------------

/// The sum of two amounts, where it fits.
pub open spec fn plus(a: Option<i64>, b: Option<i64>) -> Option<i64> {
    match (a, b) {
        (Some(x), Some(y)) => if i64::MIN <= x + y <= i64::MAX {
            Some((x + y) as i64)
        } else {
            None
        },
        _ => None,
    }
}

/// Which ledger entries a sum covers.
#[derive(Clone, Copy)]
pub enum Party {
    /// Those with this participant on the other end.
    Participant(i64),
    /// Those with a champion on the other end.
    Champions,
    /// All of them.
    Anyone,
}

impl Party {
    pub open spec fn covers(self, entry: Tree) -> bool {
        match self {
            Party::Participant(id) => entry.int_at("participantId"@) == Some(id),
            Party::Champions => entry.str_at("type"@) == Some("OTHER"@),
            Party::Anyone => true,
        }
    }

    fn counts(&self, entry: &Json) -> (r: bool)
        ensures
            r == self.covers(entry@),
    {
        match self {
            Party::Participant(id) => match entry.int_at("participantId") {
                Some(n) => n == *id,
                None => false,
            },
            Party::Champions => entry.str_is("type", "OTHER"),
            Party::Anyone => true,
        }
    }
}

/// The damage of one ledger entry, over the three damage types.
pub open spec fn damage(entry: Tree) -> Option<i64> {
    plus(
        plus(
            Some(entry.int_or_zero("physicalDamage"@)),
            Some(entry.int_or_zero("magicDamage"@)),
        ),
        Some(entry.int_or_zero("trueDamage"@)),
    )
}

fn entry_damage(entry: &Json) -> (r: Option<i64>)
    ensures
        r == damage(entry@),
{
    match entry.int_or_zero("physicalDamage").checked_add(entry.int_or_zero("magicDamage")) {
        Some(n) => n.checked_add(entry.int_or_zero("trueDamage")),
        None => None,
    }
}

/// The damage of the entries that `who` covers, added up front to back;
/// nothing where an addition does not fit.
pub open spec fn damage_over(entries: Seq<Tree>, who: Party) -> Option<i64>
    decreases entries.len(),
{
    if entries.len() == 0 {
        Some(0)
    } else if who.covers(entries.last()) {
        plus(damage_over(entries.drop_last(), who), damage(entries.last()))
    } else {
        damage_over(entries.drop_last(), who)
    }
}

proof fn lemma_damage_overflows(entries: Seq<Tree>, who: Party, k: int)
    requires
        0 <= k <= entries.len(),
        damage_over(entries.take(k), who) is None,
    ensures
        damage_over(entries, who) is None,
    decreases entries.len() - k,
{
    if k == entries.len() {
        assert(entries.take(k) =~= entries);
    } else {
        assert(entries.take(k + 1).drop_last() =~= entries.take(k));
        lemma_damage_overflows(entries, who, k + 1);
    }
}

/// Sums the entries of one ledger of an event that `who` covers.
fn sum_ledger(ev: &Json, field: &str, who: Party) -> (r: Option<i64>)
    ensures
        r == damage_over(ev@.items_at(field@), who),
{
    let mut sum: i64 = 0;
    if let Some(a) = ev.array_at(field) {
        let ghost items = json::trees(a@);
        for i in 0..a.len()
            invariant
                items == json::trees(a@),
                items == ev@.items_at(field@),
                damage_over(items.take(i as int), who) == Some(sum),
        {
            proof {
                assert(items.take(i + 1).drop_last() =~= items.take(i as int));
                assert(items.take(i + 1).last() == a@[i as int]@);
            }
            if who.counts(&a[i]) {
                let next: Option<i64> = match entry_damage(&a[i]) {
                    Some(n) => sum.checked_add(n),
                    None => None,
                };
                match next {
                    Some(n) => {
                        sum = n;
                    },
                    None => {
                        proof {
                            lemma_damage_overflows(items, who, i + 1);
                        }
                        return None;
                    },
                }
            }
        }
        proof {
            assert(items.take(items.len() as int) =~= items);
        }
    }
    Some(sum)
}

/// A kill's damage ledger, summed into the duel signals.
#[derive(Debug, Clone, Copy)]
pub struct Ledger {
    /// Damage the victim dealt to their killer.
    pub fought_back: i64,
    /// Damage the victim dealt to champions overall.
    pub dealt_champs: i64,
    /// Damage the killer dealt to the victim.
    pub received_killer: i64,
    /// All the damage the victim received.
    pub received_all: i64,
}

/// The ledger sums of an event. In `victimDamageReceived`, `participantId` is
/// the damage dealer; in `victimDamageDealt` it is the recipient.
pub open spec fn ledger_of(ev: Tree, killer: i64) -> Option<Ledger> {
    let dealt = ev.items_at("victimDamageDealt"@);
    let received = ev.items_at("victimDamageReceived"@);
    match (
        damage_over(dealt, Party::Participant(killer)),
        damage_over(dealt, Party::Champions),
        damage_over(received, Party::Participant(killer)),
        damage_over(received, Party::Anyone),
    ) {
        (Some(fought_back), Some(dealt_champs), Some(received_killer), Some(received_all)) => Some(
            Ledger { fought_back, dealt_champs, received_killer, received_all },
        ),
        _ => None,
    }
}

/// Sums a kill's damage ledger; nothing where a sum leaves 64 bits.
pub fn ledger_sums(ev: &Json, killer: i64) -> (r: Option<Ledger>)
    ensures
        r == ledger_of(ev@, killer),
{
    let fought_back: Option<i64> = sum_ledger(ev, "victimDamageDealt", Party::Participant(killer));
    let dealt_champs: Option<i64> = sum_ledger(ev, "victimDamageDealt", Party::Champions);
    let received_killer: Option<i64> = sum_ledger(
        ev,
        "victimDamageReceived",
        Party::Participant(killer),
    );
    let received_all: Option<i64> = sum_ledger(ev, "victimDamageReceived", Party::Anyone);
    match (fought_back, dealt_champs, received_killer, received_all) {
        (Some(fought_back), Some(dealt_champs), Some(received_killer), Some(received_all)) => Some(
            Ledger { fought_back, dealt_champs, received_killer, received_all },
        ),
        _ => None,
    }
}

/// The rough champion max-HP curve.
pub open spec fn hp_curve(t_ms: int) -> int {
    550 + 58 * text::tdiv(t_ms, 60_000)
}

/// Rough champion max-HP at game time `t_ms` — the yardstick that turns raw
/// ledger damage into "how close was this fight".
pub fn expected_hp(t_ms: i64) -> (r: i64)
    ensures
        r == hp_curve(t_ms as int),
        -9_000_000_000_000_000 < r < 9_000_000_000_000_000,
{
    550 + 58 * (t_ms / 60_000)
}

// --- reading the event stream ------------------------------------------------

/// One event, as far as the analysis uses it.
pub enum Event {
    Kill(KillEv),
    Multi(Special),
    FirstBlood(i64, i32),
    Took(Objective),
    Other,
}

/// The mathematical value of an [`Event`].
pub enum EventV {
    Kill(KillV),
    Multi(Special),
    FirstBlood(i64, i32),
    Took(ObjectiveV),
    Other,
}

impl View for Event {
    type V = EventV;

    open spec fn view(&self) -> EventV {
        match self {
            Event::Kill(k) => EventV::Kill(k@),
            Event::Multi(s) => EventV::Multi(*s),
            Event::FirstBlood(t, killer) => EventV::FirstBlood(*t, *killer),
            Event::Took(o) => EventV::Took(o@),
            Event::Other => EventV::Other,
        }
    }
}

/// A coordinate of an event's position, 0 without one.
pub open spec fn coordinate_of(ev: Tree, axis: Seq<char>) -> NumberTree {
    match ev.get("position"@) {
        Some(p) => match p.number_at(axis) {
            Some(n) => n,
            None => NumberTree::Int(0),
        },
        None => NumberTree::Int(0),
    }
}

fn coordinate(ev: &Json, axis: &str) -> (r: Number)
    ensures
        r@ == coordinate_of(ev@, axis@),
{
    match ev.get("position") {
        Some(p) => match p.number_at(axis) {
            Some(n) => n,
            None => Number::Int(0),
        },
        None => Number::Int(0),
    }
}

/// The kill that a `CHAMPION_KILL` event reports; nothing where its ledger
/// does not fit.
pub open spec fn kill_of(ev: Tree, team_of: Seq<(i32, i32)>) -> Option<KillV> {
    let killer = ev.int_or_zero("killerId"@);
    match ledger_of(ev, killer) {
        Some(ledger) => Some(
            KillV {
                t: ev.int_or_zero("timestamp"@),
                killer: killer as i32,
                victim: ev.int_or_zero("victimId"@) as i32,
                killer_team: roster_team(team_of, killer),
                assists: ids(ev.items_at("assistingParticipantIds"@)),
                bounty: ev.int_or_zero("bounty"@),
                shutdown: ev.int_or_zero("shutdownBounty"@),
                fought_back: ledger.fought_back,
                dealt_champs: ledger.dealt_champs,
                received_killer: ledger.received_killer,
                received_all: ledger.received_all,
                x: coordinate_of(ev, "x"@),
                y: coordinate_of(ev, "y"@),
            },
        ),
        None => None,
    }
}

fn kill_event(ev: &Json, team_of: &Vec<(i32, i32)>) -> (r: Option<KillEv>)
    ensures
        match r {
            Some(k) => kill_of(ev@, team_of@) == Some(k@),
            None => kill_of(ev@, team_of@) is None,
        },
{
    let killer: i64 = ev.int_or_zero("killerId");
    match ledger_sums(ev, killer) {
        Some(ledger) => {
            let assists: Vec<i32> = add_assists(ev, Vec::new());
            let victim: i64 = ev.int_or_zero("victimId");
            proof {
                assert(assists@ =~= ids(ev@.items_at("assistingParticipantIds"@)));
            }
            Some(
                KillEv {
                    t: ev.int_or_zero("timestamp"),
                    killer: #[verifier::truncate] (killer as i32),
                    victim: #[verifier::truncate] (victim as i32),
                    killer_team: team_of_participant(team_of, killer),
                    assists,
                    bounty: ev.int_or_zero("bounty"),
                    shutdown: ev.int_or_zero("shutdownBounty"),
                    fought_back: ledger.fought_back,
                    dealt_champs: ledger.dealt_champs,
                    received_killer: ledger.received_killer,
                    received_all: ledger.received_all,
                    x: coordinate(ev, "x"),
                    y: coordinate(ev, "y"),
                },
            )
        },
        None => None,
    }
}

/// What one event is to the analysis; nothing where its ledger does not fit.
pub open spec fn event_of(ev: Tree, team_of: Seq<(i32, i32)>) -> Option<EventV> {
    let t = ev.int_or_zero("timestamp"@);
    let kind = ev.str_at("type"@);
    if kind == Some("CHAMPION_KILL"@) {
        match kill_of(ev, team_of) {
            Some(k) => Some(EventV::Kill(k)),
            None => None,
        }
    } else if kind == Some("CHAMPION_SPECIAL_KILL"@) {
        let killer = ev.int_or_zero("killerId"@) as i32;
        if ev.str_at("killType"@) == Some("KILL_MULTI"@) {
            Some(EventV::Multi(Special { t, killer, len: ev.int_or_zero("multiKillLength"@) }))
        } else if ev.str_at("killType"@) == Some("KILL_FIRST_BLOOD"@) {
            Some(EventV::FirstBlood(t, killer))
        } else {
            Some(EventV::Other)
        }
    } else if kind == Some("ELITE_MONSTER_KILL"@) {
        let team = ev.int_or_zero("killerTeamId"@) as i32;
        if team == 100 || team == 200 {
            Some(
                EventV::Took(
                    ObjectiveV {
                        t,
                        team,
                        monster: monster_of(ev),
                        killer: ev.int_or_zero("killerId"@) as i32,
                        elder: ev.str_at("monsterSubType"@) == Some("ELDER_DRAGON"@),
                        label: monster_text(ev),
                        participants: takers(ev),
                    },
                ),
            )
        } else {
            Some(EventV::Other)
        }
    } else if kind == Some("BUILDING_KILL"@) {
        let team = opponent(ev.int_or_zero("teamId"@) as int);
        if team == 100 || team == 200 {
            Some(
                EventV::Took(
                    ObjectiveV {
                        t,
                        team,
                        monster: Monster::Building,
                        killer: 0,
                        elder: false,
                        label: building_text(ev),
                        participants: seq![],
                    },
                ),
            )
        } else {
            Some(EventV::Other)
        }
    } else {
        Some(EventV::Other)
    }
}

/// Reads one event; nothing where its ledger does not fit.
pub fn read_event(ev: &Json, team_of: &Vec<(i32, i32)>) -> (r: Option<Event>)
    ensures
        match r {
            Some(e) => event_of(ev@, team_of@) == Some(e@),
            None => event_of(ev@, team_of@) is None,
        },
{
    let t: i64 = ev.int_or_zero("timestamp");
    if ev.str_is("type", "CHAMPION_KILL") {
        match kill_event(ev, team_of) {
            Some(k) => Some(Event::Kill(k)),
            None => None,
        }
    } else if ev.str_is("type", "CHAMPION_SPECIAL_KILL") {
        let killer: i64 = ev.int_or_zero("killerId");
        let killer: i32 = #[verifier::truncate] (killer as i32);
        // KILL_MULTI carries a multikill length; KILL_FIRST_BLOOD marks the
        // game's first kill (a small scoring bonus).
        if ev.str_is("killType", "KILL_MULTI") {
            Some(Event::Multi(Special { t, killer, len: ev.int_or_zero("multiKillLength") }))
        } else if ev.str_is("killType", "KILL_FIRST_BLOOD") {
            Some(Event::FirstBlood(t, killer))
        } else {
            Some(Event::Other)
        }
    } else if ev.str_is("type", "ELITE_MONSTER_KILL") {
        let team: i64 = ev.int_or_zero("killerTeamId");
        let team: i32 = #[verifier::truncate] (team as i32);
        // 0/300 are neutral-despawn sentinels — nobody secured it.
        if team == 100 || team == 200 {
            let killer: i64 = ev.int_or_zero("killerId");
            Some(
                Event::Took(
                    Objective {
                        t,
                        team,
                        monster: monster_kind(ev),
                        killer: #[verifier::truncate] (killer as i32),
                        elder: ev.str_is("monsterSubType", "ELDER_DRAGON"),
                        label: monster_label(ev),
                        participants: monster_participants(ev),
                    },
                ),
            )
        } else {
            Some(Event::Other)
        }
    } else if ev.str_is("type", "BUILDING_KILL") {
        // `teamId` is the building's OWNER; the destroyer is the enemy.
        let team: i32 = other_team(ev.int_or_zero("teamId"));
        if team == 100 || team == 200 {
            let participants: Vec<i32> = Vec::new();
            proof {
                assert(participants@ =~= seq![]);
            }
            Some(
                Event::Took(
                    Objective {
                        t,
                        team,
                        monster: Monster::Building,
                        killer: 0,
                        elder: false,
                        label: building_label(ev),
                        participants,
                    },
                ),
            )
        } else {
            Some(Event::Other)
        }
    } else {
        Some(Event::Other)
    }
}

impl TimelineV {
    /// A timeline with one more event.
    pub open spec fn with(self, e: EventV) -> TimelineV {
        match e {
            EventV::Kill(k) => TimelineV { kills: self.kills.push(k), ..self },
            EventV::Multi(s) => TimelineV { specials: self.specials.push(s), ..self },
            EventV::FirstBlood(t, killer) => TimelineV {
                first_blood: Some((t, killer)),
                ..self
            },
            EventV::Took(o) => TimelineV { objectives: self.objectives.push(o), ..self },
            EventV::Other => self,
        }
    }

    /// A timeline with each kind of event in the order of time, simultaneous
    /// ones in the order in which they came.
    pub open spec fn in_order(self) -> TimelineV {
        TimelineV {
            kills: seqs::sorted_by(self.kills, kill_earlier()),
            specials: seqs::sorted_by(self.specials, special_earlier()),
            objectives: seqs::sorted_by(self.objectives, objective_earlier()),
            first_blood: self.first_blood,
        }
    }
}

pub open spec fn kill_earlier() -> spec_fn(KillV, KillV) -> bool {
    |a: KillV, b: KillV| a.t < b.t
}

pub open spec fn special_earlier() -> spec_fn(Special, Special) -> bool {
    |a: Special, b: Special| a.t < b.t
}

pub open spec fn objective_earlier() -> spec_fn(ObjectiveV, ObjectiveV) -> bool {
    |a: ObjectiveV, b: ObjectiveV| a.t < b.t
}

/// The events in the order in which they came; nothing where one of them does
/// not fit.
pub open spec fn gathered(events: Seq<Tree>, team_of: Seq<(i32, i32)>) -> Option<TimelineV>
    decreases events.len(),
{
    if events.len() == 0 {
        Some(
            TimelineV { kills: seq![], specials: seq![], objectives: seq![], first_blood: None },
        )
    } else {
        match (gathered(events.drop_last(), team_of), event_of(events.last(), team_of)) {
            (Some(tl), Some(e)) => Some(tl.with(e)),
            _ => None,
        }
    }
}

/// The timeline that a list of events makes.
pub open spec fn timeline_from(events: Seq<Tree>, team_of: Seq<(i32, i32)>) -> Option<TimelineV> {
    match gathered(events, team_of) {
        Some(tl) => Some(tl.in_order()),
        None => None,
    }
}

struct KillTime;

struct SpecialTime;

struct ObjectiveTime;

impl Order<KillEv> for KillTime {
    open spec fn lt(a: KillEv, b: KillEv) -> bool {
        a.t < b.t
    }

    fn before(a: &KillEv, b: &KillEv) -> (r: bool) {
        a.t < b.t
    }
}

impl Order<Special> for SpecialTime {
    open spec fn lt(a: Special, b: Special) -> bool {
        a.t < b.t
    }

    fn before(a: &Special, b: &Special) -> (r: bool) {
        a.t < b.t
    }
}

impl Order<Objective> for ObjectiveTime {
    open spec fn lt(a: Objective, b: Objective) -> bool {
        a.t < b.t
    }

    fn before(a: &Objective, b: &Objective) -> (r: bool) {
        a.t < b.t
    }
}

impl Timeline {
    fn in_order(self) -> (r: Timeline)
        ensures
            r@ == self@.in_order(),
    {
        proof {
            seqs::lemma_sorted_map(
                self.kills@,
                |x: KillEv| x@,
                |a: KillEv, b: KillEv| KillTime::lt(a, b),
                kill_earlier(),
            );
            seqs::lemma_sorted_map(
                self.objectives@,
                |x: Objective| x@,
                |a: Objective, b: Objective| ObjectiveTime::lt(a, b),
                objective_earlier(),
            );
            seqs::lemma_sorted_map(
                self.specials@,
                |x: Special| x@,
                |a: Special, b: Special| SpecialTime::lt(a, b),
                special_earlier(),
            );
        }
        Timeline {
            kills: sort::<KillEv, KillTime>(self.kills),
            specials: sort::<Special, SpecialTime>(self.specials),
            objectives: sort::<Objective, ObjectiveTime>(self.objectives),
            first_blood: self.first_blood,
        }
    }

    fn add(&mut self, e: Event)
        ensures
            final(self)@ == old(self)@.with(e@),
    {
        match e {
            Event::Kill(k) => {
                self.kills.push(k);
                proof {
                    assert(self@.kills =~= old(self)@.kills.push(k@));
                }
            },
            Event::Multi(s) => {
                self.specials.push(s);
                proof {
                    assert(self@.specials =~= old(self)@.specials.push(s));
                }
            },
            Event::FirstBlood(t, killer) => {
                self.first_blood = Some((t, killer));
            },
            Event::Took(o) => {
                self.objectives.push(o);
                proof {
                    assert(self@.objectives =~= old(self)@.objectives.push(o@));
                }
            },
            Event::Other => {},
        }
    }
}

proof fn lemma_gathered_stops(events: Seq<Tree>, team_of: Seq<(i32, i32)>, k: int)
    requires
        0 <= k <= events.len(),
        gathered(events.take(k), team_of) is None,
    ensures
        gathered(events, team_of) is None,
    decreases events.len() - k,
{
    if k == events.len() {
        assert(events.take(k) =~= events);
    } else {
        assert(events.take(k + 1).drop_last() =~= events.take(k));
        lemma_gathered_stops(events, team_of, k + 1);
    }
}

/// Sorts a list of events into typed kills, special kills and objectives — the
/// shared front-end for both moment analysis and clip picking. Nothing where
/// the damage sums of a kill leave 64 bits.
pub fn timeline_of(events: &Vec<Json>, team_of: &Vec<(i32, i32)>) -> (r: Option<Timeline>)
    ensures
        match r {
            Some(tl) => timeline_from(json::trees(events@), team_of@) == Some(tl@),
            None => timeline_from(json::trees(events@), team_of@) is None,
        },
{
    let mut tl: Timeline = Timeline {
        kills: Vec::new(),
        specials: Vec::new(),
        objectives: Vec::new(),
        first_blood: None,
    };
    let ghost all = json::trees(events@);
    proof {
        assert(tl@.kills =~= seq![]);
        assert(tl@.specials =~= seq![]);
        assert(tl@.objectives =~= seq![]);
    }
    for i in 0..events.len()
        invariant
            all == json::trees(events@),
            gathered(all.take(i as int), team_of@) == Some(tl@),
    {
        proof {
            assert(all.take(i + 1).drop_last() =~= all.take(i as int));
            assert(all.take(i + 1).last() == events@[i as int]@);
        }
        match read_event(&events[i], team_of) {
            Some(e) => {
                tl.add(e);
            },
            None => {
                proof {
                    lemma_gathered_stops(all, team_of@, i + 1);
                }
                return None;
            },
        }
    }
    proof {
        assert(all.take(all.len() as int) =~= all);
    }
    Some(tl.in_order())
}

/// The JSON values among a list of lines: blank lines and lines that are no
/// JSON are left out.
pub open spec fn line_events(lines: Seq<Seq<char>>) -> Seq<Tree>
    decreases lines.len(),
{
    if lines.len() == 0 {
        seq![]
    } else {
        let before = line_events(lines.drop_last());
        let line = text::trimmed(lines.last());
        if line.len() == 0 {
            before
        } else {
            match json::read_tree(line) {
                Some(tree) => before.push(tree),
                None => before,
            }
        }
    }
}

/// Reads a list of events, one JSON value per line.
pub fn read_events(events_jsonl: &str) -> (r: Vec<Json>)
    ensures
        json::trees(r@) == line_events(text::line_texts(events_jsonl@)),
{
    let lines: Vec<String> = text::lines(events_jsonl);
    let ghost all = text::texts(lines@);
    let mut out: Vec<Json> = Vec::new();
    proof {
        assert(json::trees(out@) =~= seq![]);
    }
    for i in 0..lines.len()
        invariant
            all == text::texts(lines@),
            json::trees(out@) == line_events(all.take(i as int)),
    {
        proof {
            assert(all.take(i + 1).drop_last() =~= all.take(i as int));
            assert(all.take(i + 1).last() == lines@[i as int]@);
        }
        let line: String = text::trim(lines[i].as_str());
        if line.as_str().unicode_len() > 0 {
            if let Some(j) = json::read(line.as_str()) {
                let ghost before = out@;
                out.push(j);
                proof {
                    assert(json::trees(out@) =~= json::trees(before).push(j@));
                }
            }
        }
    }
    proof {
        assert(all.take(all.len() as int) =~= all);
    }
    out
}

/// Parses the raw event stream, one timeline event per line.
pub fn parse_timeline(events_jsonl: &str, team_of: &Vec<(i32, i32)>) -> (r: Option<Timeline>)
    ensures
        match r {
            Some(tl) => timeline_from(
                line_events(text::line_texts(events_jsonl@)),
                team_of@,
            ) == Some(tl@),
            None => timeline_from(
                line_events(text::line_texts(events_jsonl@)),
                team_of@,
            ) is None,
        },
{
    timeline_of(&read_events(events_jsonl), team_of)
}

// --- what changes no timeline ------------------------------------------------

/// Whether a line tells the analysis nothing: it is blank, no JSON, or an event
/// of another type.
pub open spec fn says_nothing(line: Seq<char>, team_of: Seq<(i32, i32)>) -> bool {
    let kept = text::trimmed(line);
    ||| kept.len() == 0
    ||| match json::read_tree(kept) {
        Some(ev) => event_of(ev, team_of) == Some(EventV::Other),
        None => true,
    }
}

/// An event whose type is none of those that the analysis joins over says
/// nothing.
pub proof fn lemma_other_types_say_nothing(ev: Tree, team_of: Seq<(i32, i32)>)
    requires
        ev.str_at("type"@) != Some("CHAMPION_KILL"@),
        ev.str_at("type"@) != Some("CHAMPION_SPECIAL_KILL"@),
        ev.str_at("type"@) != Some("ELITE_MONSTER_KILL"@),
        ev.str_at("type"@) != Some("BUILDING_KILL"@),
    ensures
        event_of(ev, team_of) == Some(EventV::Other),
{
}

proof fn lemma_events_join(a: Seq<Seq<char>>, b: Seq<Seq<char>>)
    ensures
        line_events(a + b) == line_events(a) + line_events(b),
    decreases b.len(),
{
    if b.len() == 0 {
        assert(a + b =~= a);
        assert(line_events(a) + line_events(b) =~= line_events(a));
    } else {
        assert((a + b).drop_last() =~= a + b.drop_last());
        assert((a + b).last() == b.last());
        lemma_events_join(a, b.drop_last());
        assert(line_events(a + b) =~= line_events(a) + line_events(b));
    }
}

proof fn lemma_other_is_passed_over(
    a: Seq<Tree>,
    ev: Tree,
    b: Seq<Tree>,
    team_of: Seq<(i32, i32)>,
)
    requires
        event_of(ev, team_of) == Some(EventV::Other),
    ensures
        gathered(a.push(ev) + b, team_of) == gathered(a + b, team_of),
    decreases b.len(),
{
    if b.len() == 0 {
        assert(a.push(ev) + b =~= a.push(ev));
        assert(a + b =~= a);
        assert(a.push(ev).drop_last() =~= a);
    } else {
        assert((a.push(ev) + b).drop_last() =~= a.push(ev) + b.drop_last());
        assert((a + b).drop_last() =~= a + b.drop_last());
        assert((a.push(ev) + b).last() == b.last());
        assert((a + b).last() == b.last());
        lemma_other_is_passed_over(a, ev, b.drop_last(), team_of);
    }
}

/// A line that is blank, no JSON, or an event of another type changes no
/// timeline, wherever it stands.
pub proof fn lemma_silent_lines_change_nothing(
    lines: Seq<Seq<char>>,
    at: int,
    line: Seq<char>,
    team_of: Seq<(i32, i32)>,
)
    requires
        0 <= at <= lines.len(),
        says_nothing(line, team_of),
    ensures
        timeline_from(line_events(lines.insert(at, line)), team_of) == timeline_from(
            line_events(lines),
            team_of,
        ),
{
    let a = lines.take(at);
    let b = lines.skip(at);
    assert(lines =~= a + b);
    assert(lines.insert(at, line) =~= a.push(line) + b);
    lemma_events_join(a, b);
    lemma_events_join(a.push(line), b);
    assert(a.push(line).drop_last() =~= a);
    let kept = text::trimmed(line);
    if kept.len() > 0 {
        if let Some(ev) = json::read_tree(kept) {
            assert(line_events(a.push(line)) =~= line_events(a).push(ev));
            lemma_other_is_passed_over(line_events(a), ev, line_events(b), team_of);
        }
    }
}

} // verus!
