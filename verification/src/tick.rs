//! One poll pass: the watch list, which game of a player is new, and what a
//! pass posts with.

use vstd::prelude::*;
use vstd::string::*;
use vstd::utf8::*;

use crate::cli::Cli;
use crate::game::text_of;
use crate::journal::{Projection, ProjectionV};
use crate::kinds::{AccountResolved, PostedV, ResolvedV};
use crate::seqs::{sort, Order};
use crate::text::{
    alphanumeric, chars_of, contains, find_char, lines, natural, parse_at_most, same, split, trim,
};
use crate::{scan, seqs, text};

verus! {

// --- match ids -----------------------------------------------------------------------

/// A match id taken apart: its platform, and the number behind the first `_`.
pub open spec fn match_parts(match_id: Seq<char>) -> Option<(Seq<char>, u64)> {
    match text::cut_once(match_id, '_') {
        Some((platform, rest)) => match text::number_at_most(rest, u64::MAX as nat) {
            Some(n) => Some((platform, n as u64)),
            None => None,
        },
        None => None,
    }
}

/// What is said of a match id that cannot be taken apart.
pub open spec fn malformed(match_id: Seq<char>) -> Seq<char> {
    if text::cut_once(match_id, '_') is None {
        "malformed match id `"@ + match_id + "`"@
    } else {
        "malformed game id in `"@ + match_id + "`"@
    }
}

/// Split `NA1_5630828116` into `("NA1", 5630828116)`.
pub fn split_match_id(match_id: &str) -> (r: Result<(&str, u64), String>)
    ensures
        match r {
            Ok(parts) => match_parts(match_id@) == Some((parts.0@, parts.1)),
            Err(e) => match_parts(match_id@) is None && e@ == malformed(match_id@),
        },
{
    let v: Vec<char> = chars_of(match_id);
    proof {
        assert(v@.skip(0) =~= v@);
        text::lemma_find(v@, '_');
    }
    match find_char(&v, '_', 0) {
        Some(i) => {
            let n: usize = v.len();
            let platform: &str = match_id.substring_char(0, i);
            let rest: &str = match_id.substring_char(i + 1, n);
            proof {
                assert(platform@ =~= match_id@.take(i as int));
                assert(rest@ =~= match_id@.skip(i + 1));
            }
            match parse_at_most(rest, u64::MAX) {
                Some(n) => Ok((platform, n)),
                None => Err("malformed game id in `".to_string().concat(match_id).concat("`")),
            }
        },
        None => Err("malformed match id `".to_string().concat(match_id).concat("`")),
    }
}

/// Where a match is archived, directory by directory: under its platform and
/// its number, or under its id whole where that cannot be taken apart.
pub open spec fn place_of(match_id: Seq<char>) -> Seq<Seq<char>> {
    match match_parts(match_id) {
        Some((platform, game_id)) => seq![platform, text::digits(game_id as nat)],
        None => seq![match_id],
    }
}

/// Where a match is archived, directory by directory.
pub fn archive_place(match_id: &str) -> (r: Vec<String>)
    ensures
        text::texts(r@) == place_of(match_id@),
{
    let mut r: Vec<String> = Vec::new();
    match split_match_id(match_id) {
        Ok((platform, game_id)) => {
            r.push(platform.to_string());
            r.push(natural(game_id as u128));
        },
        Err(_) => {
            r.push(match_id.to_string());
        },
    }
    proof {
        assert(text::texts(r@) =~= place_of(match_id@));
    }
    r
}

// --- the watch list ------------------------------------------------------------------

/// One watch-list line: `riot_id|region|queue[,queue…]`.
#[derive(Debug)]
pub struct Account {
    pub riot_id: String,
    pub region: String,
    /// Queue ids to scan; `None` scans all queues (the file's `all`).
    pub queues: Vec<Option<u32>>,
}

/// The mathematical value of an [`Account`].
pub struct AccountV {
    pub riot_id: Seq<char>,
    pub region: Seq<char>,
    pub queues: Seq<Option<u32>>,
}

impl View for Account {
    type V = AccountV;

    open spec fn view(&self) -> AccountV {
        AccountV { riot_id: self.riot_id@, region: self.region@, queues: self.queues@ }
    }
}

/// What one line of the watch list says.
pub enum LineV {
    /// Nothing: it is blank, a comment or malformed.
    Nothing,
    /// A queue list that cannot be read.
    BadQueues,
    Account(AccountV),
}

/// The queue that an entry of a queue list names: `all` is no filter.
pub open spec fn queue_named(entry: Seq<char>) -> Option<Option<u32>> {
    if entry == "all"@ {
        Some(None)
    } else {
        match text::number_at_most(entry, u32::MAX as nat) {
            Some(n) => Some(Some(n as u32)),
            None => None,
        }
    }
}

/// Each text trimmed.
pub open spec fn trimmed_all(v: Seq<Seq<char>>) -> Seq<Seq<char>> {
    v.map_values(|s: Seq<char>| text::trimmed(s))
}

/// Whether a text is not empty.
pub open spec fn not_empty() -> spec_fn(Seq<char>) -> bool {
    |s: Seq<char>| s.len() > 0
}

/// The entries of a queue list.
pub open spec fn entries(list: Seq<char>) -> Seq<Seq<char>> {
    seqs::keep(trimmed_all(text::pieces(list, ',')), not_empty())
}

/// The queues that some entries name; nothing where one names none.
pub open spec fn queues_named(entries: Seq<Seq<char>>) -> Option<Seq<Option<u32>>>
    decreases entries.len(),
{
    if entries.len() == 0 {
        Some(seq![])
    } else {
        match (queues_named(entries.drop_last()), queue_named(entries.last())) {
            (Some(before), Some(q)) => Some(before.push(q)),
            _ => None,
        }
    }
}

/// The queue that a line without a queue list is about.
pub open spec fn default_of(default_queue: Option<u32>) -> Option<u32> {
    match default_queue {
        Some(q) => Some(q),
        None => Some(420),
    }
}

/// What a line says, once it is trimmed.
pub open spec fn line_of(line: Seq<char>, default_queue: Option<u32>) -> LineV {
    let fields = trimmed_all(text::pieces(line, '|'));
    if line.len() == 0 || line[0] == '#' || fields.len() < 2 || fields[0].len() == 0
        || fields[1].len() == 0 {
        LineV::Nothing
    } else if fields.len() < 3 || fields[2].len() == 0 {
        LineV::Account(
            AccountV {
                riot_id: fields[0],
                region: fields[1],
                queues: seq![default_of(default_queue)],
            },
        )
    } else {
        match queues_named(entries(fields[2])) {
            Some(queues) => LineV::Account(
                AccountV { riot_id: fields[0], region: fields[1], queues },
            ),
            None => LineV::BadQueues,
        }
    }
}

/// The accounts of some lines, or the first line whose queue list cannot be
/// read.
pub open spec fn accounts_of(lines: Seq<Seq<char>>, default_queue: Option<u32>) -> Result<
    Seq<AccountV>,
    Seq<char>,
>
    decreases lines.len(),
{
    if lines.len() == 0 {
        Ok(seq![])
    } else {
        match accounts_of(lines.drop_last(), default_queue) {
            Err(e) => Err(e),
            Ok(before) => match line_of(text::trimmed(lines.last()), default_queue) {
                LineV::Nothing => Ok(before),
                LineV::BadQueues => Err(text::trimmed(lines.last())),
                LineV::Account(a) => Ok(before.push(a)),
            },
        }
    }
}

fn split_trimmed(s: &str, sep: char) -> (r: Vec<String>)
    ensures
        text::texts(r@) == trimmed_all(text::pieces(s@, sep)),
{
    let cut: Vec<String> = split(s, sep);
    let ghost all = text::pieces(s@, sep);
    let mut out: Vec<String> = Vec::new();
    for i in 0..cut.len()
        invariant
            text::texts(cut@) == all,
            text::texts(out@) =~= trimmed_all(all).take(i as int),
    {
        proof {
            assert(all[i as int] == cut@[i as int]@);
        }
        let ghost before = out@;
        out.push(trim(cut[i].as_str()));
        proof {
            assert(text::texts(out@) =~= text::texts(before).push(text::trimmed(all[i as int])));
        }
    }
    out
}

fn read_queue(entry: &str) -> (r: Option<Option<u32>>)
    ensures
        r == queue_named(entry@),
{
    if same(entry, "all") {
        Some(None)
    } else {
        match parse_at_most(entry, u32::MAX as u64) {
            Some(n) => Some(Some(n as u32)),
            None => None,
        }
    }
}

proof fn lemma_queues_fail(all: Seq<Seq<char>>, k: int)
    requires
        0 <= k <= all.len(),
        queues_named(all.take(k)) is None,
    ensures
        queues_named(all) is None,
    decreases all.len() - k,
{
    if k == all.len() {
        assert(all.take(k) =~= all);
    } else {
        assert(all.take(k + 1).drop_last() =~= all.take(k));
        lemma_queues_fail(all, k + 1);
    }
}

fn read_queues(list: &str) -> (r: Option<Vec<Option<u32>>>)
    ensures
        match r {
            Some(queues) => queues_named(entries(list@)) == Some(queues@),
            None => queues_named(entries(list@)) is None,
        },
{
    let cut: Vec<String> = split_trimmed(list, ',');
    let ghost all = trimmed_all(text::pieces(list@, ','));
    let mut out: Vec<Option<u32>> = Vec::new();
    proof {
        assert(out@ =~= seq![]);
    }
    for i in 0..cut.len()
        invariant
            all == trimmed_all(text::pieces(list@, ',')),
            text::texts(cut@) == all,
            queues_named(seqs::keep(all.take(i as int), not_empty())) == Some(out@),
    {
        let ghost now = all.take(i + 1);
        proof {
            assert(now.drop_last() =~= all.take(i as int));
            assert(now.last() == cut@[i as int]@);
        }
        if cut[i].as_str().unicode_len() > 0 {
            let ghost kept = seqs::keep(now, not_empty());
            proof {
                assert(kept.drop_last() =~= seqs::keep(all.take(i as int), not_empty()));
                assert(kept.last() == now.last());
            }
            match read_queue(cut[i].as_str()) {
                Some(q) => out.push(q),
                None => {
                    proof {
                        lemma_kept_prefix(all, i + 1);
                        assert(queues_named(kept) is None);
                        lemma_queues_fail(seqs::keep(all, not_empty()), kept.len() as int);
                    }
                    return None;
                },
            }
        }
    }
    proof {
        assert(all.take(all.len() as int) =~= all);
    }
    Some(out)
}

/// What is kept of a prefix is a prefix of what is kept of the whole.
proof fn lemma_kept_prefix(all: Seq<Seq<char>>, k: int)
    requires
        0 <= k <= all.len(),
    ensures
        ({
            let part = seqs::keep(all.take(k), not_empty());
            let whole = seqs::keep(all, not_empty());
            part.len() <= whole.len() && whole.take(part.len() as int) == part
        }),
    decreases all.len() - k,
{
    let part = seqs::keep(all.take(k), not_empty());
    let whole = seqs::keep(all, not_empty());
    if k == all.len() {
        assert(all.take(k) =~= all);
        assert(whole.take(part.len() as int) =~= part);
    } else {
        let more = seqs::keep(all.take(k + 1), not_empty());
        assert(all.take(k + 1).drop_last() =~= all.take(k));
        lemma_kept_prefix(all, k + 1);
        assert(whole.take(part.len() as int) =~= more.take(part.len() as int));
        assert(more.take(part.len() as int) =~= part);
    }
}

enum Line {
    Nothing,
    BadQueues,
    Account(Account),
}

impl View for Line {
    type V = LineV;

    closed spec fn view(&self) -> LineV {
        match self {
            Line::Nothing => LineV::Nothing,
            Line::BadQueues => LineV::BadQueues,
            Line::Account(a) => LineV::Account(a@),
        }
    }
}

fn starts_with_hash(line: &str) -> (r: bool)
    ensures
        r == (line@.len() > 0 && line@[0] == '#'),
{
    line.unicode_len() > 0 && line.get_char(0) == '#'
}

fn read_line(line: &str, default_queue: Option<u32>) -> (r: Line)
    ensures
        r@ == line_of(line@, default_queue),
{
    let fields: Vec<String> = split_trimmed(line, '|');
    let ghost all = trimmed_all(text::pieces(line@, '|'));
    proof {
        assert(all.len() == fields@.len());
        assert(forall|i: int| 0 <= i < all.len() ==> all[i] == #[trigger] fields@[i]@);
    }
    if line.unicode_len() == 0 || starts_with_hash(line) || fields.len() < 2 {
        return Line::Nothing;
    }
    if fields[0].as_str().unicode_len() == 0 || fields[1].as_str().unicode_len() == 0 {
        return Line::Nothing;
    }
    let riot_id: String = fields[0].clone();
    let region: String = fields[1].clone();
    if fields.len() < 3 || fields[2].as_str().unicode_len() == 0 {
        let only: Option<u32> = match default_queue {
            Some(q) => Some(q),
            None => Some(420),
        };
        let mut queues: Vec<Option<u32>> = Vec::new();
        queues.push(only);
        proof {
            assert(queues@ =~= seq![default_of(default_queue)]);
        }
        return Line::Account(Account { riot_id, region, queues });
    }
    match read_queues(fields[2].as_str()) {
        Some(queues) => Line::Account(Account { riot_id, region, queues }),
        None => Line::BadQueues,
    }
}

/// Parse the watch list: one `riot_id|region|queue[,queue…]` per line, `#`
/// starting a line is a comment (but not inline — Riot IDs contain `#`),
/// missing queue → the default, `all` → no queue filter. A malformed line is
/// skipped; a queue list that cannot be read is an error.
pub fn parse_accounts(raw: &str, default_queue: Option<u32>) -> (r: Result<Vec<Account>, String>)
    ensures
        match r {
            Ok(v) => accounts_of(text::line_texts(raw@), default_queue) == Ok::<
                Seq<AccountV>,
                Seq<char>,
            >(scan::views(v@)),
            Err(e) => accounts_of(text::line_texts(raw@), default_queue) matches Err(line) && e@
                == "bad queue list in `"@ + line + "`"@,
        },
{
    let all: Vec<String> = lines(raw);
    let ghost ls = text::line_texts(raw@);
    let mut out: Vec<Account> = Vec::new();
    proof {
        assert(scan::views(out@) =~= seq![]);
    }
    for i in 0..all.len()
        invariant
            ls == text::line_texts(raw@),
            text::texts(all@) == ls,
            accounts_of(ls.take(i as int), default_queue) == Ok::<Seq<AccountV>, Seq<char>>(
                scan::views(out@),
            ),
    {
        proof {
            assert(ls.take(i + 1).drop_last() =~= ls.take(i as int));
            assert(ls.take(i + 1).last() == all@[i as int]@);
        }
        let line: String = trim(all[i].as_str());
        let ghost before = out@;
        match read_line(line.as_str(), default_queue) {
            Line::Nothing => {},
            Line::BadQueues => {
                proof {
                    lemma_accounts_stop(ls, i + 1, default_queue);
                }
                return Err("bad queue list in `".to_string().concat(line.as_str()).concat("`"));
            },
            Line::Account(a) => {
                out.push(a);
                proof {
                    assert(scan::views(out@) =~= scan::views(before).push(a@));
                }
            },
        }
    }
    proof {
        assert(ls.take(ls.len() as int) =~= ls);
    }
    Ok(out)
}

proof fn lemma_accounts_stop(ls: Seq<Seq<char>>, k: int, default_queue: Option<u32>)
    requires
        0 <= k <= ls.len(),
        accounts_of(ls.take(k), default_queue) is Err,
    ensures
        accounts_of(ls, default_queue) == accounts_of(ls.take(k), default_queue),
    decreases ls.len() - k,
{
    if k == ls.len() {
        assert(ls.take(k) =~= ls);
    } else {
        assert(ls.take(k + 1).drop_last() =~= ls.take(k));
        lemma_accounts_stop(ls, k + 1, default_queue);
    }
}

/// The Riot IDs of the watch list.
pub fn roster_riot_ids(accounts: &Vec<Account>) -> (r: Vec<String>)
    ensures
        text::texts(r@) == scan::views(accounts@).map_values(|a: AccountV| a.riot_id),
{
    let ghost want = scan::views(accounts@).map_values(|a: AccountV| a.riot_id);
    let mut out: Vec<String> = Vec::new();
    for i in 0..accounts.len()
        invariant
            want == scan::views(accounts@).map_values(|a: AccountV| a.riot_id),
            text::texts(out@) =~= want.take(i as int),
    {
        let ghost before = out@;
        out.push(accounts[i].riot_id.clone());
        proof {
            assert(text::texts(out@) =~= text::texts(before).push(want[i as int]));
        }
    }
    out
}

// --- one account ---------------------------------------------------------------------

/// The queue filter that match-v5 is asked with: an id beyond 16 bits filters
/// by queue 0.
pub fn queue_filter(queue: Option<u32>) -> (r: Option<u16>)
    ensures
        match queue {
            Some(q) => r == Some(
                if q <= u16::MAX {
                    q as u16
                } else {
                    0u16
                },
            ),
            None => r is None,
        },
{
    match queue {
        Some(q) => if q <= 0xffff {
            Some(q as u16)
        } else {
            Some(0)
        },
        None => None,
    }
}

/// A game that is to be posted.
#[derive(Debug)]
pub struct NewGame {
    pub match_id: String,
    pub platform: String,
    pub game_id: u64,
}

/// The mathematical value of a [`NewGame`].
pub struct NewGameV {
    pub match_id: Seq<char>,
    pub platform: Seq<char>,
    pub game_id: u64,
}

impl View for NewGame {
    type V = NewGameV;

    open spec fn view(&self) -> NewGameV {
        NewGameV { match_id: self.match_id@, platform: self.platform@, game_id: self.game_id }
    }
}

/// Whether nothing of a platform was posted for a player yet.
pub open spec fn newcomer(p: ProjectionV, riot_id: Seq<char>, platform: Seq<char>) -> bool {
    forall|other: u64| !#[trigger] p.was_posted(platform, riot_id, other)
}

/// Whether a game is news for a player: it was not posted for them, and it came
/// after the first that was, in whatever queue; to a newcomer every game is.
pub open spec fn is_news(p: ProjectionV, riot_id: Seq<char>, platform: Seq<char>, game_id: u64) -> bool {
    &&& !p.was_posted(platform, riot_id, game_id)
    &&& newcomer(p, riot_id, platform) || exists|other: u64|
        #[trigger] p.was_posted(platform, riot_id, other) && other < game_id
}

/// Whether a game is news for a player.
pub fn news(state: &Projection, riot_id: &str, platform: &str, game_id: u64) -> (r: bool)
    requires
        state.wf(),
    ensures
        r == is_news(state@, riot_id@, platform@, game_id),
{
    if state.is_posted(platform, game_id, riot_id) {
        return false;
    }
    match state.oldest_posted(platform, riot_id) {
        Some(first) => first < game_id,
        None => true,
    }
}

/// The event that remembers which PUUID a player's name resolved to, where the
/// journal does not know it yet.
pub fn resolved_event(state: &Projection, riot_id: &str, puuid: &str) -> (r: Option<AccountResolved>)
    requires
        state.wf(),
    ensures
        ({
            let lower = text::lowercase(riot_id@);
            let known = state@.pins.dom().contains(lower) && state@.pins[lower] == puuid@;
            match r {
                Some(e) => !known && e@ == (ResolvedV { riot_id: riot_id@, puuid: puuid@ }),
                None => known,
            }
        }),
{
    if let Some(pinned) = state.puuid_of(riot_id) {
        if same(pinned.as_str(), puuid) {
            return None;
        }
    }
    Some(AccountResolved { riot_id: riot_id.to_string(), puuid: puuid.to_string() })
}

/// Whether the newest of a player's match ids is to be posted: it is, unless it
/// was for that player, or is older than everything that was.
pub fn new_game(ids: &Vec<String>, state: &Projection, riot_id: &str) -> (r: Result<
    Option<NewGame>,
    String,
>)
    requires
        state.wf(),
    ensures
        match r {
            Ok(Some(g)) => {
                &&& ids@.len() > 0
                &&& g.match_id@ == ids@[0]@
                &&& match_parts(ids@[0]@) == Some((g.platform@, g.game_id))
                &&& is_news(state@, riot_id@, g.platform@, g.game_id)
            },
            Ok(None) => ids@.len() > 0 ==> (match_parts(ids@[0]@) matches Some((platform, game_id))
                && !is_news(state@, riot_id@, platform, game_id)),
            Err(e) => ids@.len() > 0 && match_parts(ids@[0]@) is None && e@ == malformed(ids@[0]@),
        },
{
    match latest_game(ids) {
        Err(e) => Err(e),
        Ok(None) => Ok(None),
        Ok(Some(g)) => if news(state, riot_id, g.platform.as_str(), g.game_id) {
            Ok(Some(g))
        } else {
            Ok(None)
        },
    }
}

/// The newest game of a queue, by the match ids that were told of it.
pub fn latest_game(ids: &Vec<String>) -> (r: Result<Option<NewGame>, String>)
    ensures
        match r {
            Ok(Some(g)) => {
                &&& ids@.len() > 0
                &&& g.match_id@ == ids@[0]@
                &&& match_parts(ids@[0]@) == Some((g.platform@, g.game_id))
            },
            Ok(None) => ids@.len() == 0,
            Err(e) => ids@.len() > 0 && match_parts(ids@[0]@) is None && e@ == malformed(ids@[0]@),
        },
{
    if ids.len() == 0 {
        return Ok(None);
    }
    match split_match_id(ids[0].as_str()) {
        Err(e) => Err(e),
        Ok((platform, game_id)) => Ok(
            Some(
                NewGame { match_id: ids[0].clone(), platform: platform.to_string(), game_id },
            ),
        ),
    }
}

pub open spec fn news_for(p: ProjectionV, riot_id: Seq<char>) -> spec_fn(NewGameV) -> bool {
    |g: NewGameV| is_news(p, riot_id, g.platform, g.game_id)
}

pub open spec fn older() -> spec_fn(NewGameV, NewGameV) -> bool {
    |a: NewGameV, b: NewGameV| a.game_id < b.game_id
}

/// Which of a player's games are to be posted, of the newest of each queue:
/// those that are news, the oldest first; of a newcomer's only the most recent.
pub open spec fn due(p: ProjectionV, riot_id: Seq<char>, latest: Seq<NewGameV>) -> Seq<NewGameV> {
    let ordered = seqs::sorted_by(seqs::keep(latest, news_for(p, riot_id)), older());
    if ordered.len() > 0 && newcomer(p, riot_id, ordered.last().platform) {
        seq![ordered.last()]
    } else {
        ordered
    }
}

struct ByAge;

impl Order<NewGame> for ByAge {
    open spec fn lt(a: NewGame, b: NewGame) -> bool {
        a.game_id < b.game_id
    }

    fn before(a: &NewGame, b: &NewGame) -> (r: bool) {
        a.game_id < b.game_id
    }
}

/// Which of a player's games are to be posted, of the newest of each queue, in
/// the order in which they are posted.
pub fn games_due(latest: Vec<NewGame>, state: &Projection, riot_id: &str) -> (r: Vec<NewGame>)
    requires
        state.wf(),
    ensures
        scan::views(r@) == due(state@, riot_id@, scan::views(latest@)),
{
    let ghost all = scan::views(latest@);
    let ghost p = news_for(state@, riot_id@);
    let mut rest: Vec<NewGame> = latest;
    let mut kept: Vec<NewGame> = Vec::new();
    let ghost count = rest@.len();
    proof {
        assert(scan::views(kept@) =~= seq![]);
        assert(scan::views(rest@) =~= all.skip(0));
        assert(all.take(0) =~= seq![]);
    }
    while rest.len() > 0
        invariant
            state.wf(),
            p == news_for(state@, riot_id@),
            count == all.len(),
            rest@.len() <= count,
            scan::views(rest@) == all.skip(count - rest@.len()),
            scan::views(kept@) == seqs::keep(all.take(count - rest@.len()), p),
        decreases rest@.len(),
    {
        let ghost at = count - rest@.len();
        let ghost was = rest@;
        let g: NewGame = rest.remove(0);
        proof {
            assert(scan::views(was)[0] == g@);
            assert(all[at] == g@);
            assert(all.take(at + 1).drop_last() =~= all.take(at));
            assert forall|i: int| 0 <= i < rest@.len() implies scan::views(rest@)[i]
                == #[trigger] all.skip(at + 1)[i] by {
                assert(scan::views(was)[i + 1] == all.skip(at)[i + 1]);
                assert(rest@[i] == was[i + 1]);
            }
            assert(scan::views(rest@) =~= all.skip(at + 1));
        }
        if news(state, riot_id, g.platform.as_str(), g.game_id) {
            let ghost before = kept@;
            kept.push(g);
            proof {
                assert(scan::views(kept@) =~= scan::views(before).push(g@));
            }
        }
    }
    proof {
        assert(all.take(count as int) =~= all);
        seqs::lemma_sorted_map(
            kept@,
            |x: NewGame| x@,
            |a: NewGame, b: NewGame| ByAge::lt(a, b),
            older(),
        );
    }
    let mut ordered: Vec<NewGame> = sort::<NewGame, ByAge>(kept);
    let ghost sorted = ordered@;
    let count: usize = ordered.len();
    if count == 0 {
        return ordered;
    }
    proof {
        assert(scan::views(sorted).last() == sorted[count - 1]@);
    }
    if state.oldest_posted(ordered[count - 1].platform.as_str(), riot_id).is_some() {
        return ordered;
    }
    let mut one: Vec<NewGame> = Vec::new();
    if let Some(last) = ordered.pop() {
        one.push(last);
    }
    proof {
        assert(scan::views(one@) =~= seq![scan::views(sorted).last()]);
    }
    one
}

/// The arguments a tick-driven post/edit runs with: the archive of one game,
/// one player's perspective, with LP tracking.
pub fn post_cli(cli: &Cli, riot_id: &str, dir: &str, edit: bool) -> (r: Cli)
    ensures
        text_of(r.riot_id) == Some(riot_id@),
        r.region is None,
        r.webhook@ == cli.webhook@,
        r.api_key@ == cli.api_key@,
        r.count == 1,
        r.queue is None,
        r.dump is None,
        text_of(r.from_archive) == Some(dir@),
        r.track_lp,
        r.analyze is None,
        r.edit == edit,
        !r.tick,
        r.accounts@ == cli.accounts@,
        r.archive@ == cli.archive@,
        r.journal@ == cli.journal@,
        r.no_clips == cli.no_clips,
        r.clip_max_tries == cli.clip_max_tries,
        r.clips_per_pass == cli.clips_per_pass,
        !r.journal_dump,
        r.abandon_clips@.len() == 0,
{
    Cli {
        riot_id: Some(riot_id.to_string()),
        region: None,
        webhook: cli.webhook.clone(),
        api_key: cli.api_key.clone(),
        count: 1,
        queue: None,
        dump: None,
        from_archive: Some(dir.to_string()),
        track_lp: true,
        analyze: None,
        edit,
        tick: false,
        accounts: cli.accounts.clone(),
        archive: cli.archive.clone(),
        journal: cli.journal.clone(),
        no_clips: cli.no_clips,
        clip_max_tries: cli.clip_max_tries,
        clips_per_pass: cli.clips_per_pass,
        journal_dump: false,
        abandon_clips: Vec::new(),
    }
}

// --- slugs ---------------------------------------------------------------------------

/// What a byte of a text becomes in a slug.
pub open spec fn slug_char(b: u8) -> char {
    if text::is_alphanumeric(b as char) {
        b as char
    } else {
        '_'
    }
}

/// The slug of a text: every byte but those of ASCII letters and digits becomes
/// `_`, so a character of two bytes becomes two of them.
pub open spec fn slugged(s: Seq<char>) -> Seq<char> {
    encode_utf8(s).map_values(|b: u8| slug_char(b))
}

/// The per-account name of files and markers: every byte that is no ASCII
/// letter or digit becomes `_`.
pub fn slug(riot_id: &str) -> (r: String)
    ensures
        r@ == slugged(riot_id@),
{
    let bytes: &[u8] = riot_id.as_bytes();
    let mut r: String = String::new();
    for i in 0..bytes.len()
        invariant
            bytes@ == encode_utf8(riot_id@),
            r@ =~= slugged(riot_id@).take(i as int),
    {
        let ghost before = r@;
        let c: char = bytes[i] as char;
        if alphanumeric(c) {
            r.push(c);
        } else {
            r.push('_');
        }
        proof {
            assert(r@ =~= before.push(slug_char(bytes@[i as int])));
        }
    }
    r
}

/// A slug is a safe name: one character for each byte of the text, and nothing
/// in it but ASCII letters, digits and `_`; slugging it again changes nothing.
pub proof fn lemma_slugs_are_safe(s: Seq<char>)
    ensures
        slugged(s).len() == encode_utf8(s).len(),
        forall|i: int|
            0 <= i < slugged(s).len() ==> text::is_alphanumeric(#[trigger] slugged(s)[i])
                || slugged(s)[i] == '_',
        slugged(slugged(s)) == slugged(s),
{
    let once = slugged(s);
    assert(is_ascii_chars(once)) by {
        assert forall|i: int| 0 <= i < once.len() implies '\0' <= #[trigger] once[i] <= '\u{7f}' by {
            assert(once[i] == slug_char(encode_utf8(s)[i]));
        }
    }
    is_ascii_chars_encode_utf8(once);
    assert forall|i: int| 0 <= i < once.len() implies slug_char(
        #[trigger] encode_utf8(once)[i],
    ) == once[i] by {
        assert(once[i] == slug_char(encode_utf8(s)[i]));
        assert(once[i] as u8 == encode_utf8(once)[i]);
    }
    assert(slugged(once) =~= once);
}

/// A text of ASCII keeps its letters and digits where they stood, and has `_`
/// everywhere else.
pub proof fn lemma_ascii_slugs(s: Seq<char>)
    requires
        is_ascii_chars(s),
    ensures
        slugged(s).len() == s.len(),
        forall|i: int|
            0 <= i < s.len() ==> #[trigger] slugged(s)[i] == (if text::is_alphanumeric(s[i]) {
                s[i]
            } else {
                '_'
            }),
{
    is_ascii_chars_encode_utf8(s);
    assert forall|i: int| 0 <= i < s.len() implies #[trigger] slugged(s)[i] == (
    if text::is_alphanumeric(s[i]) {
        s[i]
    } else {
        '_'
    }) by {
        assert(s[i] as u8 == encode_utf8(s)[i]);
    }
}

// --- the League client -----------------------------------------------------------------

/// The port and password in a lockfile: its third and fourth `:` fields.
pub open spec fn access_in(lockfile: Seq<char>) -> Option<(Seq<char>, Seq<char>)> {
    let fields = text::pieces(text::trimmed(lockfile), ':');
    if fields.len() < 4 {
        None
    } else {
        Some((fields[2], fields[3]))
    }
}

/// How the running League client is reached, from its lockfile.
pub fn client_access(lockfile: &str) -> (r: Option<(String, String)>)
    ensures
        match r {
            Some(a) => access_in(lockfile@) == Some((a.0@, a.1@)),
            None => access_in(lockfile@) is None,
        },
{
    let fields: Vec<String> = split(trim(lockfile).as_str(), ':');
    let ghost all = text::pieces(text::trimmed(lockfile@), ':');
    proof {
        assert(all.len() == fields@.len());
        assert(forall|i: int| 0 <= i < all.len() ==> all[i] == #[trigger] fields@[i]@);
    }
    if fields.len() < 4 {
        None
    } else {
        Some((fields[2].clone(), fields[3].clone()))
    }
}

/// Where the client tells its gameflow phase.
pub fn phase_url(port: &str) -> (r: String)
    ensures
        r@ == "https://127.0.0.1:"@ + port@ + "/lol-gameflow/v1/gameflow-phase"@,
{
    "https://127.0.0.1:".to_string().concat(port).concat("/lol-gameflow/v1/gameflow-phase")
}

/// Where the client tells which replays it plays.
pub fn replay_url(port: &str) -> (r: String)
    ensures
        r@ == "https://127.0.0.1:"@ + port@ + "/lol-replays/v1/configuration"@,
{
    "https://127.0.0.1:".to_string().concat(port).concat("/lol-replays/v1/configuration")
}

/// What an overview is asked for.
pub fn overview_prompt(riot_id: &str) -> (r: String)
    ensures
        r@ == "Write the post-game overview centered on "@ + riot_id@
            + ". Start from moments.md in the provided directory."@,
{
    "Write the post-game overview centered on ".to_string().concat(riot_id).concat(
        ". Start from moments.md in the provided directory.",
    )
}

/// Whether a gameflow phase leaves the client idle. An unreachable client
/// (League closed) is not.
pub open spec fn is_idle(phase: Option<Seq<char>>) -> bool {
    phase matches Some(p) && (text::holds(p, "None"@) || text::holds(p, "Lobby"@))
}

/// Whether the client sits idle, by the phase it told.
pub fn idle(phase: &Option<String>) -> (r: bool)
    ensures
        r == is_idle(text_of(*phase)),
{
    match phase {
        Some(p) => contains(p.as_str(), "None") || contains(p.as_str(), "Lobby"),
        None => false,
    }
}

// --- laws ------------------------------------------------------------------------------

/// A newly added player backfills exactly one game, their most recent: once it
/// is posted, no queue's newest game is news any more.
pub proof fn lemma_backfills_one_game(
    p: ProjectionV,
    riot_id: Seq<char>,
    latest: Seq<NewGameV>,
    e: PostedV,
)
    requires
        latest.len() > 0,
        forall|i: int|
            0 <= i < latest.len() ==> (#[trigger] latest[i]).platform == latest[0].platform,
        newcomer(p, riot_id, latest[0].platform),
        p.poster(e) == p.identity(riot_id),
        e.platform == due(p, riot_id, latest)[0].platform,
        e.game_id == due(p, riot_id, latest)[0].game_id,
    ensures
        due(p, riot_id, latest).len() == 1,
        latest.contains(due(p, riot_id, latest)[0]),
        forall|i: int|
            0 <= i < latest.len() ==> (#[trigger] latest[i]).game_id <= due(
                p,
                riot_id,
                latest,
            )[0].game_id,
        due(p.after_posted(e), riot_id, latest) == Seq::<NewGameV>::empty(),
{
    broadcast use vstd::seq_lib::group_to_multiset_ensures;

    let pred = news_for(p, riot_id);
    let kept = seqs::keep(latest, pred);
    let ordered = seqs::sorted_by(kept, older());
    seqs::lemma_sort_orders(kept, older());
    seqs::lemma_sort_permutes(kept, older());
    seqs::lemma_sorted_len(kept, older());
    assert forall|i: int| 0 <= i < latest.len() implies pred(#[trigger] latest[i]) by {
        assert(!p.was_posted(latest[i].platform, riot_id, latest[i].game_id));
    }
    lemma_kept(latest, pred);
    assert(kept.contains(latest[0]));
    let top = ordered.last();
    assert(kept.contains(top)) by {
        assert(ordered.contains(ordered[ordered.len() - 1]));
        assert(ordered.to_multiset().count(top) > 0);
    }
    assert(latest.contains(top));
    let t = choose|t: int| 0 <= t < latest.len() && latest[t] == top;
    assert(latest[t].platform == latest[0].platform);
    assert forall|i: int| 0 <= i < latest.len() implies (#[trigger] latest[i]).game_id
        <= top.game_id by {
        assert(pred(latest[i]));
        assert(kept.contains(latest[i]));
        assert(kept.to_multiset().count(latest[i]) > 0);
        assert(ordered.contains(latest[i]));
        let j = choose|j: int| 0 <= j < ordered.len() && ordered[j] == latest[i];
        assert(j == ordered.len() - 1 || !older()(ordered[ordered.len() - 1], ordered[j]));
    }
    let q = p.after_posted(e);
    let after = news_for(q, riot_id);
    assert(q.was_posted(top.platform, riot_id, top.game_id));
    assert forall|i: int| 0 <= i < latest.len() implies !after(#[trigger] latest[i]) by {
        assert forall|other: u64| #[trigger]
            q.was_posted(latest[i].platform, riot_id, other) implies other == top.game_id by {
            assert(!p.was_posted(latest[i].platform, riot_id, other));
        }
    }
    lemma_kept_nothing(latest, after);
}

/// No post makes a later game old: a game that is news for a player stays news
/// until it is posted itself, whatever else is posted for them, as long as they
/// are no newcomer. So a game that was missed while another queue's was posted
/// is not lost.
pub proof fn lemma_posts_keep_news(
    p: ProjectionV,
    riot_id: Seq<char>,
    platform: Seq<char>,
    game_id: u64,
    e: PostedV,
)
    requires
        p.poster(e) == p.identity(riot_id),
        is_news(p, riot_id, platform, game_id),
        !newcomer(p, riot_id, platform),
        (e.platform, e.game_id) != (platform, game_id),
    ensures
        is_news(p.after_posted(e), riot_id, platform, game_id),
        !newcomer(p.after_posted(e), riot_id, platform),
{
    let q = p.after_posted(e);
    let first = choose|other: u64|
        #[trigger] p.was_posted(platform, riot_id, other) && other < game_id;
    assert(q.was_posted(platform, riot_id, first));
}

proof fn lemma_kept(s: Seq<NewGameV>, p: spec_fn(NewGameV) -> bool)
    ensures
        forall|i: int| 0 <= i < s.len() && p(#[trigger] s[i]) ==> seqs::keep(s, p).contains(s[i]),
        forall|x: NewGameV| #[trigger] seqs::keep(s, p).contains(x) ==> s.contains(x),
    decreases s.len(),
{
    if s.len() > 0 {
        let t = s.drop_last();
        lemma_kept(t, p);
        let kept = seqs::keep(s, p);
        let before = seqs::keep(t, p);
        assert forall|i: int| 0 <= i < s.len() && p(#[trigger] s[i]) implies kept.contains(s[i]) by {
            if i < t.len() {
                assert(t[i] == s[i]);
                let j = choose|j: int| 0 <= j < before.len() && before[j] == s[i];
                assert(kept[j] == s[i]);
            } else {
                assert(kept[kept.len() - 1] == s[i]);
            }
        }
        assert forall|x: NewGameV| #[trigger] kept.contains(x) implies s.contains(x) by {
            let j = choose|j: int| 0 <= j < kept.len() && kept[j] == x;
            if j < before.len() {
                assert(before[j] == x);
                assert(before.contains(x));
                let i = choose|i: int| 0 <= i < t.len() && t[i] == x;
                assert(s[i] == x);
            } else {
                assert(s[s.len() - 1] == x);
            }
        }
    }
}

proof fn lemma_kept_nothing(s: Seq<NewGameV>, p: spec_fn(NewGameV) -> bool)
    requires
        forall|i: int| 0 <= i < s.len() ==> !p(#[trigger] s[i]),
    ensures
        seqs::keep(s, p) == Seq::<NewGameV>::empty(),
    decreases s.len(),
{
    if s.len() > 0 {
        let t = s.drop_last();
        assert forall|i: int| 0 <= i < t.len() implies !p(#[trigger] t[i]) by {
            assert(t[i] == s[i]);
        }
        lemma_kept_nothing(t, p);
        assert(!p(s[s.len() - 1]));
    }
}

/// Reading a match id gives back the platform and the number it was made of.
pub proof fn lemma_match_ids_split_back(platform: Seq<char>, game_id: u64)
    requires
        !platform.contains('_'),
    ensures
        match_parts(platform + "_"@ + text::digits(game_id as nat)) == Some((platform, game_id)),
{
    reveal_strlit("_");
    let id = platform + "_"@ + text::digits(game_id as nat);
    assert(id[platform.len() as int] == '_');
    text::lemma_find(id, '_');
    assert forall|i: int| 0 <= i < platform.len() implies id[i] != '_' by {
        assert(id[i] == platform[i]);
    }
    assert(text::find(id, '_') == Some(platform.len() as int));
    assert(id.take(platform.len() as int) =~= platform);
    assert(id.skip(platform.len() as int + 1) =~= text::digits(game_id as nat));
    text::lemma_digits_read_back(game_id as nat, u64::MAX as nat);
}

} // verus!
