//! What the watch list says, which games are posted, and where a platform's
//! requests go.

use vstd::prelude::*;

use crate::analysis::{self, MeasuredV};
use crate::journal::ProjectionV;
use crate::json::NumberTree;
use crate::cli::{self, Cli, Mode};
use crate::riot::{Platform, Regional};
use crate::tick::{self, AccountV, LineV, NewGameV};
use crate::timeline::KillV;
use crate::{riot, seqs, text, text_laws};

verus! {

// --- places ------------------------------------------------------------------

/// Whether a kill has the whole coordinates `x` and `y`, which are exact.
pub open spec fn at_place(k: KillV, x: i64, y: i64) -> bool {
    &&& k.x == NumberTree::Int(x)
    &&& k.y == NumberTree::Int(y)
    &&& -0x20_0000_0000_0000 <= x <= 0x20_0000_0000_0000
    &&& -0x20_0000_0000_0000 <= y <= 0x20_0000_0000_0000
}

/// Two kills are near each other exactly if they are at most 2000 units apart.
pub proof fn lemma_near_is_2000_units(
    kills: Seq<KillV>,
    m: MeasuredV,
    i: int,
    j: int,
    a: (i64, i64),
    b: (i64, i64),
)
    requires
        0 <= i < kills.len(),
        0 <= j < kills.len(),
        at_place(kills[i], a.0, a.1),
        at_place(kills[j], b.0, b.1),
    ensures
        analysis::nearness(kills, m).len() == kills.len(),
        analysis::nearness(kills, m)[i].len() == kills.len(),
        analysis::nearness(kills, m)[i][j] <==> (a.0 - b.0) * (a.0 - b.0) + (a.1 - b.1) * (a.1
            - b.1) <= 4_000_000,
        analysis::spots(kills, m)[i] == "("@ + text::dec(a.0 as int) + ","@ + text::dec(a.1 as int)
            + ")"@,
{
}

// --- the watch list ----------------------------------------------------------

/// Whether a field of a line is written as it is read: without a `|`, not
/// empty, and without white space around it.
pub open spec fn plain_field(s: Seq<char>) -> bool {
    &&& !s.contains('|')
    &&& s.len() > 0
    &&& text::trimmed(s) == s
}

proof fn lemma_fields(a: Seq<char>, b: Seq<char>, rest: Seq<char>)
    requires
        plain_field(a),
        plain_field(b),
    ensures
        tick::trimmed_all(text::pieces(a + seq!['|'] + b, '|')) == seq![a, b],
        tick::trimmed_all(text::pieces(a + seq!['|'] + b + seq!['|'] + rest, '|')) == seq![a, b]
            + tick::trimmed_all(text::pieces(rest, '|')),
{
    text_laws::lemma_pieces(a, '|', b);
    text_laws::lemma_pieces(b, '|', rest);
    assert(tick::trimmed_all(text::pieces(a + seq!['|'] + b, '|')) =~= seq![a, b]);
    let more = b + seq!['|'] + rest;
    text_laws::lemma_pieces(a, '|', more);
    assert(a + seq!['|'] + b + seq!['|'] + rest =~= a + seq!['|'] + more);
    assert(tick::trimmed_all(text::pieces(a + seq!['|'] + more, '|')) =~= seq![a, b]
        + tick::trimmed_all(text::pieces(rest, '|')));
}

/// A line names a player and a region; without a queue list it is about the
/// default queue, which is 420 where nothing else is asked for.
pub proof fn lemma_line_without_queues(
    riot_id: Seq<char>,
    region: Seq<char>,
    default_queue: Option<u32>,
)
    requires
        plain_field(riot_id),
        plain_field(region),
        riot_id[0] != '#',
    ensures
        tick::line_of(riot_id + seq!['|'] + region, default_queue) == LineV::Account(
            AccountV {
                riot_id,
                region,
                queues: seq![
                    Some(
                        match default_queue {
                            Some(q) => q,
                            None => 420u32,
                        },
                    ),
                ],
            },
        ),
{
    lemma_fields(riot_id, region, seq![]);
    let line = riot_id + seq!['|'] + region;
    assert(line[0] == riot_id[0]);
}

/// A line with a queue list is about those queues, or cannot be read where one
/// of them names none.
pub proof fn lemma_line_with_queues(
    riot_id: Seq<char>,
    region: Seq<char>,
    list: Seq<char>,
    default_queue: Option<u32>,
)
    requires
        plain_field(riot_id),
        plain_field(region),
        plain_field(list),
        riot_id[0] != '#',
    ensures
        tick::line_of(riot_id + seq!['|'] + region + seq!['|'] + list, default_queue) == match tick::queues_named(
            tick::entries(list),
        ) {
            Some(queues) => LineV::Account(AccountV { riot_id, region, queues }),
            None => LineV::BadQueues,
        },
{
    lemma_fields(riot_id, region, list);
    text_laws::lemma_pieces(list, '|', seq![]);
    let line = riot_id + seq!['|'] + region + seq!['|'] + list;
    assert(line[0] == riot_id[0]);
    assert(tick::trimmed_all(text::pieces(list, '|')) =~= seq![list]);
    assert(seq![riot_id, region] + seq![list] =~= seq![riot_id, region, list]);
}

/// A line that is empty or starts with `#` says nothing.
pub proof fn lemma_comments(line: Seq<char>, default_queue: Option<u32>)
    requires
        line.len() == 0 || line[0] == '#',
    ensures
        tick::line_of(line, default_queue) == LineV::Nothing,
{
}

/// An entry of a queue list names a queue by its number, or every queue by
/// `all`.
pub proof fn lemma_queue_entries(n: u32)
    ensures
        tick::queue_named("all"@) == Some(None::<u32>),
        tick::queue_named(text::digits(n as nat)) == Some(Some(n)),
{
    text::lemma_digits_read_back(n as nat, u32::MAX as nat);
    reveal_strlit("all");
    let d = text::digits(n as nat);
    if d == "all"@ {
        assert("all"@.last() == 'l');
        text_laws::lemma_digits(n as nat);
    }
}

/// The queues of a list come in its order, one for each entry.
pub proof fn lemma_queues_in_order(entries: Seq<Seq<char>>)
    ensures
        match tick::queues_named(entries) {
            Some(queues) => {
                &&& queues.len() == entries.len()
                &&& forall|i: int|
                    0 <= i < entries.len() ==> tick::queue_named(#[trigger] entries[i]) == Some(
                        queues[i],
                    )
            },
            None => exists|i: int|
                0 <= i < entries.len() && tick::queue_named(#[trigger] entries[i]) is None,
        },
    decreases entries.len(),
{
    if entries.len() > 0 {
        let fewer = entries.drop_last();
        lemma_queues_in_order(fewer);
        assert forall|i: int| 0 <= i < fewer.len() implies fewer[i] == #[trigger] entries[i] by {}
        let n = entries.len() - 1;
        assert(entries[n] == entries.last());
        if tick::queues_named(entries) is None && tick::queue_named(entries[n]) is Some {
            let i = choose|i: int|
                0 <= i < fewer.len() && tick::queue_named(#[trigger] fewer[i]) is None;
            assert(entries[i] == fewer[i]);
        }
    }
}

/// The accounts of the watch list come in its order, one for each line that
/// names one; the first line whose queues cannot be read is the error.
pub proof fn lemma_accounts_in_order(
    lines: Seq<Seq<char>>,
    line: Seq<char>,
    default_queue: Option<u32>,
)
    ensures
        ({
            let before = tick::accounts_of(lines, default_queue);
            let after = tick::accounts_of(lines.push(line), default_queue);
            match (before, tick::line_of(text::trimmed(line), default_queue)) {
                (Err(e), _) => after == before,
                (Ok(v), LineV::Nothing) => after == before,
                (Ok(v), LineV::BadQueues) => after == Err::<Seq<AccountV>, Seq<char>>(
                    text::trimmed(line),
                ),
                (Ok(v), LineV::Account(a)) => after == Ok::<Seq<AccountV>, Seq<char>>(v.push(a)),
            }
        }),
{
    assert(lines.push(line).drop_last() =~= lines);
}

// --- news --------------------------------------------------------------------

/// The games that are due are news, each one of the newest of a queue, and the
/// oldest comes first.
pub proof fn lemma_due_games_are_news(p: ProjectionV, riot_id: Seq<char>, latest: Seq<NewGameV>)
    ensures
        ({
            let due = tick::due(p, riot_id, latest);
            &&& forall|i: int|
                0 <= i < due.len() ==> latest.contains(#[trigger] due[i]) && !p.was_posted(
                    due[i].platform,
                    riot_id,
                    due[i].game_id,
                )
            &&& forall|i: int, j: int|
                0 <= i < j < due.len() ==> (#[trigger] due[i]).game_id <= (
                #[trigger] due[j]).game_id
        }),
{
    let news = tick::news_for(p, riot_id);
    let kept = seqs::keep(latest, news);
    let ordered = seqs::sorted_by(kept, tick::older());
    seqs::lemma_keep(latest, news);
    seqs::lemma_sort_orders(kept, tick::older());
    assert forall|i: int| 0 <= i < ordered.len() implies latest.contains(#[trigger] ordered[i])
        && !p.was_posted(ordered[i].platform, riot_id, ordered[i].game_id) by {
        seqs::lemma_sort_contains(kept, tick::older(), ordered[i]);
        assert(ordered.contains(ordered[i]));
        let k = choose|k: int| 0 <= k < kept.len() && kept[k] == ordered[i];
        assert(news(kept[k]) && latest.contains(kept[k]));
    }
    assert forall|i: int, j: int| 0 <= i < j < ordered.len() implies (#[trigger] ordered[i]).game_id
        <= (#[trigger] ordered[j]).game_id by {
        assert(!tick::older()(ordered[j], ordered[i]));
    }
    if ordered.len() > 0 {
        assert(ordered[ordered.len() - 1] == ordered.last());
    }
}

/// A player of whom something was posted on every platform they play on gets
/// every game that came after the first of it: none of the newest is left out.
pub proof fn lemma_no_news_is_left_out(
    p: ProjectionV,
    riot_id: Seq<char>,
    latest: Seq<NewGameV>,
    i: int,
    first: u64,
)
    requires
        0 <= i < latest.len(),
        forall|j: int|
            0 <= j < latest.len() ==> !tick::newcomer(p, riot_id, (#[trigger] latest[j]).platform),
        !p.was_posted(latest[i].platform, riot_id, latest[i].game_id),
        p.was_posted(latest[i].platform, riot_id, first),
        first < latest[i].game_id,
    ensures
        tick::due(p, riot_id, latest).contains(latest[i]),
{
    let news = tick::news_for(p, riot_id);
    let kept = seqs::keep(latest, news);
    let ordered = seqs::sorted_by(kept, tick::older());
    seqs::lemma_keep(latest, news);
    assert(news(latest[i]));
    seqs::lemma_sort_contains(kept, tick::older(), latest[i]);
    assert(ordered.contains(latest[i]));
    let last = ordered.last();
    assert(ordered[ordered.len() - 1] == last);
    seqs::lemma_sort_contains(kept, tick::older(), last);
    assert(ordered.contains(last));
    let k = choose|k: int| 0 <= k < kept.len() && kept[k] == last;
    assert(latest.contains(kept[k]));
    let j = choose|j: int| 0 <= j < latest.len() && latest[j] == last;
    assert(!tick::newcomer(p, riot_id, latest[j].platform));
}

/// What was posted is no news, and neither is what is older than everything
/// that was posted of its platform.
pub proof fn lemma_history_is_no_news(
    p: ProjectionV,
    riot_id: Seq<char>,
    platform: Seq<char>,
    game_id: u64,
    some: u64,
)
    requires
        p.was_posted(platform, riot_id, some),
    ensures
        p.was_posted(platform, riot_id, game_id) ==> !tick::is_news(p, riot_id, platform, game_id),
        (forall|other: u64| #[trigger]
            p.was_posted(platform, riot_id, other) ==> game_id < other) ==> !tick::is_news(
            p,
            riot_id,
            platform,
            game_id,
        ),
        !p.was_posted(platform, riot_id, game_id) && some < game_id ==> tick::is_news(
            p,
            riot_id,
            platform,
            game_id,
        ),
{
}

/// The port and the password of a lockfile are its third and its fourth field.
pub proof fn lemma_lockfile(
    name: Seq<char>,
    pid: Seq<char>,
    port: Seq<char>,
    password: Seq<char>,
    rest: Seq<char>,
)
    requires
        !name.contains(':'),
        !pid.contains(':'),
        !port.contains(':'),
        !password.contains(':'),
        ({
            let file = name + seq![':'] + (pid + seq![':'] + (port + seq![':'] + (password + seq![
                ':',
            ] + rest)));
            text::trimmed(file) == file
        }),
    ensures
        tick::access_in(
            name + seq![':'] + (pid + seq![':'] + (port + seq![':'] + (password + seq![':']
                + rest))),
        ) == Some((port, password)),
{
    let d = password + seq![':'] + rest;
    let c = port + seq![':'] + d;
    let b = pid + seq![':'] + c;
    text_laws::lemma_pieces(password, ':', rest);
    text_laws::lemma_pieces(port, ':', d);
    text_laws::lemma_pieces(pid, ':', c);
    text_laws::lemma_pieces(name, ':', b);
    let fields = text::pieces(name + seq![':'] + b, ':');
    assert(fields[2] == port);
    assert(fields[3] == password);
}

// --- platforms ---------------------------------------------------------------

/// Each platform's requests go to the cluster of its part of the world.
pub proof fn lemma_clusters(p: Platform)
    ensures
        p.cluster() == Regional::Americas <==> p == Platform::Na1 || p == Platform::Br1 || p
            == Platform::La1 || p == Platform::La2,
        p.cluster() == Regional::Asia <==> p == Platform::Kr || p == Platform::Jp1,
        p.cluster() == Regional::Europe <==> p == Platform::Euw1 || p == Platform::Eun1 || p
            == Platform::Tr1 || p == Platform::Ru,
        p.cluster() == Regional::Sea <==> p == Platform::Oc1,
        Regional::Americas.host() == "americas"@,
        Regional::Asia.host() == "asia"@,
        Regional::Europe.host() == "europe"@,
        Regional::Sea.host() == "sea"@,
{
}

/// The platforms' own codes.
pub proof fn lemma_codes()
    ensures
        Platform::Na1.code() == "na1"@,
        Platform::Euw1.code() == "euw1"@,
        Platform::Eun1.code() == "eun1"@,
        Platform::Kr.code() == "kr"@,
        Platform::Br1.code() == "br1"@,
        Platform::Jp1.code() == "jp1"@,
        Platform::La1.code() == "la1"@,
        Platform::La2.code() == "la2"@,
        Platform::Oc1.code() == "oc1"@,
        Platform::Tr1.code() == "tr1"@,
        Platform::Ru.code() == "ru"@,
{
}

/// A platform's web slug names it too, but for the two of Latin America, which
/// go by names of their own.
pub proof fn lemma_slugs_name_platforms(p: Platform)
    requires
        p != Platform::La1,
        p != Platform::La2,
    ensures
        riot::platform_named(p.slug()) == Some(p),
        Platform::La1.slug() == "lan"@,
        Platform::La2.slug() == "las"@,
{
    reveal_strlit("na1");
    reveal_strlit("na");
    reveal_strlit("euw1");
    reveal_strlit("euw");
    reveal_strlit("eun1");
    reveal_strlit("eune");
    reveal_strlit("kr");
    reveal_strlit("br1");
    reveal_strlit("br");
    reveal_strlit("jp1");
    reveal_strlit("jp");
    reveal_strlit("la1");
    reveal_strlit("la2");
    reveal_strlit("oc1");
    reveal_strlit("oce");
    reveal_strlit("tr1");
    reveal_strlit("tr");
    reveal_strlit("ru");
    let s = p.slug();
    assert("na"@.len() == 2 && "na"@[0] == 'n');
    assert("euw"@.len() == 3 && "euw"@[0] == 'e' && "euw"@[2] == 'w');
    assert("eune"@.len() == 4 && "eune"@[2] == 'n' && "eune"@[3] == 'e');
    assert("euw1"@.len() == 4 && "euw1"@[2] == 'w');
    assert("eun1"@.len() == 4 && "eun1"@[3] == '1');
    assert("na1"@.len() == 3 && "na1"@[0] == 'n');
    assert("kr"@.len() == 2 && "kr"@[0] == 'k');
    assert("br"@.len() == 2 && "br"@[0] == 'b');
    assert("br1"@.len() == 3 && "br1"@[0] == 'b');
    assert("jp"@.len() == 2 && "jp"@[0] == 'j');
    assert("jp1"@.len() == 3 && "jp1"@[0] == 'j');
    assert("la1"@.len() == 3 && "la1"@[0] == 'l');
    assert("la2"@.len() == 3 && "la2"@[0] == 'l');
    assert("oce"@.len() == 3 && "oce"@[0] == 'o' && "oce"@[2] == 'e');
    assert("oc1"@.len() == 3 && "oc1"@[2] == '1');
    assert("tr"@.len() == 2 && "tr"@[0] == 't');
    assert("tr1"@.len() == 3 && "tr1"@[0] == 't');
    assert("ru"@.len() == 2 && "ru"@[0] == 'r');
}

// --- queue lists -------------------------------------------------------------

/// A queue list is cut at its commas; white space and empty entries do not
/// count.
pub proof fn lemma_queue_lists(a: Seq<char>, b: Seq<char>)
    requires
        !a.contains(','),
    ensures
        text::trimmed(a).len() > 0 ==> tick::entries(a + seq![','] + b) == seq![text::trimmed(a)]
            + tick::entries(b) && tick::entries(a) == seq![text::trimmed(a)],
        text::trimmed(a).len() == 0 ==> tick::entries(a + seq![','] + b) == tick::entries(b)
            && tick::entries(a).len() == 0,
{
    text_laws::lemma_pieces(a, ',', b);
    let p = tick::not_empty();
    let rest = tick::trimmed_all(text::pieces(b, ','));
    let all = tick::trimmed_all(text::pieces(a + seq![','] + b, ','));
    let one = seq![text::trimmed(a)];
    assert(all =~= one + rest);
    lemma_keep_joined(one, rest, p);
    assert(tick::trimmed_all(text::pieces(a, ',')) =~= one);
    assert(one.drop_last() =~= seq![]);
    assert(seqs::keep(one.drop_last(), p) =~= seq![]);
    assert(seqs::keep(one, p) =~= if text::trimmed(a).len() > 0 {
        one
    } else {
        seq![]
    });
    assert(seq![] + seqs::keep(rest, p) =~= seqs::keep(rest, p));
}

proof fn lemma_keep_joined(
    a: Seq<Seq<char>>,
    b: Seq<Seq<char>>,
    p: spec_fn(Seq<char>) -> bool,
)
    ensures
        seqs::keep(a + b, p) == seqs::keep(a, p) + seqs::keep(b, p),
    decreases b.len(),
{
    if b.len() == 0 {
        assert(a + b =~= a);
        assert(seqs::keep(a, p) + seqs::keep(b, p) =~= seqs::keep(a, p));
    } else {
        assert((a + b).drop_last() =~= a + b.drop_last());
        assert((a + b).last() == b.last());
        lemma_keep_joined(a, b.drop_last(), p);
        assert(seqs::keep(a + b, p) =~= seqs::keep(a, p) + seqs::keep(b, p));
    }
}

// --- arguments ---------------------------------------------------------------

/// What the arguments ask for: a tick before all else, then a dump of the
/// journal, then abandoning clips, then an archive, then an analysis of a
/// player; and otherwise the player's matches, dumped or posted, which needs a
/// region that is known and a player.
pub proof fn lemma_modes(cli: Cli)
    ensures
        cli.tick ==> cli::planned(cli) == Ok::<Mode, Seq<char>>(Mode::Tick),
        ({
            let plain = !cli.tick && !cli.journal_dump && cli.abandon_clips@.len() == 0;
            let bare = plain && cli.from_archive is None && cli.analyze is None;
            &&& !cli.tick && cli.journal_dump ==> cli::planned(cli) == Ok::<Mode, Seq<char>>(
                Mode::JournalDump,
            )
            &&& !cli.tick && !cli.journal_dump && cli.abandon_clips@.len() > 0 ==> cli::planned(cli)
                == Ok::<Mode, Seq<char>>(Mode::AbandonClips)
            &&& plain && cli.from_archive is Some ==> cli::planned(cli) == Ok::<Mode, Seq<char>>(
                Mode::FromArchive,
            )
            &&& plain && cli.from_archive is None && cli.analyze is Some ==> (cli::planned(cli)
                == Ok::<Mode, Seq<char>>(Mode::Analyze) <==> cli.riot_id is Some)
            &&& bare && cli.region is None ==> cli::planned(cli) is Err
            &&& bare && cli.riot_id is None ==> cli::planned(cli) is Err
            &&& bare && cli.riot_id is Some ==> match cli.region {
                Some(region) => riot::platform_named(text::ascii_lowered(region@)) is Some
                    ==> cli::planned(cli) == Ok::<Mode, Seq<char>>(
                    if cli.dump is Some {
                        Mode::Dump
                    } else {
                        Mode::Post
                    },
                ),
                None => true,
            }
        }),
{
}

} // verus!
