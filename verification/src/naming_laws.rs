//! What names, links and the members of a tree come to, and in which order jobs
//! are listed.

use vstd::prelude::*;
use vstd::utf8::*;

use crate::analysis::{self, MeasuredV};
use crate::game::{GameV, ParticipantV};
use crate::import::{self, ArchivedV};
use crate::journal::{self, Listed};
use crate::json::{NumberTree, Tree};
use crate::stats::{self, ContextV};
use crate::tick::{self, AccountV};
use crate::timeline::KillV;
use crate::{discord, seqs, text, text_laws};

verus! {

// --- characters --------------------------------------------------------------

/// Whether a character is one of a to z, A to Z and 0 to 9.
pub open spec fn is_plain(c: char) -> bool {
    ||| 'a' as u32 <= c as u32 <= 'z' as u32
    ||| 'A' as u32 <= c as u32 <= 'Z' as u32
    ||| '0' as u32 <= c as u32 <= '9' as u32
}

/// Of ASCII, the blank, the tab and the line breaks are space, and nothing else.
pub proof fn lemma_ascii_spaces(c: char)
    requires
        c as u32 <= 0x7f,
    ensures
        text::is_space(c) <==> c == ' ' || c == '\t' || c == '\n' || c == '\r' || c as u32 == 0xb
            || c as u32 == 0xc,
{
}

/// Changing the case moves a letter by the distance of the two alphabets, and
/// leaves everything else alone.
pub proof fn lemma_ascii_case(c: char)
    ensures
        'A' as u32 <= c as u32 <= 'Z' as u32 ==> text::ascii_lower(c) as u32 - 'a' as u32
            == c as u32 - 'A' as u32 && text::ascii_upper(text::ascii_lower(c)) == c,
        'a' as u32 <= c as u32 <= 'z' as u32 ==> text::ascii_upper(c) as u32 - 'A' as u32
            == c as u32 - 'a' as u32 && text::ascii_lower(text::ascii_upper(c)) == c,
        !('A' as u32 <= c as u32 <= 'Z' as u32) ==> text::ascii_lower(c) == c,
        !('a' as u32 <= c as u32 <= 'z' as u32) ==> text::ascii_upper(c) == c,
{
}

/// The slug of a text of ASCII keeps letters and digits where they stood, and
/// has `_` for anything else.
pub proof fn lemma_slug(s: Seq<char>, i: int)
    requires
        is_ascii_chars(s),
        0 <= i < s.len(),
    ensures
        tick::slugged(s).len() == s.len(),
        is_plain(s[i]) ==> tick::slugged(s)[i] == s[i],
        !is_plain(s[i]) ==> tick::slugged(s)[i] == '_',
{
    tick::lemma_ascii_slugs(s);
    assert(tick::slugged(s)[i] == tick::slugged(s)[i]);
}

// --- links -------------------------------------------------------------------

/// The number that a hexadecimal digit stands for; letters are upper case.
pub open spec fn hex_value(c: char) -> int {
    if '0' as u32 <= c as u32 <= '9' as u32 {
        c as u32 - '0' as u32
    } else if 'A' as u32 <= c as u32 <= 'F' as u32 {
        c as u32 - 'A' as u32 + 10
    } else {
        -1
    }
}

/// In a link, letters, digits and `-`, `.`, `_`, `~` stand for themselves; any
/// other byte is `%` and the two digits that give its value back.
pub proof fn lemma_percent_byte(b: u8)
    ensures
        ({
            let e = stats::percent_encoded(seq![b]);
            let c = b as char;
            let kept = is_plain(c) || c == '-' || c == '.' || c == '_' || c == '~';
            &&& kept ==> e == seq![c]
            &&& !kept ==> e.len() == 3 && e[0] == '%' && hex_value(e[1]) * 16 + hex_value(e[2]) == b
                && hex_value(e[1]) >= 0 && hex_value(e[2]) >= 0
        }),
{
    let one = seq![b];
    assert(one.drop_last() =~= Seq::<u8>::empty());
    assert(stats::percent_encoded(one.drop_last()) =~= Seq::<char>::empty());
    assert(stats::percent_encoded(one) =~= stats::percent_byte(b));
    assert(b as int == (b as int / 16) * 16 + b as int % 16);
    assert(0 <= b as int / 16 < 16);
}

/// What follows in a text follows in its encoding.
pub proof fn lemma_percent_joins(a: Seq<u8>, b: Seq<u8>)
    ensures
        stats::percent_encoded(a + b) == stats::percent_encoded(a) + stats::percent_encoded(b),
    decreases b.len(),
{
    if b.len() == 0 {
        assert(a + b =~= a);
        assert(stats::percent_encoded(a) + stats::percent_encoded(b) =~= stats::percent_encoded(a));
    } else {
        assert((a + b).drop_last() =~= a + b.drop_last());
        lemma_percent_joins(a, b.drop_last());
        assert(stats::percent_encoded(a + b) =~= stats::percent_encoded(a)
            + stats::percent_encoded(b));
    }
}

/// The picture is that of the champion's number, `-1` for an unknown one, and
/// the profile is that of the name and the tag that the summary shows, in the
/// region asked for.
pub proof fn lemma_summary_links(
    g: GameV,
    p: ParticipantV,
    ctx: ContextV,
    number: Option<i32>,
    title: Option<Seq<char>>,
    name: Seq<char>,
    tag: Seq<char>,
)
    requires
        name.len() > 0,
        tag.len() > 0,
        p.riot_id_game_name == Some(name) || (name == ctx.fallback_name && (p.riot_id_game_name
            is None || p.riot_id_game_name->0.len() == 0)),
        p.riot_id_tagline == Some(tag) || (tag == ctx.fallback_tag && (p.riot_id_tagline is None
            || p.riot_id_tagline->0.len() == 0)),
    ensures
        ({
            let s = stats::summary_of(g, p, ctx, number, title);
            let icons =
                "https://raw.communitydragon.org/latest/plugins/rcp-be-lol-game-data/global/default/v1/champion-icons/"@;
            &&& s.player == name + " #"@ + tag
            &&& number matches Some(n) ==> s.icon_url == icons + text::dec(n as int) + ".png"@
            &&& number is None ==> s.icon_url == icons + text::dec(-1) + ".png"@
            &&& s.profile_url == "https://www.op.gg/summoners/"@ + ctx.region_slug + "/"@
                + stats::percent_encoded(encode_utf8(name)) + "-"@ + stats::percent_encoded(
                encode_utf8(tag),
            )
            &&& p.team_id != 100 && p.team_id != 200 ==> s.side == ""@
        }),
{
}

/// The kind of a file is what follows the last dot of its name, the whole name
/// without one.
pub proof fn lemma_extension(stem: Seq<char>, kind: Seq<char>)
    requires
        !kind.contains('.'),
    ensures
        discord::extension(stem + seq!['.'] + kind) == kind,
        discord::extension(kind) == kind,
{
    text_laws::lemma_rcut_once(stem, '.', kind);
}

// --- trees -------------------------------------------------------------------

/// The member of an object is the value of the first entry with that key, and
/// there is none without such an entry; nothing else has members.
pub proof fn lemma_members(t: Tree, key: Seq<char>)
    ensures
        match t {
            Tree::Obj(m) => match t.get(key) {
                Some(v) => exists|i: int|
                    0 <= i < m.len() && #[trigger] m[i] == (key, v) && forall|j: int|
                        0 <= j < i ==> (#[trigger] m[j]).0 != key,
                None => forall|j: int| 0 <= j < m.len() ==> (#[trigger] m[j]).0 != key,
            },
            _ => t.get(key) is None,
        },
        forall|n: i64|
            t.int_at(key) == Some(n) <==> #[trigger] t.get(key) == Some(
                Tree::Num(NumberTree::Int(n)),
            ),
        forall|s: Seq<char>|
            t.str_at(key) == Some(s) <==> #[trigger] t.get(key) == Some(Tree::Str(s)),
        t.int_at(key) is None ==> t.int_or_zero(key) == 0,
        t.int_at(key) matches Some(n) ==> t.int_or_zero(key) == n,
{
    if let Tree::Obj(m) = t {
        let p = |e: (Seq<char>, Tree)| e.0 == key;
        assert(p =~= crate::json::called(key));
        seqs::lemma_first_is(m, p);
        match seqs::first_where(m, p) {
            Some(i) => {
                assert(p(m[i]));
                assert(m[i] == (key, m[i].1));
                assert forall|j: int| 0 <= j < i implies (#[trigger] m[j]).0 != key by {
                    assert(!p(m[j]));
                }
            },
            None => {
                assert forall|j: int| 0 <= j < m.len() implies (#[trigger] m[j]).0 != key by {
                    assert(!p(m[j]));
                }
            },
        }
    }
}

// --- where kills happened ----------------------------------------------------

/// A kill at whole coordinates is told at them, whatever was measured; any other
/// is told where it was measured.
pub proof fn lemma_spots(kills: Seq<KillV>, m: MeasuredV, i: int, x: i64, y: i64)
    requires
        0 <= i < kills.len(),
    ensures
        analysis::spots(kills, m).len() == kills.len(),
        kills[i].x == NumberTree::Int(x) && kills[i].y == NumberTree::Int(y) && -0x20_0000_0000_0000
            <= x <= 0x20_0000_0000_0000 && -0x20_0000_0000_0000 <= y <= 0x20_0000_0000_0000
            ==> analysis::spots(kills, m)[i] == "("@ + text::dec(x as int) + ","@ + text::dec(
            y as int,
        ) + ")"@,
        (kills[i].x is Real || kills[i].y is Real) && i < m.spots.len() ==> analysis::spots(
            kills,
            m,
        )[i] == m.spots[i],
{
}

// --- what is kept of archived games ------------------------------------------

/// A marker becomes a post of the account in the game, under the message that
/// was noted, with no standing and no PUUID.
pub proof fn lemma_imported_posts(g: ArchivedV, game_id: u64, account: AccountV)
    ensures
        ({
            let p = import::marked_post(g, game_id, account);
            &&& p.platform == g.platform
            &&& p.game_id == game_id
            &&& p.riot_id == account.riot_id
            &&& g.message_id matches Some(m) ==> p.message_id == text::trimmed(m)
            &&& g.message_id is None ==> p.message_id.len() == 0
            &&& g.match_json is None ==> p.queue_id == 0
            &&& p.rank is None
            &&& p.puuid is None
        }),
{
}

/// The queue of a record is its info's; a snapshot is read only whole.
pub proof fn lemma_imported_numbers(record: Tree, info: Tree, n: i64, file: Tree)
    requires
        record.get("info"@) == Some(info),
        info.get("queueId"@) == Some(Tree::Num(NumberTree::Int(n))),
    ensures
        0 <= n <= u32::MAX ==> import::queue_in(Some(record)) == Some(n as u32),
        n < 0 || n > u32::MAX ==> import::queue_in(Some(record)) is None,
        import::snapshot_in(Some(file)) matches Some(s) ==> file.int_at("value"@) == Some(
            s.0 as i64,
        ) && file.str_at("label"@) == Some(s.1) && file.int_at("lp"@) == Some(s.2 as i64),
        import::snapshot_in(Some(file)) is None ==> file.int_at("value"@) is None || file.str_at(
            "label"@,
        ) is None || file.int_at("lp"@) is None || file.int_at("value"@)->0 as i32
            != file.int_at("value"@)->0 || file.int_at("lp"@)->0 as i32 != file.int_at("lp"@)->0,
{
}

// --- the order of jobs -------------------------------------------------------

/// Listed jobs go from the newest game to the oldest; those of one game go by
/// the players' names.
pub proof fn lemma_newest_jobs_first(jobs: Seq<Listed>, i: int, j: int)
    requires
        seqs::in_order(jobs, journal::newest_first()),
        0 <= i < j < jobs.len(),
    ensures
        jobs[i].1 >= jobs[j].1,
        jobs[i].1 == jobs[j].1 ==> jobs[i].2.riot_id == jobs[j].2.riot_id || text::comes_before(
            jobs[i].2.riot_id,
            jobs[j].2.riot_id,
        ),
{
    let lt = journal::newest_first();
    assert(!lt(jobs[j], jobs[i]));
    text::lemma_text_order();
    assert(text::comes_before(jobs[j].2.riot_id, jobs[i].2.riot_id) || !text::comes_before(
        jobs[j].2.riot_id,
        jobs[i].2.riot_id,
    ));
}

} // verus!
