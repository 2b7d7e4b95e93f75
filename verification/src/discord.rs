//! Webhook messages: what is said of a game, as a Components V2 payload, and
//! where it is sent.

use vstd::prelude::*;

use crate::game::text_of;
use crate::json::{entry, list, number, object, object1, object2, object3, one, Json, Tree};
use crate::stats::{MatchSummary, SummaryV};
use crate::text::{
    chars_of, decimal, decimal2, find_char, natural, rsplit_once, same, signed_decimal, slice_text,
    split_once, trim,
};
use crate::{json, seqs, text};

verus! {

/// A PNG (or other) file attached to a webhook message. Reference it from a
/// media component with `attachment://<filename>`.
#[derive(Debug)]
pub struct Attachment {
    pub filename: String,
    pub bytes: Vec<u8>,
}

/// One clip to embed: the attached video's filename plus the caption rendered
/// beside it (the pick's `**m:ss** — summary` line, when the journal has one).
#[derive(Debug)]
pub struct Clip {
    pub filename: String,
    pub caption: Option<String>,
}

/// The mathematical value of a [`Clip`].
pub struct ClipV {
    pub filename: Seq<char>,
    pub caption: Option<Seq<char>>,
}

impl View for Clip {
    type V = ClipV;

    open spec fn view(&self) -> ClipV {
        ClipV { filename: self.filename@, caption: text_of(self.caption) }
    }
}

/// The value of an optional clip.
pub open spec fn clip_value(c: Option<Clip>) -> Option<ClipV> {
    match c {
        Some(c) => Some(c@),
        None => None,
    }
}

/// The per-game rates as they are written, two decimals for the KDA and the
/// vision, one for the creeps.
#[derive(Debug)]
pub struct Rates {
    pub kda: String,
    pub cs_per_min: String,
    pub vision_per_min: String,
}

/// The mathematical value of [`Rates`].
pub struct RatesV {
    pub kda: Seq<char>,
    pub cs_per_min: Seq<char>,
    pub vision_per_min: Seq<char>,
}

impl View for Rates {
    type V = RatesV;

    open spec fn view(&self) -> RatesV {
        RatesV {
            kda: self.kda@,
            cs_per_min: self.cs_per_min@,
            vision_per_min: self.vision_per_min@,
        }
    }
}

// Components V2: the message must set the IS_COMPONENTS_V2 flag and carry no
// content or embeds.
pub const FLAG_COMPONENTS_V2: i64 = 32768;

// Component type ids.
pub const CONTAINER: i64 = 17;

pub const SECTION: i64 = 9;

pub const TEXT_DISPLAY: i64 = 10;

pub const THUMBNAIL: i64 = 11;

pub const MEDIA_GALLERY: i64 = 12;

pub const SEPARATOR: i64 = 14;

// --- components ------------------------------------------------------------------

/// Accent color by result: green on win, red on loss.
pub fn result_color(win: bool) -> (r: u32)
    ensures
        r == (if win {
            0x2ecc71u32
        } else {
            0xe74c3cu32
        }),
{
    if win {
        0x2ecc71
    } else {
        0xe74c3c
    }
}

/// A markdown text component.
pub open spec fn text_tree(content: Seq<char>) -> Tree {
    Tree::Obj(seq![("type"@, json::num(TEXT_DISPLAY)), ("content"@, Tree::Str(content))])
}

fn text_component(content: String) -> (r: Json)
    ensures
        r@ == text_tree(content@),
{
    object2(entry("type", number(TEXT_DISPLAY)), entry("content", Json::Str(content)))
}

/// A single-item media gallery referencing an attachment by filename.
pub open spec fn media_tree(filename: Seq<char>) -> Tree {
    Tree::Obj(
        seq![
            ("type"@, json::num(MEDIA_GALLERY)),
            (
                "items"@,
                Tree::Arr(
                    seq![
                        Tree::Obj(
                            seq![
                                (
                                    "media"@,
                                    Tree::Obj(
                                        seq![("url"@, Tree::Str("attachment://"@ + filename))],
                                    ),
                                ),
                            ],
                        ),
                    ],
                ),
            ),
        ],
    )
}

fn media(filename: &str) -> (r: Json)
    ensures
        r@ == media_tree(filename@),
{
    let url: Json = object1(
        entry("url", Json::Str("attachment://".to_string().concat(filename))),
    );
    object2(
        entry("type", number(MEDIA_GALLERY)),
        entry("items", one(object1(entry("media", url)))),
    )
}

/// A visible divider.
pub open spec fn separator_tree() -> Tree {
    Tree::Obj(
        seq![("type"@, json::num(SEPARATOR)), ("divider"@, Tree::Bool(true)), ("spacing"@, json::num(2))],
    )
}

fn separator() -> (r: Json)
    ensures
        r@ == separator_tree(),
{
    object3(
        entry("type", number(SEPARATOR)),
        entry("divider", Json::Bool(true)),
        entry("spacing", number(2)),
    )
}

/// The text beside a clip: a bold header and the caption, unless that is
/// blank.
pub open spec fn clip_text(header: Seq<char>, caption: Option<Seq<char>>) -> Seq<char> {
    let bare = "**"@ + header + "**"@;
    match caption {
        Some(c) => if text::trimmed(c).len() > 0 {
            bare + " "@ + text::trimmed(c)
        } else {
            bare
        },
        None => bare,
    }
}

/// A captioned clip: a divider, a bold header + optional caption, then the
/// video.
pub open spec fn clip_trees(header: Seq<char>, clip: ClipV) -> Seq<Tree> {
    seq![
        separator_tree(),
        text_tree(clip_text(header, clip.caption)),
        media_tree(clip.filename),
    ]
}

/// Append a captioned clip: a divider, a bold header + optional caption, then
/// the video.
fn clip_block(body: &mut Vec<Json>, header: &str, clip: &Clip)
    ensures
        json::trees(final(body)@) == json::trees(old(body)@) + clip_trees(header@, clip@),
{
    let ghost before = json::trees(body@);
    let bare: String = "**".to_string().concat(header).concat("**");
    let content: String = match &clip.caption {
        Some(c) => {
            let kept: String = trim(c.as_str());
            if kept.as_str().unicode_len() > 0 {
                bare.concat(" ").concat(kept.as_str())
            } else {
                bare
            }
        },
        None => bare,
    };
    let a: Json = separator();
    let b: Json = text_component(content);
    let c: Json = media(clip.filename.as_str());
    proof {
        json::lemma_trees_push(body@, a);
        json::lemma_trees_push(body@.push(a), b);
        json::lemma_trees_push(body@.push(a).push(b), c);
        assert(before.push(a@).push(b@).push(c@) =~= before + clip_trees(header@, clip@));
    }
    body.push(a);
    body.push(b);
    body.push(c);
}

/// The small grey status line, where there is one.
pub open spec fn note_trees(note: Option<Seq<char>>) -> Seq<Tree> {
    match note {
        Some(note) => seq![text_tree("-# "@ + note)],
        None => seq![],
    }
}

/// A small grey status line (e.g. "Replay expired — no clips for this game").
fn push_note(body: &mut Vec<Json>, note: &Option<String>)
    ensures
        json::trees(final(body)@) == json::trees(old(body)@) + note_trees(text_of(*note)),
{
    let ghost before = json::trees(body@);
    match note {
        Some(note) => {
            let line: Json = text_component("-# ".to_string().concat(note.as_str()));
            proof {
                json::lemma_trees_push(body@, line);
                assert(before.push(line@) =~= before + note_trees(Some(note@)));
            }
            body.push(line);
        },
        None => {
            proof {
                assert(before =~= before + note_trees(None));
            }
        },
    }
}

/// The small grey brand line at the foot.
pub open spec fn footer_tree() -> Tree {
    text_tree("-# scry - github.com/iamacoffeepot/scry"@)
}

fn footer() -> (r: Json)
    ensures
        r@ == footer_tree(),
{
    text_component("-# scry - github.com/iamacoffeepot/scry".to_string())
}

/// Child components in an accent-colored container as the whole message.
pub open spec fn message_tree(win: bool, components: Seq<Tree>) -> Tree {
    Tree::Obj(
        seq![
            ("flags"@, json::num(FLAG_COMPONENTS_V2)),
            (
                "components"@,
                Tree::Arr(
                    seq![
                        Tree::Obj(
                            seq![
                                ("type"@, json::num(CONTAINER)),
                                (
                                    "accent_color"@,
                                    json::num(
                                        if win {
                                            0x2ecc71
                                        } else {
                                            0xe74c3c
                                        },
                                    ),
                                ),
                                ("components"@, Tree::Arr(components)),
                            ],
                        ),
                    ],
                ),
            ),
        ],
    )
}

fn container_message(win: bool, components: Vec<Json>) -> (r: Json)
    ensures
        r@ == message_tree(win, json::trees(components@)),
{
    let body: Json = object3(
        entry("type", number(CONTAINER)),
        entry("accent_color", number(result_color(win) as i64)),
        entry("components", list(components)),
    );
    object2(
        entry("flags", number(FLAG_COMPONENTS_V2)),
        entry("components", one(body)),
    )
}

// --- the header ------------------------------------------------------------------

/// The LP change as it is written: "+18 LP" / "-15 LP", or "+? LP" without a
/// baseline.
pub open spec fn delta_text(delta: Option<i32>) -> Seq<char> {
    match delta {
        Some(d) => text::signed(d as int) + " LP"@,
        None => "+? LP"@,
    }
}

fn lp_delta(delta: Option<i32>) -> (r: String)
    ensures
        r@ == delta_text(delta),
{
    match delta {
        Some(d) => signed_decimal(d as i64).concat(" LP"),
        None => "+? LP".to_string(),
    }
}

/// The length of a game: minutes and seconds.
pub open spec fn length_text(secs: int) -> Seq<char> {
    text::dec(text::tdiv(secs, 60)) + "m "@ + text::dec2(text::trem(secs, 60)) + "s"@
}

/// Title + player link. The title is the player; champion/side and date are
/// secondary rows. The timestamp is the game's end, so "x minutes ago" reads
/// from when it finished.
pub open spec fn header_text(s: SummaryV) -> Seq<char> {
    let ended = text::dec(s.started_at_secs + s.duration_secs);
    let result = if s.win {
        "Victory"@
    } else {
        "Defeat"@
    };
    let queue = if s.queue.len() == 0 {
        ""@
    } else {
        s.queue + " · "@
    };
    let title_lp = match s.rank {
        Some(r) => " ("@ + delta_text(r.delta) + ")"@,
        None => ""@,
    };
    let content = "-# <t:"@ + ended + ":F> · <t:"@ + ended + ":R>\n### ["@ + s.player + "]("@
        + s.profile_url + ") — "@ + result + " in "@ + length_text(s.duration_secs as int)
        + title_lp + "\n"@ + s.champion + " · "@ + queue + s.side + " side"@;
    match s.rank {
        Some(r) => content + "\n**"@ + r.label + "** · "@ + text::dec(r.lp as int) + " LP · "@
            + delta_text(r.delta),
        None => content,
    }
}

/// Title + player link, with the champion icon as the section's thumbnail.
pub open spec fn header_tree(s: SummaryV) -> Tree {
    Tree::Obj(
        seq![
            ("type"@, json::num(SECTION)),
            ("components"@, Tree::Arr(seq![text_tree(header_text(s))])),
            (
                "accessory"@,
                Tree::Obj(
                    seq![
                        ("type"@, json::num(THUMBNAIL)),
                        ("media"@, Tree::Obj(seq![("url"@, Tree::Str(s.icon_url))])),
                    ],
                ),
            ),
        ],
    )
}

/// Whether the second at which a game ended can be told.
pub open spec fn ends_in_time(s: SummaryV) -> bool {
    i64::MIN <= s.started_at_secs + s.duration_secs <= i64::MAX
}

fn length_of(secs: i64) -> (r: String)
    ensures
        r@ == length_text(secs as int),
{
    decimal((secs / 60) as i128).concat("m ").concat(decimal2(secs % 60).as_str()).concat("s")
}

fn header_content(s: &MatchSummary) -> (r: String)
    requires
        ends_in_time(s@),
    ensures
        r@ == header_text(s@),
{
    let ended: String = decimal((s.started_at_secs + s.duration_secs) as i128);
    let result: &str = if s.win {
        "Victory"
    } else {
        "Defeat"
    };
    let queue: String = if s.queue.as_str().unicode_len() == 0 {
        "".to_string()
    } else {
        s.queue.clone().concat(" · ")
    };
    let title_lp: String = match &s.rank {
        Some(r) => " (".to_string().concat(lp_delta(r.delta).as_str()).concat(")"),
        None => "".to_string(),
    };
    let length: String = length_of(s.duration_secs);
    let content: String = "-# <t:".to_string().concat(ended.as_str()).concat(":F> · <t:").concat(
        ended.as_str(),
    ).concat(":R>\n### [").concat(s.player.as_str()).concat("](").concat(
        s.profile_url.as_str(),
    ).concat(") — ").concat(result).concat(" in ").concat(length.as_str()).concat(
        title_lp.as_str(),
    ).concat("\n").concat(s.champion.as_str()).concat(" · ").concat(queue.as_str()).concat(
        s.side.as_str(),
    ).concat(" side");
    match &s.rank {
        Some(r) => content.concat("\n**").concat(r.label.as_str()).concat("** · ").concat(
            decimal(r.lp as i128).as_str(),
        ).concat(" LP · ").concat(lp_delta(r.delta).as_str()),
        None => content,
    }
}

fn header_section(s: &MatchSummary) -> (r: Json)
    requires
        ends_in_time(s@),
    ensures
        r@ == header_tree(s@),
{
    let icon: Json = object1(entry("url", Json::Str(s.icon_url.clone())));
    object3(
        entry("type", number(SECTION)),
        entry("components", one(text_component(header_content(s)))),
        entry(
            "accessory",
            object2(entry("type", number(THUMBNAIL)), entry("media", icon)),
        ),
    )
}

// --- the stat grid -----------------------------------------------------------------

/// Digits in groups of three from the right, with commas between.
pub open spec fn grouped(digits: Seq<char>) -> Seq<char>
    decreases digits.len(),
{
    if digits.len() <= 3 {
        digits
    } else {
        grouped(digits.take(digits.len() - 3)) + ","@ + digits.skip(digits.len() - 3)
    }
}

/// An integer with its digits in groups.
pub open spec fn thousands_text(n: int) -> Seq<char> {
    if n < 0 {
        "-"@ + grouped(text::digits((-n) as nat))
    } else {
        grouped(text::digits(n as nat))
    }
}

fn group(digits: &Vec<char>) -> (r: String)
    ensures
        r@ == grouped(digits@),
{
    let n: usize = digits.len();
    if n <= 3 {
        let r: String = slice_text(digits, 0, n);
        proof {
            assert(r@ =~= digits@);
        }
        return r;
    }
    let lead: usize = n % 3;
    let mut i: usize = if lead == 0 {
        3
    } else {
        lead
    };
    let mut r: String = slice_text(digits, 0, i);
    proof {
        assert(r@ =~= digits@.take(i as int));
    }
    while i < n
        invariant
            n == digits@.len(),
            0 < i <= n,
            (n - i) % 3 == 0,
            r@ == grouped(digits@.take(i as int)),
        decreases n - i,
    {
        let part: String = slice_text(digits, i, i + 3);
        proof {
            let now = digits@.take(i + 3);
            assert(now.take(now.len() - 3) =~= digits@.take(i as int));
            assert(now.skip(now.len() - 3) =~= part@);
        }
        r = r.concat(",").concat(part.as_str());
        i = i + 3;
    }
    proof {
        assert(digits@.take(n as int) =~= digits@);
    }
    r
}

/// Group digits with commas: `18420` -> `"18,420"`.
pub fn thousands(n: i32) -> (r: String)
    ensures
        r@ == thousands_text(n as int),
{
    if n < 0 {
        let all: String = natural((-(n as i128)) as u128);
        "-".to_string().concat(group(&chars_of(all.as_str())).as_str())
    } else {
        let all: String = natural(n as u128);
        group(&chars_of(all.as_str()))
    }
}

/// The stat grid as text (Components V2 has no native field grid).
pub open spec fn grid_text(s: SummaryV, rates: RatesV) -> Seq<char> {
    "**KDA** "@ + text::dec(s.kills as int) + "/"@ + text::dec(s.deaths as int) + "/"@
        + text::dec(s.assists as int) + " ("@ + rates.kda + ")  •  **CS** "@ + text::dec(
        s.cs as int,
    ) + " ("@ + rates.cs_per_min + "/min)  •  **Damage** "@ + thousands_text(
        s.damage_to_champions as int,
    ) + "\n**Gold** "@ + thousands_text(s.gold as int) + "  •  **Vision** "@ + text::dec(
        s.vision.vision_score as int,
    ) + " ("@ + rates.vision_per_min + "/min)\n**Wards** "@ + text::dec(
        s.vision.wards_placed as int,
    ) + " placed • "@ + text::dec(s.vision.wards_killed as int) + " killed • "@ + text::dec(
        s.vision.control_wards_bought as int,
    ) + " control"@
}

/// The stat grid rendered as text.
pub fn stats_text(s: &MatchSummary, rates: &Rates) -> (r: String)
    ensures
        r@ == grid_text(s@, rates@),
{
    "**KDA** ".to_string().concat(decimal(s.kills as i128).as_str()).concat("/").concat(
        decimal(s.deaths as i128).as_str(),
    ).concat("/").concat(decimal(s.assists as i128).as_str()).concat(" (").concat(
        rates.kda.as_str(),
    ).concat(")  •  **CS** ").concat(decimal(s.cs as i128).as_str()).concat(" (").concat(
        rates.cs_per_min.as_str(),
    ).concat("/min)  •  **Damage** ").concat(thousands(s.damage_to_champions).as_str()).concat(
        "\n**Gold** ",
    ).concat(thousands(s.gold).as_str()).concat("  •  **Vision** ").concat(
        decimal(s.vision.vision_score as i128).as_str(),
    ).concat(" (").concat(rates.vision_per_min.as_str()).concat("/min)\n**Wards** ").concat(
        decimal(s.vision.wards_placed as i128).as_str(),
    ).concat(" placed • ").concat(decimal(s.vision.wards_killed as i128).as_str()).concat(
        " killed • ",
    ).concat(decimal(s.vision.control_wards_bought as i128).as_str()).concat(" control")
}

// --- the message -----------------------------------------------------------------

/// The block of an optional clip.
pub open spec fn optional_clip(header: Seq<char>, clip: Option<ClipV>) -> Seq<Tree> {
    match clip {
        Some(clip) => clip_trees(header, clip),
        None => seq![],
    }
}

/// One of the two moments of a package, as the message shows it.
#[derive(Debug)]
pub enum Scene {
    /// Its recorded clip.
    Recorded(Clip),
    /// Its caption alone, as long as there is no clip.
    Told(String),
}

/// The mathematical value of a [`Scene`].
pub enum SceneV {
    Recorded(ClipV),
    Told(Seq<char>),
}

impl View for Scene {
    type V = SceneV;

    open spec fn view(&self) -> SceneV {
        match self {
            Scene::Recorded(clip) => SceneV::Recorded(clip@),
            Scene::Told(caption) => SceneV::Told(caption@),
        }
    }
}

/// The value of an optional scene.
pub open spec fn scene_value(s: Option<Scene>) -> Option<SceneV> {
    match s {
        Some(s) => Some(s@),
        None => None,
    }
}

/// A caption without a clip: a divider, then a bold header and the caption.
pub open spec fn caption_trees(header: Seq<char>, caption: Seq<char>) -> Seq<Tree> {
    seq![separator_tree(), text_tree("**"@ + header + "** "@ + caption)]
}

/// The block of an optional scene.
pub open spec fn optional_scene(header: Seq<char>, scene: Option<SceneV>) -> Seq<Tree> {
    match scene {
        Some(SceneV::Recorded(clip)) => clip_trees(header, clip),
        Some(SceneV::Told(caption)) => caption_trees(header, caption),
        None => seq![],
    }
}

/// What stands in the container: header, stats, the moments, the note and the
/// brand line.
pub open spec fn message_parts(
    s: SummaryV,
    rates: RatesV,
    moments: Seq<Tree>,
    note: Option<Seq<char>>,
) -> Seq<Tree> {
    seq![header_tree(s), text_tree(grid_text(s, rates))] + moments + note_trees(note) + seq![
        footer_tree(),
    ]
}

/// The blocks of the Highlight and the Lowlight, where they were recorded.
pub open spec fn clip_parts(highlight: Option<ClipV>, lowlight: Option<ClipV>) -> Seq<Tree> {
    optional_clip("Highlight"@, highlight) + optional_clip("Lowlight"@, lowlight)
}

/// The blocks of the Highlight and the Lowlight.
pub open spec fn scene_parts(highlight: Option<SceneV>, lowlight: Option<SceneV>) -> Seq<Tree> {
    optional_scene("Highlight"@, highlight) + optional_scene("Lowlight"@, lowlight)
}

fn push_clip(body: &mut Vec<Json>, header: &str, clip: &Option<Clip>)
    ensures
        json::trees(final(body)@) == json::trees(old(body)@) + optional_clip(
            header@,
            clip_value(*clip),
        ),
{
    let ghost before = json::trees(body@);
    match clip {
        Some(clip) => clip_block(body, header, clip),
        None => {
            proof {
                assert(before =~= before + optional_clip(header@, None));
            }
        },
    }
}

fn push_scene(body: &mut Vec<Json>, header: &str, scene: &Option<Scene>)
    ensures
        json::trees(final(body)@) == json::trees(old(body)@) + optional_scene(
            header@,
            scene_value(*scene),
        ),
{
    let ghost before = json::trees(body@);
    match scene {
        Some(Scene::Recorded(clip)) => clip_block(body, header, clip),
        Some(Scene::Told(caption)) => {
            let a: Json = separator();
            let b: Json = text_component(
                "**".to_string().concat(header).concat("** ").concat(caption.as_str()),
            );
            proof {
                json::lemma_trees_push(body@, a);
                json::lemma_trees_push(body@.push(a), b);
                assert(before.push(a@).push(b@) =~= before + caption_trees(header@, caption@));
            }
            body.push(a);
            body.push(b);
        },
        None => {
            proof {
                assert(before =~= before + optional_scene(header@, None));
            }
        },
    }
}

/// The header and the stats, which every message begins with.
fn opening(s: &MatchSummary, rates: &Rates) -> (r: Vec<Json>)
    requires
        ends_in_time(s@),
    ensures
        json::trees(r@) == seq![header_tree(s@), text_tree(grid_text(s@, rates@))],
{
    let mut body: Vec<Json> = Vec::new();
    body.push(header_section(s));
    body.push(text_component(stats_text(s, rates)));
    proof {
        assert(json::trees(body@) =~= seq![
            header_tree(s@),
            text_tree(grid_text(s@, rates@)),
        ]);
    }
    body
}

/// The message of a container that lacks the note and the brand line.
fn closed(win: bool, body: Vec<Json>, note: &Option<String>) -> (r: Json)
    ensures
        r@ == message_tree(
            win,
            json::trees(body@) + note_trees(text_of(*note)) + seq![footer_tree()],
        ),
{
    let mut body: Vec<Json> = body;
    push_note(&mut body, note);
    let foot: Json = footer();
    let ghost before = json::trees(body@);
    proof {
        json::lemma_trees_push(body@, foot);
        assert(before.push(foot@) =~= before + seq![footer_tree()]);
    }
    body.push(foot);
    container_message(win, body)
}

/// The one message shape: header + stats + the captioned clips (when
/// recorded), in one Components-V2 container whose accent keys off the result.
pub fn stats_message(
    s: &MatchSummary,
    rates: &Rates,
    highlight: &Option<Clip>,
    lowlight: &Option<Clip>,
    note: &Option<String>,
) -> (r: Json)
    requires
        ends_in_time(s@),
    ensures
        r@ == message_tree(
            s.win,
            message_parts(
                s@,
                rates@,
                clip_parts(clip_value(*highlight), clip_value(*lowlight)),
                text_of(*note),
            ),
        ),
{
    let mut body: Vec<Json> = opening(s, rates);
    let ghost first = json::trees(body@);
    push_clip(&mut body, "Highlight", highlight);
    push_clip(&mut body, "Lowlight", lowlight);
    proof {
        assert(json::trees(body@) =~= first + clip_parts(
            clip_value(*highlight),
            clip_value(*lowlight),
        ));
    }
    closed(s.win, body, note)
}

/// The same message with the moments told: a clip where one was recorded, and
/// the caption alone where there is none yet.
pub fn scene_message(
    s: &MatchSummary,
    rates: &Rates,
    highlight: &Option<Scene>,
    lowlight: &Option<Scene>,
    note: &Option<String>,
) -> (r: Json)
    requires
        ends_in_time(s@),
    ensures
        r@ == message_tree(
            s.win,
            message_parts(
                s@,
                rates@,
                scene_parts(scene_value(*highlight), scene_value(*lowlight)),
                text_of(*note),
            ),
        ),
{
    let mut body: Vec<Json> = opening(s, rates);
    let ghost first = json::trees(body@);
    push_scene(&mut body, "Highlight", highlight);
    push_scene(&mut body, "Lowlight", lowlight);
    proof {
        assert(json::trees(body@) =~= first + scene_parts(
            scene_value(*highlight),
            scene_value(*lowlight),
        ));
    }
    closed(s.win, body, note)
}

// --- the webhook -----------------------------------------------------------------

/// A Discord incoming webhook the message is sent to.
#[derive(Debug)]
pub struct Webhook {
    pub url: String,
}

impl Webhook {
    pub fn new(url: String) -> (r: Webhook)
        ensures
            r.url == url,
    {
        Webhook { url }
    }

    /// Where a message is posted to. Incoming webhooks only process Components
    /// V2 with this flag; `wait` makes Discord return the created message (so
    /// its id can be read).
    pub fn post_url(&self) -> (r: String)
        ensures
            r@ == self.url@ + (if self.url@.contains('?') {
                "&"@
            } else {
                "?"@
            }) + "with_components=true&wait=true"@,
    {
        let v: Vec<char> = chars_of(self.url.as_str());
        proof {
            assert(v@.skip(0) =~= v@);
            text::lemma_find(v@, '?');
        }
        let sep: &str = match find_char(&v, '?', 0) {
            Some(i) => {
                proof {
                    assert(self.url@[i as int] == '?');
                }
                "&"
            },
            None => "?",
        };
        self.url.clone().concat(sep).concat("with_components=true&wait=true")
    }

    /// Where a posted message is edited: the webhook's address without its
    /// query.
    pub fn edit_url(&self, message_id: &str) -> (r: String)
        ensures
            r@ == text::pieces(self.url@, '?')[0] + "/messages/"@ + message_id@
                + "?with_components=true"@,
    {
        let base: String = match split_once(self.url.as_str(), '?') {
            Some(parts) => parts.0,
            None => self.url.clone(),
        };
        base.concat("/messages/").concat(message_id).concat("?with_components=true")
    }
}

/// What a message says of its files: each by its `files[i]` index, from `i`
/// on.
pub open spec fn file_tree(i: int, filename: Seq<char>) -> Tree {
    Tree::Obj(seq![("id"@, json::num(i as i64)), ("filename"@, Tree::Str(filename))])
}

/// The declaration of a message's full set of files.
pub open spec fn files_tree(filenames: Seq<Seq<char>>) -> Tree {
    Tree::Arr(Seq::new(filenames.len(), |i: int| file_tree(i, filenames[i])))
}

/// The payload of an edit: on edit, Discord appends uploaded files unless the
/// payload's `attachments` array declares the full set.
pub open spec fn edit_tree(payload: Tree, filenames: Seq<Seq<char>>) -> Tree {
    match payload {
        Tree::Obj(m) => Tree::Obj(
            match json::member_index(m, "attachments"@) {
                Some(i) => m.update(i, ("attachments"@, files_tree(filenames))),
                None => m.push(("attachments"@, files_tree(filenames))),
            },
        ),
        _ => payload,
    }
}

fn declared(filenames: &Vec<String>) -> (r: Json)
    requires
        filenames@.len() <= i64::MAX,
    ensures
        r@ == files_tree(text::texts(filenames@)),
{
    let ghost names = text::texts(filenames@);
    let mut items: Vec<Json> = Vec::new();
    for i in 0..filenames.len()
        invariant
            filenames@.len() <= i64::MAX,
            names == text::texts(filenames@),
            json::trees(items@) =~= Seq::new(i as nat, |k: int| file_tree(k, names[k])),
    {
        let item: Json = object2(
            entry("id", number(i as i64)),
            entry("filename", Json::Str(filenames[i].clone())),
        );
        proof {
            json::lemma_trees_push(items@, item);
        }
        items.push(item);
    }
    list(items)
}

/// The payload that an edit with these files sends, so that the edit replaces
/// the message's attachments (otherwise repeated edits pile up).
pub fn edit_payload(payload: Json, filenames: &Vec<String>) -> (r: Json)
    requires
        filenames@.len() <= i64::MAX,
    ensures
        r@ == edit_tree(payload@, text::texts(filenames@)),
{
    match payload {
        Json::Obj(m) => {
            let ghost all = json::members(m@);
            let ghost p = json::called("attachments"@);
            let files: (String, Json) = entry("attachments", declared(filenames));
            let mut m: Vec<(String, Json)> = m;
            proof {
                json::lemma_obj(m);
            }
            let mut at: usize = 0;
            while at < m.len() && !same(m[at].0.as_str(), "attachments")
                invariant
                    at <= m@.len(),
                    all == json::members(m@),
                    p == json::called("attachments"@),
                    seqs::first_where(all.take(at as int), p) is None,
                decreases m@.len() - at,
            {
                proof {
                    assert(all.take(at + 1).drop_last() =~= all.take(at as int));
                    assert(all.take(at + 1).last() == (m@[at as int].0@, m@[at as int].1@));
                }
                at = at + 1;
            }
            if at < m.len() {
                proof {
                    assert(all.take(at + 1).drop_last() =~= all.take(at as int));
                    assert(all.take(at + 1).last() == (m@[at as int].0@, m@[at as int].1@));
                    seqs::lemma_first_extends(all, p, at + 1);
                }
                m.set(at, files);
                proof {
                    assert(json::members(m@) =~= all.update(
                        at as int,
                        ("attachments"@, files.1@),
                    ));
                }
            } else {
                proof {
                    assert(all.take(at as int) =~= all);
                }
                m.push(files);
                proof {
                    assert(json::members(m@) =~= all.push(("attachments"@, files.1@)));
                }
            }
            object(m)
        },
        other => other,
    }
}

/// What follows the last `.` of a filename; all of it without one.
pub open spec fn extension(filename: Seq<char>) -> Seq<char> {
    match text::rcut_once(filename, '.') {
        Some(parts) => parts.1,
        None => filename,
    }
}

/// The media type that an attachment is sent with, by its extension.
pub fn mime_of(filename: &str) -> (r: &'static str)
    ensures
        r@ == (if extension(filename@) == "mp4"@ {
            "video/mp4"@
        } else if extension(filename@) == "webm"@ {
            "video/webm"@
        } else {
            "image/png"@
        }),
{
    let ext: String = match rsplit_once(filename, '.') {
        Some(parts) => parts.1,
        None => filename.to_string(),
    };
    if same(ext.as_str(), "mp4") {
        "video/mp4"
    } else if same(ext.as_str(), "webm") {
        "video/webm"
    } else {
        "image/png"
    }
}

/// The name of the `i`th file part of a request.
pub fn part_name(i: usize) -> (r: String)
    ensures
        r@ == "files["@ + text::digits(i as nat) + "]"@,
{
    "files[".to_string().concat(natural(i as u128).as_str()).concat("]")
}

/// The id of the message that a reply tells of.
pub open spec fn reply_id(reply: Option<Tree>) -> Option<Seq<char>> {
    match reply {
        Some(reply) => reply.str_at("id"@),
        None => None,
    }
}

/// The id of the message that a parsed reply tells of.
pub fn id_in(reply: &Option<Json>) -> (r: Option<String>)
    ensures
        text_of(r) == reply_id(
            match *reply {
                Some(j) => Some(j@),
                None => None,
            },
        ),
{
    match reply {
        Some(j) => match j.str_at("id") {
            Some(s) => Some(s.clone()),
            None => None,
        },
        None => None,
    }
}

/// The id of the created message, from the body of Discord's reply.
pub fn message_id(body: &str) -> (r: Option<String>)
    ensures
        text_of(r) == reply_id(json::read_tree(body@)),
{
    id_in(&json::read(body))
}

// --- laws ------------------------------------------------------------------------

/// `s` without its commas.
pub open spec fn without_commas(s: Seq<char>) -> Seq<char> {
    seqs::keep(s, |c: char| c != ',')
}

proof fn lemma_keep_joins(a: Seq<char>, b: Seq<char>)
    ensures
        without_commas(a + b) == without_commas(a) + without_commas(b),
    decreases b.len(),
{
    if b.len() == 0 {
        assert(a + b =~= a);
        assert(without_commas(a) + without_commas(b) =~= without_commas(a));
    } else {
        lemma_keep_joins(a, b.drop_last());
        assert((a + b).drop_last() =~= a + b.drop_last());
        assert((a + b).last() == b.last());
        if b.last() != ',' {
            assert(without_commas(a) + without_commas(b.drop_last()).push(b.last()) =~= (
            without_commas(a) + without_commas(b.drop_last())).push(b.last()));
        }
    }
}

proof fn lemma_no_commas(s: Seq<char>)
    requires
        !s.contains(','),
    ensures
        without_commas(s) == s,
    decreases s.len(),
{
    if s.len() > 0 {
        assert(s.last() == s[s.len() - 1]);
        assert forall|c: char| #[trigger] s.drop_last().contains(c) implies s.contains(c) by {
            let i = choose|i: int| 0 <= i < s.drop_last().len() && s.drop_last()[i] == c;
            assert(s[i] == c);
        }
        lemma_no_commas(s.drop_last());
        assert(s.drop_last().push(s.last()) =~= s);
    } else {
        assert(without_commas(s) =~= s);
    }
}

/// Grouping changes no digit: without its commas, a grouped number is the
/// number again.
pub proof fn lemma_grouping_keeps_digits(digits: Seq<char>)
    requires
        !digits.contains(','),
    ensures
        without_commas(grouped(digits)) == digits,
    decreases digits.len(),
{
    if digits.len() <= 3 {
        lemma_no_commas(digits);
    } else {
        let front = digits.take(digits.len() - 3);
        let back = digits.skip(digits.len() - 3);
        assert forall|c: char| #[trigger] front.contains(c) implies digits.contains(c) by {
            let i = choose|i: int| 0 <= i < front.len() && front[i] == c;
            assert(digits[i] == c);
        }
        assert forall|c: char| #[trigger] back.contains(c) implies digits.contains(c) by {
            let i = choose|i: int| 0 <= i < back.len() && back[i] == c;
            assert(digits[i + digits.len() - 3] == c);
        }
        lemma_grouping_keeps_digits(front);
        lemma_no_commas(back);
        reveal_strlit(",");
        let comma = ","@;
        assert(comma.len() == 1 && comma[0] == ',');
        assert(comma.drop_last() =~= seq![]);
        assert(without_commas(comma) =~= seq![]) by {
            reveal_with_fuel(seqs::keep, 2);
        }
        lemma_keep_joins(grouped(front), comma);
        lemma_keep_joins(grouped(front) + comma, back);
        assert(without_commas(grouped(front) + comma) =~= front);
        assert(front + back =~= digits);
    }
}

/// An edit declares exactly the files it carries, and leaves the rest of the
/// payload as it was.
pub proof fn lemma_edit_declares_files(payload: Tree, filenames: Seq<Seq<char>>, key: Seq<char>)
    requires
        payload is Obj,
        key != "attachments"@,
    ensures
        edit_tree(payload, filenames).get("attachments"@) == Some(files_tree(filenames)),
        edit_tree(payload, filenames).get(key) == payload.get(key),
{
    let m = payload->Obj_0;
    let p = json::called("attachments"@);
    let q = json::called(key);
    let entry = ("attachments"@, files_tree(filenames));
    seqs::lemma_first_is(m, p);
    seqs::lemma_first_is(m, q);
    match json::member_index(m, "attachments"@) {
        Some(i) => {
            let n = m.update(i, entry);
            seqs::lemma_first_is(n, p);
            seqs::lemma_first_is(n, q);
            assert(n[i] == entry);
            assert forall|j: int| 0 <= j < m.len() && j != i implies #[trigger] n[j] == m[j] by {}
            assert(p(n[i]));
            assert(!q(n[i]) && !q(m[i]));
            if let Some(k) = seqs::first_where(m, q) {
                assert(n[k] == m[k]);
            }
            if let Some(k) = seqs::first_where(n, q) {
                assert(n[k] == m[k]);
            }
        },
        None => {
            let n = m.push(entry);
            seqs::lemma_first_is(n, p);
            seqs::lemma_first_is(n, q);
            assert(n.drop_last() =~= m);
            assert(!q(n.last()));
        },
    }
}

} // verus!
