//! The journal's event vocabulary: storage-shaped kinds (content-hashed field
//! tags), so a reader built before a field was added still decodes the record
//! and a future field lands as a trailing optional.

use vstd::bytes::*;
use vstd::prelude::*;
use vstd::string::*;

use crate::candidates::{Candidate, CandidateV};
use crate::leaves::{Kind, Row, Rows, StorageLeaves};
use crate::stats::{RankInfo, RankInfoV};
use crate::storage::{Records, Roots, StorageError, MAX_STORAGE_DEPTH};
use crate::text::mmss;
use crate::{leaves, text};

verus! {

// --- nested values -----------------------------------------------------------

/// The records after the fields of a nested struct were added.
pub open spec fn struct_put<R: Row>(
    v: R::Val,
    names: Seq<Seq<char>>,
    roots: Roots,
    carry: u64,
    depth: u32,
    m: Rows,
) -> Result<Rows, StorageError> {
    if depth > MAX_STORAGE_DEPTH {
        Err(StorageError::NestingTooDeep)
    } else {
        R::put(v, names, 0, roots, carry, depth, m)
    }
}

/// The fields of a nested struct, and the records that are left.
pub open spec fn struct_get<R: Row>(
    names: Seq<Seq<char>>,
    roots: Roots,
    carry: u64,
    depth: u32,
    m: Rows,
) -> Result<(R::Val, Rows), StorageError> {
    if depth > MAX_STORAGE_DEPTH {
        Err(StorageError::NestingTooDeep)
    } else {
        R::get(names, 0, roots, carry, depth, m)
    }
}

/// The schema bytes of a struct: its selector, the number of its fields, their
/// schemas, and the mark of the native layout.
pub open spec fn struct_shape<R: Row>() -> Seq<u8> {
    spec_u32_to_le_bytes(8) + spec_u32_to_le_bytes(R::width() as u32) + R::shapes() + seq![0u8]
}

fn struct_shape_bytes<R: Row>(width: u32) -> (r: Vec<u8>)
    requires
        width == R::width(),
    ensures
        r@ == struct_shape::<R>(),
{
    let mut r: Vec<u8> = u32_to_le_bytes(8);
    let mut n: Vec<u8> = u32_to_le_bytes(width);
    let mut fields: Vec<u8> = R::shapes_bytes();
    r.append(&mut n);
    r.append(&mut fields);
    r.push(0u8);
    proof {
        assert(r@ =~= struct_shape::<R>());
    }
    r
}

fn struct_contribute<R: Row>(
    row: &R,
    names: &Vec<&'static str>,
    roots: &Roots,
    carry: u64,
    depth: u32,
    sink: &mut Records,
) -> (r: Result<(), StorageError>)
    requires
        old(sink).wf(),
        names@.len() == R::width(),
    ensures
        final(sink).wf(),
        match r {
            Ok(_) => struct_put::<R>(
                row.val(),
                leaves::labels(names@),
                *roots,
                carry,
                depth,
                old(sink)@,
            ) == Ok::<Rows, StorageError>(final(sink)@),
            Err(e) => struct_put::<R>(
                row.val(),
                leaves::labels(names@),
                *roots,
                carry,
                depth,
                old(sink)@,
            ) == Err::<Rows, StorageError>(e),
        },
{
    if depth > MAX_STORAGE_DEPTH {
        return Err(StorageError::NestingTooDeep);
    }
    row.contribute(names, 0, roots, carry, depth, sink)
}

fn struct_assemble<R: Row>(
    names: &Vec<&'static str>,
    roots: &Roots,
    carry: u64,
    depth: u32,
    source: &mut Records,
) -> (r: Result<R, StorageError>)
    requires
        old(source).wf(),
        names@.len() == R::width(),
    ensures
        final(source).wf(),
        match r {
            Ok(x) => struct_get::<R>(
                leaves::labels(names@),
                *roots,
                carry,
                depth,
                old(source)@,
            ) == Ok::<(R::Val, Rows), StorageError>((x.val(), final(source)@)),
            Err(e) => struct_get::<R>(
                leaves::labels(names@),
                *roots,
                carry,
                depth,
                old(source)@,
            ) == Err::<(R::Val, Rows), StorageError>(e),
        },
{
    if depth > MAX_STORAGE_DEPTH {
        return Err(StorageError::NestingTooDeep);
    }
    R::assemble(names, 0, roots, carry, depth, source)
}

/// The fields of a [`RankInfo`].
pub type RankFields = (String, (i32, (Option<i32>, ())));

pub open spec fn rank_names() -> Seq<Seq<char>> {
    seq!["label"@, "lp"@, "delta"@]
}

fn rank_labels() -> (r: Vec<&'static str>)
    ensures
        leaves::labels(r@) == rank_names(),
        r@.len() == 3,
{
    let r: Vec<&'static str> = vec!["label", "lp", "delta"];
    proof {
        assert(leaves::labels(r@) =~= rank_names());
    }
    r
}

impl StorageLeaves for RankInfo {
    type Val = RankInfoV;

    open spec fn val(&self) -> RankInfoV {
        self@
    }

    open spec fn shape() -> Seq<u8> {
        struct_shape::<RankFields>()
    }

    open spec fn told_apart(roots: Roots) -> bool {
        <RankFields as Row>::told_apart(roots)
    }

    open spec fn put(v: RankInfoV, roots: Roots, carry: u64, depth: u32, m: Rows) -> Result<
        Rows,
        StorageError,
    > {
        struct_put::<RankFields>(
            (v.label, (v.lp, (v.delta, ()))),
            rank_names(),
            roots,
            carry,
            depth,
            m,
        )
    }

    open spec fn get(roots: Roots, carry: u64, depth: u32, m: Rows) -> Result<
        (RankInfoV, Rows),
        StorageError,
    > {
        match struct_get::<RankFields>(rank_names(), roots, carry, depth, m) {
            Ok(((label, (lp, (delta, _))), rest)) => Ok((RankInfoV { label, lp, delta }, rest)),
            Err(e) => Err(e),
        }
    }

    open spec fn missing(carry: u64, depth: u32, m: Rows) -> bool {
        <RankFields as Row>::missing(rank_names(), 0, carry, depth, m)
    }

    fn shape_bytes() -> (r: Vec<u8>) {
        struct_shape_bytes::<RankFields>(3)
    }

    fn contribute(&self, roots: &Roots, carry: u64, depth: u32, sink: &mut Records) -> (r: Result<
        (),
        StorageError,
    >) {
        let row: RankFields = (self.label.clone(), (self.lp, (self.delta, ())));
        proof {
            assert(row.1.1.0.val() == self.delta);
        }
        struct_contribute(&row, &rank_labels(), roots, carry, depth, sink)
    }

    fn assemble(roots: &Roots, carry: u64, depth: u32, source: &mut Records) -> (r: Result<
        RankInfo,
        StorageError,
    >) {
        match struct_assemble::<RankFields>(&rank_labels(), roots, carry, depth, source) {
            Ok((label, (lp, (delta, _)))) => {
                proof {
                    assert(delta.val() == delta);
                }
                Ok(RankInfo { label, lp, delta })
            },
            Err(e) => Err(e),
        }
    }

    fn is_absent(carry: u64, depth: u32, source: &Records) -> (r: bool) {
        <RankFields as Row>::is_absent(&rank_labels(), 0, carry, depth, source)
    }

    proof fn lemma_comes_back(
        v: RankInfoV,
        roots: Roots,
        carry: u64,
        depth: u32,
        m: Rows,
        big: Rows,
    ) {
        <RankFields as Row>::lemma_comes_back(
            (v.label, (v.lp, (v.delta, ()))),
            rank_names(),
            0,
            roots,
            carry,
            depth,
            m,
            big,
        );
    }
}

/// One chosen clip: the moment's timestamp, the replay window sized to it,
/// and the grounded one-line caption the post renders beside the video.
#[derive(Debug, PartialEq, Eq)]
pub struct ClipPick {
    /// The moment's in-game time, millis from game start.
    pub t_millis: i64,
    /// Game-second the recording should start at (lead-in already included).
    pub seek_secs: i64,
    /// Recording length in seconds — sized to the fight span, capped.
    pub duration_secs: i64,
    /// The grounded one-liner describing the moment.
    pub summary: String,
}

/// The mathematical value of a [`ClipPick`].
pub struct ClipPickV {
    pub t_millis: i64,
    pub seek_secs: i64,
    pub duration_secs: i64,
    pub summary: Seq<char>,
}

impl View for ClipPick {
    type V = ClipPickV;

    open spec fn view(&self) -> ClipPickV {
        ClipPickV {
            t_millis: self.t_millis,
            seek_secs: self.seek_secs,
            duration_secs: self.duration_secs,
            summary: self.summary@,
        }
    }
}

impl Clone for ClipPick {
    fn clone(&self) -> (r: ClipPick)
        ensures
            r == *self,
    {
        ClipPick {
            t_millis: self.t_millis,
            seek_secs: self.seek_secs,
            duration_secs: self.duration_secs,
            summary: self.summary.clone(),
        }
    }
}

/// The pick that a candidate becomes.
pub open spec fn pick_from(c: CandidateV) -> ClipPickV {
    ClipPickV { t_millis: c.t_ms, seek_secs: c.seek_s, duration_secs: c.dur_s, summary: c.summary }
}

impl From<&Candidate> for ClipPick {
    fn from(c: &Candidate) -> (r: ClipPick) {
        ClipPick {
            t_millis: c.t_ms,
            seek_secs: c.seek_s,
            duration_secs: c.dur_s,
            summary: c.summary.clone(),
        }
    }
}

impl vstd::std_specs::convert::FromSpecImpl<&Candidate> for ClipPick {
    open spec fn obeys_from_spec() -> bool {
        true
    }

    open spec fn from_spec(c: &Candidate) -> ClipPick {
        ClipPick {
            t_millis: c.t_ms,
            seek_secs: c.seek_s,
            duration_secs: c.dur_s,
            summary: c.summary,
        }
    }
}

impl ClipPickV {
    /// `**m:ss** — summary`.
    pub open spec fn caption_text(self) -> Seq<char> {
        "**"@ + text::clock(self.t_millis as int) + "** — "@ + self.summary
    }
}

impl ClipPick {
    /// The moment's timestamp as `m:ss` (how captions and logs render it).
    pub fn timestamp(&self) -> (r: String)
        ensures
            r@ == text::clock(self.t_millis as int),
    {
        mmss(self.t_millis)
    }

    /// The caption the post renders beside the clip: `**m:ss** — summary`.
    pub fn caption(&self) -> (r: String)
        ensures
            r@ == self@.caption_text(),
    {
        "**".to_string().concat(self.timestamp().as_str()).concat("** — ").concat(
            self.summary.as_str(),
        )
    }
}

/// The fields of a [`ClipPick`].
pub type PickFields = (i64, (i64, (i64, (String, ()))));

pub open spec fn pick_names() -> Seq<Seq<char>> {
    seq!["t_millis"@, "seek_secs"@, "duration_secs"@, "summary"@]
}

fn pick_labels() -> (r: Vec<&'static str>)
    ensures
        leaves::labels(r@) == pick_names(),
        r@.len() == 4,
{
    let r: Vec<&'static str> = vec!["t_millis", "seek_secs", "duration_secs", "summary"];
    proof {
        assert(leaves::labels(r@) =~= pick_names());
    }
    r
}

impl StorageLeaves for ClipPick {
    type Val = ClipPickV;

    open spec fn val(&self) -> ClipPickV {
        self@
    }

    open spec fn shape() -> Seq<u8> {
        struct_shape::<PickFields>()
    }

    open spec fn told_apart(roots: Roots) -> bool {
        true
    }

    open spec fn put(v: ClipPickV, roots: Roots, carry: u64, depth: u32, m: Rows) -> Result<
        Rows,
        StorageError,
    > {
        struct_put::<PickFields>(
            (v.t_millis, (v.seek_secs, (v.duration_secs, (v.summary, ())))),
            pick_names(),
            roots,
            carry,
            depth,
            m,
        )
    }

    open spec fn get(roots: Roots, carry: u64, depth: u32, m: Rows) -> Result<
        (ClipPickV, Rows),
        StorageError,
    > {
        match struct_get::<PickFields>(pick_names(), roots, carry, depth, m) {
            Ok(((t_millis, (seek_secs, (duration_secs, (summary, _)))), rest)) => Ok(
                (ClipPickV { t_millis, seek_secs, duration_secs, summary }, rest),
            ),
            Err(e) => Err(e),
        }
    }

    open spec fn missing(carry: u64, depth: u32, m: Rows) -> bool {
        <PickFields as Row>::missing(pick_names(), 0, carry, depth, m)
    }

    fn shape_bytes() -> (r: Vec<u8>) {
        struct_shape_bytes::<PickFields>(4)
    }

    fn contribute(&self, roots: &Roots, carry: u64, depth: u32, sink: &mut Records) -> (r: Result<
        (),
        StorageError,
    >) {
        let row: PickFields = (
            self.t_millis,
            (self.seek_secs, (self.duration_secs, (self.summary.clone(), ()))),
        );
        struct_contribute(&row, &pick_labels(), roots, carry, depth, sink)
    }

    fn assemble(roots: &Roots, carry: u64, depth: u32, source: &mut Records) -> (r: Result<
        ClipPick,
        StorageError,
    >) {
        match struct_assemble::<PickFields>(&pick_labels(), roots, carry, depth, source) {
            Ok((t_millis, (seek_secs, (duration_secs, (summary, _))))) => Ok(
                ClipPick { t_millis, seek_secs, duration_secs, summary },
            ),
            Err(e) => Err(e),
        }
    }

    fn is_absent(carry: u64, depth: u32, source: &Records) -> (r: bool) {
        <PickFields as Row>::is_absent(&pick_labels(), 0, carry, depth, source)
    }

    proof fn lemma_comes_back(
        v: ClipPickV,
        roots: Roots,
        carry: u64,
        depth: u32,
        m: Rows,
        big: Rows,
    ) {
        <PickFields as Row>::lemma_comes_back(
            (v.t_millis, (v.seek_secs, (v.duration_secs, (v.summary, ())))),
            pick_names(),
            0,
            roots,
            carry,
            depth,
            m,
            big,
        );
    }
}

// --- events ------------------------------------------------------------------

/// Copies an optional text.
pub fn copy_text(s: &Option<String>) -> (r: Option<String>)
    ensures
        r == *s,
{
    match s {
        Some(s) => Some(s.clone()),
        None => None,
    }
}

/// Copies an optional pick.
pub fn copy_pick(p: &Option<ClipPick>) -> (r: Option<ClipPick>)
    ensures
        r == *p,
{
    match p {
        Some(p) => Some(p.clone()),
        None => None,
    }
}

/// Copies an optional standing.
pub fn copy_rank(k: &Option<RankInfo>) -> (r: Option<RankInfo>)
    ensures
        r == *k,
{
    match k {
        Some(k) => Some(k.clone()),
        None => None,
    }
}

/// The deterministic clip picks for one tracked player's perspective of a
/// game — the output of the joint assignment over every tracked player in the
/// lobby. Journaled at analysis time; the post's captions and the recorder's
/// clip windows read this event, never an archive file. Last write wins, so a
/// re-analysis refreshes the picks.
#[derive(Debug, PartialEq, Eq)]
pub struct PicksAssigned {
    /// Riot platform id, e.g. "NA1".
    pub platform: String,
    /// Numeric game id (the match id with the platform prefix stripped).
    pub game_id: u64,
    /// The tracked player this perspective centers on (`gameName#tagLine`).
    pub riot_id: String,
    /// The player's permanent PUUID (the identity the projection keys by).
    pub puuid: String,
    /// The best moment worth celebrating, if any scored.
    pub highlight: Option<ClipPick>,
    /// The best moment worth learning from, if any scored.
    pub lowlight: Option<ClipPick>,
}

/// The mathematical value of a [`PicksAssigned`].
pub struct PicksV {
    pub platform: Seq<char>,
    pub game_id: u64,
    pub riot_id: Seq<char>,
    pub puuid: Seq<char>,
    pub highlight: Option<ClipPickV>,
    pub lowlight: Option<ClipPickV>,
}

impl View for PicksAssigned {
    type V = PicksV;

    open spec fn view(&self) -> PicksV {
        PicksV {
            platform: self.platform@,
            game_id: self.game_id,
            riot_id: self.riot_id@,
            puuid: self.puuid@,
            highlight: self.highlight.val(),
            lowlight: self.lowlight.val(),
        }
    }
}

impl Clone for PicksAssigned {
    fn clone(&self) -> (r: PicksAssigned)
        ensures
            r == *self,
    {
        PicksAssigned {
            platform: self.platform.clone(),
            game_id: self.game_id,
            riot_id: self.riot_id.clone(),
            puuid: self.puuid.clone(),
            highlight: copy_pick(&self.highlight),
            lowlight: copy_pick(&self.lowlight),
        }
    }
}

impl Kind for PicksAssigned {
    type Val = PicksV;

    type Fields = (String, (u64, (String, (String, (Option<ClipPick>, (Option<ClipPick>, ()))))));

    open spec fn val(&self) -> PicksV {
        self@
    }

    open spec fn kind_name() -> Seq<char> {
        "scry.journal.picks_assigned"@
    }

    open spec fn field_names() -> Seq<Seq<char>> {
        seq!["platform"@, "game_id"@, "riot_id"@, "puuid"@, "highlight"@, "lowlight"@]
    }

    open spec fn fields_of(v: PicksV) -> <Self::Fields as Row>::Val {
        (v.platform, (v.game_id, (v.riot_id, (v.puuid, (v.highlight, (v.lowlight, ()))))))
    }

    open spec fn value_of(fields: <Self::Fields as Row>::Val) -> PicksV {
        let (platform, (game_id, (riot_id, (puuid, (highlight, (lowlight, _)))))) = fields;
        PicksV { platform, game_id, riot_id, puuid, highlight, lowlight }
    }

    fn name() -> (r: &'static str) {
        "scry.journal.picks_assigned"
    }

    fn names() -> (r: Vec<&'static str>) {
        let r: Vec<&'static str> = vec!["platform", "game_id", "riot_id", "puuid", "highlight", "lowlight"];
        proof {
            assert(leaves::labels(r@) =~= Self::field_names());
            assert(<(Option<ClipPick>, ()) as Row>::width() == 1);
            assert(<(Option<ClipPick>, (Option<ClipPick>, ())) as Row>::width() == 2);
            assert(<(String, (Option<ClipPick>, (Option<ClipPick>, ()))) as Row>::width() == 3);
            assert(<(String, (String, (Option<ClipPick>, (Option<ClipPick>, ())))) as Row>::width() == 4);
            assert(<(u64, (String, (String, (Option<ClipPick>, (Option<ClipPick>, ()))))) as Row>::width() == 5);
        }
        r
    }

    fn to_fields(&self) -> (r: Self::Fields) {
        let copy: PicksAssigned = self.clone();
        let r: Self::Fields = (copy.platform, (copy.game_id, (copy.riot_id, (copy.puuid, (copy.highlight, (copy.lowlight, ()))))));
        proof {
            assert(r.1.1.1.1.1.val() == (self@.lowlight, ()));
            assert(r.1.1.1.1.val() == (self@.highlight, (self@.lowlight, ())));
            assert(r.1.1.1.val() == (self@.puuid, (self@.highlight, (self@.lowlight, ()))));
            assert(r.1.1.val() == (self@.riot_id, (self@.puuid, (self@.highlight, (self@.lowlight, ())))));
            assert(r.1.val() == (self@.game_id, (self@.riot_id, (self@.puuid, (self@.highlight, (self@.lowlight, ()))))));
        }
        r
    }

    fn from_fields(fields: Self::Fields) -> (r: PicksAssigned) {
        proof {
            assert(fields.1.1.1.1.1.val() == (fields.1.1.1.1.1.0.val(), ()));
            assert(fields.1.1.1.1.val() == (fields.1.1.1.1.0.val(), (fields.1.1.1.1.1.0.val(), ())));
            assert(fields.1.1.1.val() == (fields.1.1.1.0.val(), (fields.1.1.1.1.0.val(), (fields.1.1.1.1.1.0.val(), ()))));
            assert(fields.1.1.val() == (fields.1.1.0.val(), (fields.1.1.1.0.val(), (fields.1.1.1.1.0.val(), (fields.1.1.1.1.1.0.val(), ())))));
            assert(fields.1.val() == (fields.1.0.val(), (fields.1.1.0.val(), (fields.1.1.1.0.val(), (fields.1.1.1.1.0.val(), (fields.1.1.1.1.1.0.val(), ()))))));
        }
        let (platform, (game_id, (riot_id, (puuid, (highlight, (lowlight, _)))))) = fields;
        PicksAssigned { platform, game_id, riot_id, puuid, highlight, lowlight }
    }

    proof fn lemma_fields(v: PicksV) {
    }
}

/// A game's package was posted to Discord for one tracked player.
///
/// This is the dedup truth the poller consults (was this game already posted
/// for this player?) and the clip pass's job source: a posted game without a
/// terminal clip event is a pending clip job for `riot_id`'s perspective.
#[derive(Debug, PartialEq, Eq)]
pub struct GamePosted {
    /// Riot platform id, e.g. "NA1".
    pub platform: String,
    /// Numeric game id (the match id with the platform prefix stripped).
    pub game_id: u64,
    /// The tracked player the post centers on (`gameName#tagLine`).
    pub riot_id: String,
    /// Match queue id (420 ranked solo, 440 flex, …).
    pub queue_id: u32,
    /// Discord message id, so the clip pass can edit the post later. Empty
    /// when the webhook returned none (clips then can't attach).
    pub message_id: String,
    /// The LP line rendered at post time, so the clip-attach edit reproduces
    /// it without a Riot call. Trailing optional: rows written before this
    /// field decode with it absent.
    pub rank: Option<RankInfo>,
    /// The player's permanent PUUID — the identity dedup and floors key by
    /// (names are display labels that change). Trailing optional; rows
    /// written before this field re-key through the account_resolved pins.
    pub puuid: Option<String>,
}

/// The mathematical value of a [`GamePosted`].
pub struct PostedV {
    pub platform: Seq<char>,
    pub game_id: u64,
    pub riot_id: Seq<char>,
    pub queue_id: u32,
    pub message_id: Seq<char>,
    pub rank: Option<RankInfoV>,
    pub puuid: Option<Seq<char>>,
}

impl View for GamePosted {
    type V = PostedV;

    open spec fn view(&self) -> PostedV {
        PostedV {
            platform: self.platform@,
            game_id: self.game_id,
            riot_id: self.riot_id@,
            queue_id: self.queue_id,
            message_id: self.message_id@,
            rank: self.rank.val(),
            puuid: self.puuid.val(),
        }
    }
}

impl Clone for GamePosted {
    fn clone(&self) -> (r: GamePosted)
        ensures
            r == *self,
    {
        GamePosted {
            platform: self.platform.clone(),
            game_id: self.game_id,
            riot_id: self.riot_id.clone(),
            queue_id: self.queue_id,
            message_id: self.message_id.clone(),
            rank: copy_rank(&self.rank),
            puuid: copy_text(&self.puuid),
        }
    }
}

impl Kind for GamePosted {
    type Val = PostedV;

    type Fields = (String, (u64, (String, (u32, (String, (Option<RankInfo>, (Option<String>, ())))))));

    open spec fn val(&self) -> PostedV {
        self@
    }

    open spec fn kind_name() -> Seq<char> {
        "scry.journal.game_posted"@
    }

    open spec fn field_names() -> Seq<Seq<char>> {
        seq!["platform"@, "game_id"@, "riot_id"@, "queue_id"@, "message_id"@, "rank"@, "puuid"@]
    }

    open spec fn fields_of(v: PostedV) -> <Self::Fields as Row>::Val {
        (v.platform, (v.game_id, (v.riot_id, (v.queue_id, (v.message_id, (v.rank, (v.puuid, ())))))))
    }

    open spec fn value_of(fields: <Self::Fields as Row>::Val) -> PostedV {
        let (platform, (game_id, (riot_id, (queue_id, (message_id, (rank, (puuid, _))))))) = fields;
        PostedV { platform, game_id, riot_id, queue_id, message_id, rank, puuid }
    }

    fn name() -> (r: &'static str) {
        "scry.journal.game_posted"
    }

    fn names() -> (r: Vec<&'static str>) {
        let r: Vec<&'static str> = vec!["platform", "game_id", "riot_id", "queue_id", "message_id", "rank", "puuid"];
        proof {
            assert(leaves::labels(r@) =~= Self::field_names());
            assert(<(Option<String>, ()) as Row>::width() == 1);
            assert(<(Option<RankInfo>, (Option<String>, ())) as Row>::width() == 2);
            assert(<(String, (Option<RankInfo>, (Option<String>, ()))) as Row>::width() == 3);
            assert(<(u32, (String, (Option<RankInfo>, (Option<String>, ())))) as Row>::width() == 4);
            assert(<(String, (u32, (String, (Option<RankInfo>, (Option<String>, ()))))) as Row>::width() == 5);
            assert(<(u64, (String, (u32, (String, (Option<RankInfo>, (Option<String>, ())))))) as Row>::width() == 6);
        }
        r
    }

    fn to_fields(&self) -> (r: Self::Fields) {
        let copy: GamePosted = self.clone();
        let r: Self::Fields = (copy.platform, (copy.game_id, (copy.riot_id, (copy.queue_id, (copy.message_id, (copy.rank, (copy.puuid, ())))))));
        proof {
            assert(r.1.1.1.1.1.1.val() == (self@.puuid, ()));
            assert(r.1.1.1.1.1.val() == (self@.rank, (self@.puuid, ())));
            assert(r.1.1.1.1.val() == (self@.message_id, (self@.rank, (self@.puuid, ()))));
            assert(r.1.1.1.val() == (self@.queue_id, (self@.message_id, (self@.rank, (self@.puuid, ())))));
            assert(r.1.1.val() == (self@.riot_id, (self@.queue_id, (self@.message_id, (self@.rank, (self@.puuid, ()))))));
            assert(r.1.val() == (self@.game_id, (self@.riot_id, (self@.queue_id, (self@.message_id, (self@.rank, (self@.puuid, ())))))));
        }
        r
    }

    fn from_fields(fields: Self::Fields) -> (r: GamePosted) {
        proof {
            assert(fields.1.1.1.1.1.1.val() == (fields.1.1.1.1.1.1.0.val(), ()));
            assert(fields.1.1.1.1.1.val() == (fields.1.1.1.1.1.0.val(), (fields.1.1.1.1.1.1.0.val(), ())));
            assert(fields.1.1.1.1.val() == (fields.1.1.1.1.0.val(), (fields.1.1.1.1.1.0.val(), (fields.1.1.1.1.1.1.0.val(), ()))));
            assert(fields.1.1.1.val() == (fields.1.1.1.0.val(), (fields.1.1.1.1.0.val(), (fields.1.1.1.1.1.0.val(), (fields.1.1.1.1.1.1.0.val(), ())))));
            assert(fields.1.1.val() == (fields.1.1.0.val(), (fields.1.1.1.0.val(), (fields.1.1.1.1.0.val(), (fields.1.1.1.1.1.0.val(), (fields.1.1.1.1.1.1.0.val(), ()))))));
            assert(fields.1.val() == (fields.1.0.val(), (fields.1.1.0.val(), (fields.1.1.1.0.val(), (fields.1.1.1.1.0.val(), (fields.1.1.1.1.1.0.val(), (fields.1.1.1.1.1.1.0.val(), ())))))));
        }
        let (platform, (game_id, (riot_id, (queue_id, (message_id, (rank, (puuid, _))))))) = fields;
        GamePosted { platform, game_id, riot_id, queue_id, message_id, rank, puuid }
    }

    proof fn lemma_fields(v: PostedV) {
    }
}

/// The player's ranked standing at post time. The LP delta on a post is the
/// ladder-value diff between the two most recent observations for the same
/// (`puuid`, `queue_id`).
#[derive(Debug, PartialEq, Eq)]
pub struct RankObserved {
    pub puuid: String,
    /// Display context only; the baseline is keyed by `puuid`.
    pub riot_id: String,
    pub queue_id: u32,
    /// Monotonic ladder position, the diff basis.
    pub ladder_value: i32,
    /// Display label at observation time, e.g. "Gold II".
    pub label: String,
    pub lp: i32,
}

/// The mathematical value of a [`RankObserved`].
pub struct RankSeenV {
    pub puuid: Seq<char>,
    pub riot_id: Seq<char>,
    pub queue_id: u32,
    pub ladder_value: i32,
    pub label: Seq<char>,
    pub lp: i32,
}

impl View for RankObserved {
    type V = RankSeenV;

    open spec fn view(&self) -> RankSeenV {
        RankSeenV {
            puuid: self.puuid@,
            riot_id: self.riot_id@,
            queue_id: self.queue_id,
            ladder_value: self.ladder_value,
            label: self.label@,
            lp: self.lp,
        }
    }
}

impl Clone for RankObserved {
    fn clone(&self) -> (r: RankObserved)
        ensures
            r == *self,
    {
        RankObserved {
            puuid: self.puuid.clone(),
            riot_id: self.riot_id.clone(),
            queue_id: self.queue_id,
            ladder_value: self.ladder_value,
            label: self.label.clone(),
            lp: self.lp,
        }
    }
}

impl Kind for RankObserved {
    type Val = RankSeenV;

    type Fields = (String, (String, (u32, (i32, (String, (i32, ()))))));

    open spec fn val(&self) -> RankSeenV {
        self@
    }

    open spec fn kind_name() -> Seq<char> {
        "scry.journal.rank_observed"@
    }

    open spec fn field_names() -> Seq<Seq<char>> {
        seq!["puuid"@, "riot_id"@, "queue_id"@, "ladder_value"@, "label"@, "lp"@]
    }

    open spec fn fields_of(v: RankSeenV) -> <Self::Fields as Row>::Val {
        (v.puuid, (v.riot_id, (v.queue_id, (v.ladder_value, (v.label, (v.lp, ()))))))
    }

    open spec fn value_of(fields: <Self::Fields as Row>::Val) -> RankSeenV {
        let (puuid, (riot_id, (queue_id, (ladder_value, (label, (lp, _)))))) = fields;
        RankSeenV { puuid, riot_id, queue_id, ladder_value, label, lp }
    }

    fn name() -> (r: &'static str) {
        "scry.journal.rank_observed"
    }

    fn names() -> (r: Vec<&'static str>) {
        let r: Vec<&'static str> = vec!["puuid", "riot_id", "queue_id", "ladder_value", "label", "lp"];
        proof {
            assert(leaves::labels(r@) =~= Self::field_names());
            assert(<(i32, ()) as Row>::width() == 1);
            assert(<(String, (i32, ())) as Row>::width() == 2);
            assert(<(i32, (String, (i32, ()))) as Row>::width() == 3);
            assert(<(u32, (i32, (String, (i32, ())))) as Row>::width() == 4);
            assert(<(String, (u32, (i32, (String, (i32, ()))))) as Row>::width() == 5);
        }
        r
    }

    fn to_fields(&self) -> (r: Self::Fields) {
        let copy: RankObserved = self.clone();
        let r: Self::Fields = (copy.puuid, (copy.riot_id, (copy.queue_id, (copy.ladder_value, (copy.label, (copy.lp, ()))))));
        proof {
            assert(r.1.1.1.1.1.val() == (self@.lp, ()));
            assert(r.1.1.1.1.val() == (self@.label, (self@.lp, ())));
            assert(r.1.1.1.val() == (self@.ladder_value, (self@.label, (self@.lp, ()))));
            assert(r.1.1.val() == (self@.queue_id, (self@.ladder_value, (self@.label, (self@.lp, ())))));
            assert(r.1.val() == (self@.riot_id, (self@.queue_id, (self@.ladder_value, (self@.label, (self@.lp, ()))))));
        }
        r
    }

    fn from_fields(fields: Self::Fields) -> (r: RankObserved) {
        proof {
            assert(fields.1.1.1.1.1.val() == (fields.1.1.1.1.1.0.val(), ()));
            assert(fields.1.1.1.1.val() == (fields.1.1.1.1.0.val(), (fields.1.1.1.1.1.0.val(), ())));
            assert(fields.1.1.1.val() == (fields.1.1.1.0.val(), (fields.1.1.1.1.0.val(), (fields.1.1.1.1.1.0.val(), ()))));
            assert(fields.1.1.val() == (fields.1.1.0.val(), (fields.1.1.1.0.val(), (fields.1.1.1.1.0.val(), (fields.1.1.1.1.1.0.val(), ())))));
            assert(fields.1.val() == (fields.1.0.val(), (fields.1.1.0.val(), (fields.1.1.1.0.val(), (fields.1.1.1.1.0.val(), (fields.1.1.1.1.1.0.val(), ()))))));
        }
        let (puuid, (riot_id, (queue_id, (ladder_value, (label, (lp, _)))))) = fields;
        RankObserved { puuid, riot_id, queue_id, ladder_value, label, lp }
    }

    proof fn lemma_fields(v: RankSeenV) {
    }
}

/// An account's Riot ID resolved to its permanent PUUID — the memory that
/// lets a later resolution failure be recognized as a rename and reversed.
/// Appended only when the mapping changes.
#[derive(Debug, PartialEq, Eq)]
pub struct AccountResolved {
    pub riot_id: String,
    pub puuid: String,
}

/// The mathematical value of a [`AccountResolved`].
pub struct ResolvedV {
    pub riot_id: Seq<char>,
    pub puuid: Seq<char>,
}

impl View for AccountResolved {
    type V = ResolvedV;

    open spec fn view(&self) -> ResolvedV {
        ResolvedV {
            riot_id: self.riot_id@,
            puuid: self.puuid@,
        }
    }
}

impl Clone for AccountResolved {
    fn clone(&self) -> (r: AccountResolved)
        ensures
            r == *self,
    {
        AccountResolved {
            riot_id: self.riot_id.clone(),
            puuid: self.puuid.clone(),
        }
    }
}

impl Kind for AccountResolved {
    type Val = ResolvedV;

    type Fields = (String, (String, ()));

    open spec fn val(&self) -> ResolvedV {
        self@
    }

    open spec fn kind_name() -> Seq<char> {
        "scry.journal.account_resolved"@
    }

    open spec fn field_names() -> Seq<Seq<char>> {
        seq!["riot_id"@, "puuid"@]
    }

    open spec fn fields_of(v: ResolvedV) -> <Self::Fields as Row>::Val {
        (v.riot_id, (v.puuid, ()))
    }

    open spec fn value_of(fields: <Self::Fields as Row>::Val) -> ResolvedV {
        let (riot_id, (puuid, _)) = fields;
        ResolvedV { riot_id, puuid }
    }

    fn name() -> (r: &'static str) {
        "scry.journal.account_resolved"
    }

    fn names() -> (r: Vec<&'static str>) {
        let r: Vec<&'static str> = vec!["riot_id", "puuid"];
        proof {
            assert(leaves::labels(r@) =~= Self::field_names());
        }
        r
    }

    fn to_fields(&self) -> (r: Self::Fields) {
        let copy: AccountResolved = self.clone();
        (copy.riot_id, (copy.puuid, ()))
    }

    fn from_fields(fields: Self::Fields) -> (r: AccountResolved) {
        let (riot_id, (puuid, _)) = fields;
        AccountResolved { riot_id, puuid }
    }

    proof fn lemma_fields(v: ResolvedV) {
    }
}

/// A tracked account's Riot ID changed; the watch list was rewritten and the
/// posting floor carried to the new name. Audit record of the self-heal.
#[derive(Debug, PartialEq, Eq)]
pub struct AccountRenamed {
    pub old_riot_id: String,
    pub new_riot_id: String,
    pub puuid: String,
}

/// The mathematical value of a [`AccountRenamed`].
pub struct RenamedV {
    pub old_riot_id: Seq<char>,
    pub new_riot_id: Seq<char>,
    pub puuid: Seq<char>,
}

impl View for AccountRenamed {
    type V = RenamedV;

    open spec fn view(&self) -> RenamedV {
        RenamedV {
            old_riot_id: self.old_riot_id@,
            new_riot_id: self.new_riot_id@,
            puuid: self.puuid@,
        }
    }
}

impl Clone for AccountRenamed {
    fn clone(&self) -> (r: AccountRenamed)
        ensures
            r == *self,
    {
        AccountRenamed {
            old_riot_id: self.old_riot_id.clone(),
            new_riot_id: self.new_riot_id.clone(),
            puuid: self.puuid.clone(),
        }
    }
}

impl Kind for AccountRenamed {
    type Val = RenamedV;

    type Fields = (String, (String, (String, ())));

    open spec fn val(&self) -> RenamedV {
        self@
    }

    open spec fn kind_name() -> Seq<char> {
        "scry.journal.account_renamed"@
    }

    open spec fn field_names() -> Seq<Seq<char>> {
        seq!["old_riot_id"@, "new_riot_id"@, "puuid"@]
    }

    open spec fn fields_of(v: RenamedV) -> <Self::Fields as Row>::Val {
        (v.old_riot_id, (v.new_riot_id, (v.puuid, ())))
    }

    open spec fn value_of(fields: <Self::Fields as Row>::Val) -> RenamedV {
        let (old_riot_id, (new_riot_id, (puuid, _))) = fields;
        RenamedV { old_riot_id, new_riot_id, puuid }
    }

    fn name() -> (r: &'static str) {
        "scry.journal.account_renamed"
    }

    fn names() -> (r: Vec<&'static str>) {
        let r: Vec<&'static str> = vec!["old_riot_id", "new_riot_id", "puuid"];
        proof {
            assert(leaves::labels(r@) =~= Self::field_names());
        }
        r
    }

    fn to_fields(&self) -> (r: Self::Fields) {
        let copy: AccountRenamed = self.clone();
        (copy.old_riot_id, (copy.new_riot_id, (copy.puuid, ())))
    }

    fn from_fields(fields: Self::Fields) -> (r: AccountRenamed) {
        let (old_riot_id, (new_riot_id, (puuid, _))) = fields;
        AccountRenamed { old_riot_id, new_riot_id, puuid }
    }

    proof fn lemma_fields(v: RenamedV) {
    }
}

/// One clip-recording attempt started for a posted game (the retry budget).
#[derive(Debug, PartialEq, Eq)]
pub struct ClipAttempt {
    pub platform: String,
    pub game_id: u64,
    /// 1-based attempt number; the projection keeps the max seen.
    pub try_number: u32,
    /// The tracked player whose perspective this attempt records — clip jobs
    /// are per (game, player) since tracked players share games. Trailing
    /// optional: a legacy event (absent) applies to every job of the game.
    pub riot_id: Option<String>,
}

/// The mathematical value of a [`ClipAttempt`].
pub struct AttemptV {
    pub platform: Seq<char>,
    pub game_id: u64,
    pub try_number: u32,
    pub riot_id: Option<Seq<char>>,
}

impl View for ClipAttempt {
    type V = AttemptV;

    open spec fn view(&self) -> AttemptV {
        AttemptV {
            platform: self.platform@,
            game_id: self.game_id,
            try_number: self.try_number,
            riot_id: self.riot_id.val(),
        }
    }
}

impl Clone for ClipAttempt {
    fn clone(&self) -> (r: ClipAttempt)
        ensures
            r == *self,
    {
        ClipAttempt {
            platform: self.platform.clone(),
            game_id: self.game_id,
            try_number: self.try_number,
            riot_id: copy_text(&self.riot_id),
        }
    }
}

impl Kind for ClipAttempt {
    type Val = AttemptV;

    type Fields = (String, (u64, (u32, (Option<String>, ()))));

    open spec fn val(&self) -> AttemptV {
        self@
    }

    open spec fn kind_name() -> Seq<char> {
        "scry.journal.clip_attempt"@
    }

    open spec fn field_names() -> Seq<Seq<char>> {
        seq!["platform"@, "game_id"@, "try_number"@, "riot_id"@]
    }

    open spec fn fields_of(v: AttemptV) -> <Self::Fields as Row>::Val {
        (v.platform, (v.game_id, (v.try_number, (v.riot_id, ()))))
    }

    open spec fn value_of(fields: <Self::Fields as Row>::Val) -> AttemptV {
        let (platform, (game_id, (try_number, (riot_id, _)))) = fields;
        AttemptV { platform, game_id, try_number, riot_id }
    }

    fn name() -> (r: &'static str) {
        "scry.journal.clip_attempt"
    }

    fn names() -> (r: Vec<&'static str>) {
        let r: Vec<&'static str> = vec!["platform", "game_id", "try_number", "riot_id"];
        proof {
            assert(leaves::labels(r@) =~= Self::field_names());
            assert(<(Option<String>, ()) as Row>::width() == 1);
            assert(<(u32, (Option<String>, ())) as Row>::width() == 2);
            assert(<(u64, (u32, (Option<String>, ()))) as Row>::width() == 3);
        }
        r
    }

    fn to_fields(&self) -> (r: Self::Fields) {
        let copy: ClipAttempt = self.clone();
        let r: Self::Fields = (copy.platform, (copy.game_id, (copy.try_number, (copy.riot_id, ()))));
        proof {
            assert(r.1.1.1.val() == (self@.riot_id, ()));
            assert(r.1.1.val() == (self@.try_number, (self@.riot_id, ())));
            assert(r.1.val() == (self@.game_id, (self@.try_number, (self@.riot_id, ()))));
        }
        r
    }

    fn from_fields(fields: Self::Fields) -> (r: ClipAttempt) {
        proof {
            assert(fields.1.1.1.val() == (fields.1.1.1.0.val(), ()));
            assert(fields.1.1.val() == (fields.1.1.0.val(), (fields.1.1.1.0.val(), ())));
            assert(fields.1.val() == (fields.1.0.val(), (fields.1.1.0.val(), (fields.1.1.1.0.val(), ()))));
        }
        let (platform, (game_id, (try_number, (riot_id, _)))) = fields;
        ClipAttempt { platform, game_id, try_number, riot_id }
    }

    proof fn lemma_fields(v: AttemptV) {
    }
}

/// Highlight/lowlight clips were recorded and attached to the post — the
/// successful terminal state of a clip job.
#[derive(Debug, PartialEq, Eq)]
pub struct ClipsAttached {
    pub platform: String,
    pub game_id: u64,
    /// The perspective attached; a legacy event (absent) finishes every job
    /// of the game.
    pub riot_id: Option<String>,
}

/// The mathematical value of a [`ClipsAttached`].
pub struct AttachedV {
    pub platform: Seq<char>,
    pub game_id: u64,
    pub riot_id: Option<Seq<char>>,
}

impl View for ClipsAttached {
    type V = AttachedV;

    open spec fn view(&self) -> AttachedV {
        AttachedV {
            platform: self.platform@,
            game_id: self.game_id,
            riot_id: self.riot_id.val(),
        }
    }
}

impl Clone for ClipsAttached {
    fn clone(&self) -> (r: ClipsAttached)
        ensures
            r == *self,
    {
        ClipsAttached {
            platform: self.platform.clone(),
            game_id: self.game_id,
            riot_id: copy_text(&self.riot_id),
        }
    }
}

impl Kind for ClipsAttached {
    type Val = AttachedV;

    type Fields = (String, (u64, (Option<String>, ())));

    open spec fn val(&self) -> AttachedV {
        self@
    }

    open spec fn kind_name() -> Seq<char> {
        "scry.journal.clips_attached"@
    }

    open spec fn field_names() -> Seq<Seq<char>> {
        seq!["platform"@, "game_id"@, "riot_id"@]
    }

    open spec fn fields_of(v: AttachedV) -> <Self::Fields as Row>::Val {
        (v.platform, (v.game_id, (v.riot_id, ())))
    }

    open spec fn value_of(fields: <Self::Fields as Row>::Val) -> AttachedV {
        let (platform, (game_id, (riot_id, _))) = fields;
        AttachedV { platform, game_id, riot_id }
    }

    fn name() -> (r: &'static str) {
        "scry.journal.clips_attached"
    }

    fn names() -> (r: Vec<&'static str>) {
        let r: Vec<&'static str> = vec!["platform", "game_id", "riot_id"];
        proof {
            assert(leaves::labels(r@) =~= Self::field_names());
        }
        r
    }

    fn to_fields(&self) -> (r: Self::Fields) {
        let copy: ClipsAttached = self.clone();
        (copy.platform, (copy.game_id, (copy.riot_id, ())))
    }

    fn from_fields(fields: Self::Fields) -> (r: ClipsAttached) {
        let (platform, (game_id, (riot_id, _))) = fields;
        ClipsAttached { platform, game_id, riot_id }
    }

    proof fn lemma_fields(v: AttachedV) {
    }
}

/// Clip recording abandoned after exhausting the retry budget — the failed
/// terminal state of a clip job.
#[derive(Debug, PartialEq, Eq)]
pub struct ClipsAbandoned {
    pub platform: String,
    pub game_id: u64,
    /// Attempts made before giving up.
    pub tries: u32,
    /// The perspective abandoned; a legacy event (absent) — including the
    /// maintenance flag's — finishes every job of the game.
    pub riot_id: Option<String>,
}

/// The mathematical value of a [`ClipsAbandoned`].
pub struct AbandonedV {
    pub platform: Seq<char>,
    pub game_id: u64,
    pub tries: u32,
    pub riot_id: Option<Seq<char>>,
}

impl View for ClipsAbandoned {
    type V = AbandonedV;

    open spec fn view(&self) -> AbandonedV {
        AbandonedV {
            platform: self.platform@,
            game_id: self.game_id,
            tries: self.tries,
            riot_id: self.riot_id.val(),
        }
    }
}

impl Clone for ClipsAbandoned {
    fn clone(&self) -> (r: ClipsAbandoned)
        ensures
            r == *self,
    {
        ClipsAbandoned {
            platform: self.platform.clone(),
            game_id: self.game_id,
            tries: self.tries,
            riot_id: copy_text(&self.riot_id),
        }
    }
}

impl Kind for ClipsAbandoned {
    type Val = AbandonedV;

    type Fields = (String, (u64, (u32, (Option<String>, ()))));

    open spec fn val(&self) -> AbandonedV {
        self@
    }

    open spec fn kind_name() -> Seq<char> {
        "scry.journal.clips_abandoned"@
    }

    open spec fn field_names() -> Seq<Seq<char>> {
        seq!["platform"@, "game_id"@, "tries"@, "riot_id"@]
    }

    open spec fn fields_of(v: AbandonedV) -> <Self::Fields as Row>::Val {
        (v.platform, (v.game_id, (v.tries, (v.riot_id, ()))))
    }

    open spec fn value_of(fields: <Self::Fields as Row>::Val) -> AbandonedV {
        let (platform, (game_id, (tries, (riot_id, _)))) = fields;
        AbandonedV { platform, game_id, tries, riot_id }
    }

    fn name() -> (r: &'static str) {
        "scry.journal.clips_abandoned"
    }

    fn names() -> (r: Vec<&'static str>) {
        let r: Vec<&'static str> = vec!["platform", "game_id", "tries", "riot_id"];
        proof {
            assert(leaves::labels(r@) =~= Self::field_names());
            assert(<(Option<String>, ()) as Row>::width() == 1);
            assert(<(u32, (Option<String>, ())) as Row>::width() == 2);
            assert(<(u64, (u32, (Option<String>, ()))) as Row>::width() == 3);
        }
        r
    }

    fn to_fields(&self) -> (r: Self::Fields) {
        let copy: ClipsAbandoned = self.clone();
        let r: Self::Fields = (copy.platform, (copy.game_id, (copy.tries, (copy.riot_id, ()))));
        proof {
            assert(r.1.1.1.val() == (self@.riot_id, ()));
            assert(r.1.1.val() == (self@.tries, (self@.riot_id, ())));
            assert(r.1.val() == (self@.game_id, (self@.tries, (self@.riot_id, ()))));
        }
        r
    }

    fn from_fields(fields: Self::Fields) -> (r: ClipsAbandoned) {
        proof {
            assert(fields.1.1.1.val() == (fields.1.1.1.0.val(), ()));
            assert(fields.1.1.val() == (fields.1.1.0.val(), (fields.1.1.1.0.val(), ())));
            assert(fields.1.val() == (fields.1.0.val(), (fields.1.1.0.val(), (fields.1.1.1.0.val(), ()))));
        }
        let (platform, (game_id, (tries, (riot_id, _)))) = fields;
        ClipsAbandoned { platform, game_id, tries, riot_id }
    }

    proof fn lemma_fields(v: AbandonedV) {
    }
}

} // verus!
