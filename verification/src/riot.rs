//! Routing of Riot API requests: which host answers for a platform, which
//! paths hold what, and how Riot IDs are written.

use vstd::prelude::*;

use crate::game::text_of;
use crate::text::{same, same_ignoring_case, split_once, to_ascii_lower};
use crate::{game, text};

verus! {

/// The platforms that are tracked.
#[derive(Debug, Clone, Copy, PartialEq, Eq, Structural)]
pub enum Platform {
    Na1,
    Euw1,
    Eun1,
    Kr,
    Br1,
    Jp1,
    La1,
    La2,
    Oc1,
    Tr1,
    Ru,
}

/// The regional clusters that match-v5 and account-v1 route by.
#[derive(Debug, Clone, Copy, PartialEq, Eq, Structural)]
pub enum Regional {
    Americas,
    Asia,
    Europe,
    Sea,
}

// --- platform codes ------------------------------------------------------------

/// The platform that a lower-case region code names.
pub open spec fn platform_named(code: Seq<char>) -> Option<Platform> {
    if code == "na1"@ || code == "na"@ {
        Some(Platform::Na1)
    } else if code == "euw1"@ || code == "euw"@ {
        Some(Platform::Euw1)
    } else if code == "eun1"@ || code == "eune"@ {
        Some(Platform::Eun1)
    } else if code == "kr"@ {
        Some(Platform::Kr)
    } else if code == "br1"@ || code == "br"@ {
        Some(Platform::Br1)
    } else if code == "jp1"@ || code == "jp"@ {
        Some(Platform::Jp1)
    } else if code == "la1"@ {
        Some(Platform::La1)
    } else if code == "la2"@ {
        Some(Platform::La2)
    } else if code == "oc1"@ || code == "oce"@ {
        Some(Platform::Oc1)
    } else if code == "tr1"@ || code == "tr"@ {
        Some(Platform::Tr1)
    } else if code == "ru"@ {
        Some(Platform::Ru)
    } else {
        None
    }
}

/// What is said of a region code that names no platform.
pub open spec fn unknown_region(code: Seq<char>) -> Seq<char> {
    "unknown region `"@ + code
        + "` (expected one of: na1, euw1, eun1, kr, br1, jp1, la1, la2, oc1, tr1, ru)"@
}

/// The platform that a region code names, whatever its case. Covers the main
/// live regions; the error says which.
pub fn parse_platform(region: &str) -> (r: Result<Platform, String>)
    ensures
        match r {
            Ok(p) => platform_named(text::ascii_lowered(region@)) == Some(p),
            Err(e) => platform_named(text::ascii_lowered(region@)) is None && e@ == unknown_region(
                text::ascii_lowered(region@),
            ),
        },
{
    let lowered: String = to_ascii_lower(region);
    let code: &str = lowered.as_str();
    if same(code, "na1") || same(code, "na") {
        Ok(Platform::Na1)
    } else if same(code, "euw1") || same(code, "euw") {
        Ok(Platform::Euw1)
    } else if same(code, "eun1") || same(code, "eune") {
        Ok(Platform::Eun1)
    } else if same(code, "kr") {
        Ok(Platform::Kr)
    } else if same(code, "br1") || same(code, "br") {
        Ok(Platform::Br1)
    } else if same(code, "jp1") || same(code, "jp") {
        Ok(Platform::Jp1)
    } else if same(code, "la1") {
        Ok(Platform::La1)
    } else if same(code, "la2") {
        Ok(Platform::La2)
    } else if same(code, "oc1") || same(code, "oce") {
        Ok(Platform::Oc1)
    } else if same(code, "tr1") || same(code, "tr") {
        Ok(Platform::Tr1)
    } else if same(code, "ru") {
        Ok(Platform::Ru)
    } else {
        Err(
            "unknown region `".to_string().concat(code).concat(
                "` (expected one of: na1, euw1, eun1, kr, br1, jp1, la1, la2, oc1, tr1, ru)",
            ),
        )
    }
}

impl Platform {
    /// The platform's own code, in lower case.
    pub open spec fn code(self) -> Seq<char> {
        match self {
            Platform::Na1 => "na1"@,
            Platform::Euw1 => "euw1"@,
            Platform::Eun1 => "eun1"@,
            Platform::Kr => "kr"@,
            Platform::Br1 => "br1"@,
            Platform::Jp1 => "jp1"@,
            Platform::La1 => "la1"@,
            Platform::La2 => "la2"@,
            Platform::Oc1 => "oc1"@,
            Platform::Tr1 => "tr1"@,
            Platform::Ru => "ru"@,
        }
    }

    /// The slug that OP.GG and League of Graphs use for the platform.
    pub open spec fn slug(self) -> Seq<char> {
        match self {
            Platform::Na1 => "na"@,
            Platform::Euw1 => "euw"@,
            Platform::Eun1 => "eune"@,
            Platform::Kr => "kr"@,
            Platform::Br1 => "br"@,
            Platform::Jp1 => "jp"@,
            Platform::La1 => "lan"@,
            Platform::La2 => "las"@,
            Platform::Oc1 => "oce"@,
            Platform::Tr1 => "tr"@,
            Platform::Ru => "ru"@,
        }
    }

    /// The number that Riot's API schema gives the platform.
    pub open spec fn number(self) -> u8 {
        match self {
            Platform::Br1 => 16,
            Platform::Eun1 => 17,
            Platform::Euw1 => 18,
            Platform::Jp1 => 19,
            Platform::Kr => 20,
            Platform::La1 => 21,
            Platform::La2 => 22,
            Platform::Na1 => 23,
            Platform::Oc1 => 24,
            Platform::Ru => 25,
            Platform::Tr1 => 26,
        }
    }

    /// The cluster that answers for the platform.
    pub open spec fn cluster(self) -> Regional {
        match self {
            Platform::Na1 | Platform::Br1 | Platform::La1 | Platform::La2 => Regional::Americas,
            Platform::Kr | Platform::Jp1 => Regional::Asia,
            Platform::Euw1 | Platform::Eun1 | Platform::Tr1 | Platform::Ru => Regional::Europe,
            Platform::Oc1 => Regional::Sea,
        }
    }

    fn id(self) -> (r: u8)
        ensures
            r == self.number(),
    {
        match self {
            Platform::Br1 => 16,
            Platform::Eun1 => 17,
            Platform::Euw1 => 18,
            Platform::Jp1 => 19,
            Platform::Kr => 20,
            Platform::La1 => 21,
            Platform::La2 => 22,
            Platform::Na1 => 23,
            Platform::Oc1 => 24,
            Platform::Ru => 25,
            Platform::Tr1 => 26,
        }
    }
}

// --- regional clusters ---------------------------------------------------------

impl Regional {
    /// The number that Riot's API schema gives the cluster.
    pub open spec fn number(self) -> u8 {
        match self {
            Regional::Americas => 1,
            Regional::Asia => 2,
            Regional::Europe => 3,
            Regional::Sea => 4,
        }
    }

    /// The cluster's host name.
    pub open spec fn host(self) -> Seq<char> {
        match self {
            Regional::Americas => "americas"@,
            Regional::Asia => "asia"@,
            Regional::Europe => "europe"@,
            Regional::Sea => "sea"@,
        }
    }
}

/// The number of the cluster that answers for the platform with a number
/// (riven's `PlatformRoute::to_regional`, on the platform that
/// `PlatformRoute::try_from` finds under the number). For the numbers 16 to
/// 26, which are the platforms tracked here, the table in riven's route
/// constants says: Brazil, both Latin Americas and North America belong to
/// the Americas (1), Japan and Korea to Asia (2), Oceania to Southeast Asia
/// (4), and the rest to Europe (3).
#[verifier::external_body]
fn regional_number(platform: u8) -> (r: u8)
    requires
        16 <= platform <= 26,
    ensures
        r == (match platform {
            16 | 21 | 22 | 23 => 1u8,
            19 | 20 => 2u8,
            24 => 4u8,
            _ => 3u8,
        }),
{
    let route = riven::consts::PlatformRoute::try_from(platform).unwrap();
    u8::from(route.to_regional())
}

/// The cluster that answers for a platform.
pub fn to_regional(platform: Platform) -> (r: Regional)
    ensures
        r == platform.cluster(),
{
    match regional_number(platform.id()) {
        2 => Regional::Asia,
        3 => Regional::Europe,
        4 => Regional::Sea,
        _ => Regional::Americas,
    }
}

// --- the client ------------------------------------------------------------------

/// Where requests for one platform go, and the key they carry.
///
/// match-v5 and account-v1 both route regionally (AMERICAS / ASIA / EUROPE),
/// which is derived from the platform code (na1, euw1, ...).
#[derive(Debug)]
pub struct Client {
    pub platform: Platform,
    pub regional: Regional,
    pub api_key: String,
}

/// The address of `path` at `host`.
pub open spec fn address(host: Seq<char>, path: Seq<char>) -> Seq<char> {
    "https://"@ + host + ".api.riotgames.com"@ + path
}

fn url(host: &str, path: &str) -> (r: String)
    ensures
        r@ == address(host@, path@),
{
    "https://".to_string().concat(host).concat(".api.riotgames.com").concat(path)
}

impl Client {
    /// Whether the client asks the cluster of its platform.
    pub open spec fn wf(&self) -> bool {
        self.regional == self.platform.cluster()
    }

    /// A client for the platform that `region` names.
    pub fn new(api_key: &str, region: &str) -> (r: Result<Client, String>)
        ensures
            match r {
                Ok(c) => {
                    &&& c.wf()
                    &&& platform_named(text::ascii_lowered(region@)) == Some(c.platform)
                    &&& c.api_key@ == api_key@
                },
                Err(e) => {
                    &&& platform_named(text::ascii_lowered(region@)) is None
                    &&& e@ == unknown_region(text::ascii_lowered(region@))
                },
            },
    {
        match parse_platform(region) {
            Ok(platform) => Ok(
                Client { platform, regional: to_regional(platform), api_key: api_key.to_string() },
            ),
            Err(e) => Err(e),
        }
    }

    /// league-v4 routes by platform (na1, euw1, ...), not by regional cluster.
    pub fn platform_host(&self) -> (r: &'static str)
        ensures
            r@ == self.platform.code(),
    {
        match self.platform {
            Platform::Na1 => "na1",
            Platform::Euw1 => "euw1",
            Platform::Eun1 => "eun1",
            Platform::Kr => "kr",
            Platform::Br1 => "br1",
            Platform::Jp1 => "jp1",
            Platform::La1 => "la1",
            Platform::La2 => "la2",
            Platform::Oc1 => "oc1",
            Platform::Tr1 => "tr1",
            Platform::Ru => "ru",
        }
    }

    /// The host name of the client's cluster.
    pub fn regional_host(&self) -> (r: &'static str)
        ensures
            r@ == self.regional.host(),
    {
        match self.regional {
            Regional::Americas => "americas",
            Regional::Asia => "asia",
            Regional::Europe => "europe",
            Regional::Sea => "sea",
        }
    }

    /// Region slug used by OP.GG / League of Graphs match URLs (na, euw, kr, ...).
    pub fn region_slug(&self) -> (r: &'static str)
        ensures
            r@ == self.platform.slug(),
    {
        slug_of(self.platform)
    }

    /// Where the raw match-v5 detail is.
    pub fn match_url(&self, match_id: &str) -> (r: String)
        ensures
            r@ == address(self.regional.host(), "/lol/match/v5/matches/"@ + match_id@),
    {
        url(self.regional_host(), "/lol/match/v5/matches/".to_string().concat(match_id).as_str())
    }

    /// Where the raw match-v5 timeline is.
    pub fn timeline_url(&self, match_id: &str) -> (r: String)
        ensures
            r@ == address(
                self.regional.host(),
                "/lol/match/v5/matches/"@ + match_id@ + "/timeline"@,
            ),
    {
        url(
            self.regional_host(),
            "/lol/match/v5/matches/".to_string().concat(match_id).concat("/timeline").as_str(),
        )
    }

    /// Where the league-v4 entries of a player are.
    pub fn entries_url(&self, puuid: &str) -> (r: String)
        ensures
            r@ == address(
                self.platform.code(),
                "/lol/league/v4/entries/by-puuid/"@ + puuid@,
            ),
    {
        url(
            self.platform_host(),
            "/lol/league/v4/entries/by-puuid/".to_string().concat(puuid).as_str(),
        )
    }
}

fn slug_of(platform: Platform) -> (r: &'static str)
    ensures
        r@ == platform.slug(),
{
    match platform {
        Platform::Na1 => "na",
        Platform::Euw1 => "euw",
        Platform::Eun1 => "eune",
        Platform::Kr => "kr",
        Platform::Br1 => "br",
        Platform::Jp1 => "jp",
        Platform::La1 => "lan",
        Platform::La2 => "las",
        Platform::Oc1 => "oce",
        Platform::Tr1 => "tr",
        Platform::Ru => "ru",
    }
}

// --- web links -------------------------------------------------------------------

/// Whether a `platformId` is the code of `p`, whatever its case.
pub open spec fn is_code(platform_id: Seq<char>, p: Platform) -> bool {
    text::ascii_lowered(platform_id) == text::ascii_lowered(p.code())
}

/// The web slug for a Riot `platformId`; an unknown platform reads as North
/// America.
pub open spec fn web_slug(platform_id: Seq<char>) -> Seq<char> {
    if is_code(platform_id, Platform::Euw1) {
        Platform::Euw1.slug()
    } else if is_code(platform_id, Platform::Eun1) {
        Platform::Eun1.slug()
    } else if is_code(platform_id, Platform::Kr) {
        Platform::Kr.slug()
    } else if is_code(platform_id, Platform::Br1) {
        Platform::Br1.slug()
    } else if is_code(platform_id, Platform::Jp1) {
        Platform::Jp1.slug()
    } else if is_code(platform_id, Platform::La1) {
        Platform::La1.slug()
    } else if is_code(platform_id, Platform::La2) {
        Platform::La2.slug()
    } else if is_code(platform_id, Platform::Oc1) {
        Platform::Oc1.slug()
    } else if is_code(platform_id, Platform::Tr1) {
        Platform::Tr1.slug()
    } else if is_code(platform_id, Platform::Ru) {
        Platform::Ru.slug()
    } else {
        Platform::Na1.slug()
    }
}

/// OP.GG / League of Graphs region slug from a Riot `platformId` (e.g. "NA1").
/// Used by the archive-post path, which has the platform string rather than a
/// typed [`Platform`].
pub fn web_region_slug(platform_id: &str) -> (r: &'static str)
    ensures
        r@ == web_slug(platform_id@),
{
    if same_ignoring_case(platform_id, "euw1") {
        "euw"
    } else if same_ignoring_case(platform_id, "eun1") {
        "eune"
    } else if same_ignoring_case(platform_id, "kr") {
        "kr"
    } else if same_ignoring_case(platform_id, "br1") {
        "br"
    } else if same_ignoring_case(platform_id, "jp1") {
        "jp"
    } else if same_ignoring_case(platform_id, "la1") {
        "lan"
    } else if same_ignoring_case(platform_id, "la2") {
        "las"
    } else if same_ignoring_case(platform_id, "oc1") {
        "oce"
    } else if same_ignoring_case(platform_id, "tr1") {
        "tr"
    } else if same_ignoring_case(platform_id, "ru") {
        "ru"
    } else {
        "na"
    }
}

// --- Riot IDs --------------------------------------------------------------------

/// The name and tag of a `gameName#tagLine` Riot ID, which account-v1 is asked
/// for; an ID without a `#` is refused.
pub fn account_key(riot_id: &str) -> (r: Result<(String, String), String>)
    ensures
        match r {
            Ok(parts) => text::cut_once(riot_id@, '#') == Some((parts.0@, parts.1@)),
            Err(e) => {
                &&& text::cut_once(riot_id@, '#') is None
                &&& e@ == "Riot ID must be `gameName#tagLine`, got `"@ + riot_id@ + "`"@
            },
        },
{
    match split_once(riot_id, '#') {
        Some(parts) => Ok(parts),
        None => Err(
            "Riot ID must be `gameName#tagLine`, got `".to_string().concat(riot_id).concat("`"),
        ),
    }
}

/// The Riot ID that an account's name and tag make, unless one is missing or
/// the name is empty.
pub open spec fn joined(name: Option<Seq<char>>, tag: Option<Seq<char>>) -> Option<Seq<char>> {
    match (name, tag) {
        (Some(name), Some(tag)) => if name.len() > 0 {
            Some(name + "#"@ + tag)
        } else {
            None
        },
        _ => None,
    }
}

/// The current `gameName#tagLine` of an account: what turns a stale watch-list
/// name into the account's new one.
pub fn riot_id_of(name: &Option<String>, tag: &Option<String>) -> (r: Option<String>)
    ensures
        text_of(r) == joined(text_of(*name), text_of(*tag)),
{
    match (name, tag) {
        (Some(name), Some(tag)) => if name.as_str().unicode_len() > 0 {
            Some(name.clone().concat("#").concat(tag.as_str()))
        } else {
            None
        },
        _ => None,
    }
}

// --- laws ------------------------------------------------------------------------

/// A platform's own code names it, and a client made with it links to the
/// same web region as a match that the platform recorded.
pub proof fn lemma_codes_name_platforms(p: Platform)
    ensures
        platform_named(text::ascii_lowered(p.code())) == Some(p),
        web_slug(p.code()) == p.slug(),
{
    reveal_strlit("na1");
    assert("na1"@[0] == 'n' && "na1"@[1] == 'a' && "na1"@[2] == '1');
    reveal_strlit("na");
    assert("na"@[0] == 'n' && "na"@[1] == 'a');
    reveal_strlit("euw1");
    assert("euw1"@[0] == 'e' && "euw1"@[1] == 'u' && "euw1"@[2] == 'w' && "euw1"@[3] == '1');
    reveal_strlit("euw");
    assert("euw"@[0] == 'e' && "euw"@[1] == 'u' && "euw"@[2] == 'w');
    reveal_strlit("eun1");
    assert("eun1"@[0] == 'e' && "eun1"@[1] == 'u' && "eun1"@[2] == 'n' && "eun1"@[3] == '1');
    reveal_strlit("eune");
    assert("eune"@[0] == 'e' && "eune"@[1] == 'u' && "eune"@[2] == 'n' && "eune"@[3] == 'e');
    reveal_strlit("kr");
    assert("kr"@[0] == 'k' && "kr"@[1] == 'r');
    reveal_strlit("br1");
    assert("br1"@[0] == 'b' && "br1"@[1] == 'r' && "br1"@[2] == '1');
    reveal_strlit("br");
    assert("br"@[0] == 'b' && "br"@[1] == 'r');
    reveal_strlit("jp1");
    assert("jp1"@[0] == 'j' && "jp1"@[1] == 'p' && "jp1"@[2] == '1');
    reveal_strlit("jp");
    assert("jp"@[0] == 'j' && "jp"@[1] == 'p');
    reveal_strlit("la1");
    assert("la1"@[0] == 'l' && "la1"@[1] == 'a' && "la1"@[2] == '1');
    reveal_strlit("la2");
    assert("la2"@[0] == 'l' && "la2"@[1] == 'a' && "la2"@[2] == '2');
    reveal_strlit("oc1");
    assert("oc1"@[0] == 'o' && "oc1"@[1] == 'c' && "oc1"@[2] == '1');
    reveal_strlit("oce");
    assert("oce"@[0] == 'o' && "oce"@[1] == 'c' && "oce"@[2] == 'e');
    reveal_strlit("tr1");
    assert("tr1"@[0] == 't' && "tr1"@[1] == 'r' && "tr1"@[2] == '1');
    reveal_strlit("tr");
    assert("tr"@[0] == 't' && "tr"@[1] == 'r');
    reveal_strlit("ru");
    assert("ru"@[0] == 'r' && "ru"@[1] == 'u');
    assert(text::ascii_lowered("na1"@) =~= "na1"@);
    assert(text::ascii_lowered("euw1"@) =~= "euw1"@);
    assert(text::ascii_lowered("eun1"@) =~= "eun1"@);
    assert(text::ascii_lowered("kr"@) =~= "kr"@);
    assert(text::ascii_lowered("br1"@) =~= "br1"@);
    assert(text::ascii_lowered("jp1"@) =~= "jp1"@);
    assert(text::ascii_lowered("la1"@) =~= "la1"@);
    assert(text::ascii_lowered("la2"@) =~= "la2"@);
    assert(text::ascii_lowered("oc1"@) =~= "oc1"@);
    assert(text::ascii_lowered("tr1"@) =~= "tr1"@);
    assert(text::ascii_lowered("ru"@) =~= "ru"@);
}

/// Joining an account's name and tag gives an ID that splits back into them,
/// as long as the name holds no `#` (account names never do).
pub proof fn lemma_riot_ids_split_back(name: Seq<char>, tag: Seq<char>)
    requires
        name.len() > 0,
        !name.contains('#'),
    ensures
        joined(Some(name), Some(tag)) matches Some(id) && text::cut_once(id, '#') == Some(
            (name, tag),
        ) && game::name_and_tag(id) == (name, tag),
{
    reveal_strlit("#");
    let id = name + "#"@ + tag;
    assert(id[name.len() as int] == '#');
    text::lemma_find(id, '#');
    assert forall|i: int| 0 <= i < name.len() implies id[i] != '#' by {
        assert(id[i] == name[i]);
    }
    assert(text::find(id, '#') == Some(name.len() as int));
    assert(id.take(name.len() as int) =~= name);
    assert(id.skip(name.len() as int + 1) =~= tag);
}

} // verus!
