//! The printed analysis of one archived game: its moments in order, then the
//! clip picks.

use vstd::prelude::*;

use crate::candidates::{Candidate, CandidateV};
use crate::moments::{Moment, MomentKind, MomentV};
use crate::text::{decimal, decimal2, mmss};
use crate::{picks, scan, text};

verus! {

/// The tag of a moment.
pub open spec fn tag_text(kind: MomentKind) -> Seq<char> {
    match kind {
        MomentKind::FightConversion { converted, .. } => if converted {
            "fight ✓"@
        } else {
            "fight ✗"@
        },
        MomentKind::Death { free } => if free {
            "death ✗"@
        } else {
            "death ~"@
        },
        MomentKind::Nemesis => "nemesis"@,
        MomentKind::ObjectiveAbsence => "absent"@,
        MomentKind::DragonMonopoly { .. } => "dragons"@,
    }
}

/// The tag of a moment.
pub fn tag(kind: MomentKind) -> (r: &'static str)
    ensures
        r@ == tag_text(kind),
{
    match kind {
        MomentKind::FightConversion { converted, .. } => if converted {
            "fight ✓"
        } else {
            "fight ✗"
        },
        MomentKind::Death { free } => if free {
            "death ✗"
        } else {
            "death ~"
        },
        MomentKind::Nemesis => "nemesis",
        MomentKind::ObjectiveAbsence => "absent",
        MomentKind::DragonMonopoly { .. } => "dragons",
    }
}

/// `s` at the right of three places.
pub open spec fn right3(s: Seq<char>) -> Seq<char> {
    if s.len() == 0 {
        "   "@ + s
    } else if s.len() == 1 {
        "  "@ + s
    } else if s.len() == 2 {
        " "@ + s
    } else {
        s
    }
}

fn pad3(s: String) -> (r: String)
    ensures
        r@ == right3(s@),
{
    let n: usize = s.as_str().unicode_len();
    if n == 0 {
        "   ".to_string().concat(s.as_str())
    } else if n == 1 {
        "  ".to_string().concat(s.as_str())
    } else if n == 2 {
        " ".to_string().concat(s.as_str())
    } else {
        s
    }
}

/// The line of a moment: its time, its tag and what it was.
pub open spec fn moment_line(m: MomentV) -> Seq<char> {
    let secs = text::tdiv(m.t_ms as int, 1000);
    right3(text::dec(text::tdiv(secs, 60))) + ":"@ + text::dec2(text::trem(secs, 60)) + "  ["@
        + tag_text(m.kind) + "]  "@ + m.summary
}

/// The lines of a moment: what it was, then what shows it.
pub open spec fn moment_lines(m: MomentV) -> Seq<Seq<char>> {
    seq![moment_line(m)] + m.evidence.map_values(|e: Seq<char>| "           · "@ + e)
}

/// The lines of some moments.
pub open spec fn lines_of(moments: Seq<MomentV>) -> Seq<Seq<char>>
    decreases moments.len(),
{
    if moments.len() == 0 {
        seq![]
    } else {
        lines_of(moments.drop_last()) + moment_lines(moments.last())
    }
}

/// The line of a pick.
pub open spec fn pick_line(side: Seq<char>, pick: Option<CandidateV>) -> Seq<char> {
    match pick {
        Some(c) => side + ": "@ + text::clock(c.t_ms as int) + " — "@ + c.summary + " (seek "@
            + text::dec(c.seek_s as int) + "s, "@ + text::dec(c.dur_s as int) + "s)"@,
        None => side + ": none"@,
    }
}

fn push_moment(out: &mut Vec<String>, m: &Moment)
    ensures
        text::texts(final(out)@) == text::texts(old(out)@) + moment_lines(m@),
{
    let secs: i64 = m.t_ms / 1000;
    let line: String = pad3(decimal((secs / 60) as i128)).concat(":").concat(
        decimal2(secs % 60).as_str(),
    ).concat("  [").concat(tag(m.kind)).concat("]  ").concat(m.summary.as_str());
    let ghost before = text::texts(out@);
    let ghost shown = m@.evidence.map_values(|e: Seq<char>| "           · "@ + e);
    out.push(line);
    proof {
        assert(text::texts(out@) =~= before + seq![moment_line(m@)] + shown.take(0));
    }
    for i in 0..m.evidence.len()
        invariant
            shown == m@.evidence.map_values(|e: Seq<char>| "           · "@ + e),
            text::texts(out@) == before + seq![moment_line(m@)] + shown.take(i as int),
    {
        let ghost so_far = out@;
        out.push("           · ".to_string().concat(m.evidence[i].as_str()));
        proof {
            assert(text::texts(out@) =~= text::texts(so_far).push(shown[i as int]));
            assert(text::texts(out@) =~= before + seq![moment_line(m@)] + shown.take(i + 1));
        }
    }
    proof {
        assert(shown.take(shown.len() as int) =~= shown);
        assert(before + seq![moment_line(m@)] + shown =~= before + moment_lines(m@));
    }
}

fn line_of(side: &str, pick: &Option<Candidate>) -> (r: String)
    ensures
        r@ == pick_line(side@, picks::candidate_view(*pick)),
{
    match pick {
        Some(c) => side.to_string().concat(": ").concat(mmss(c.t_ms).as_str()).concat(
            " — ",
        ).concat(c.summary.as_str()).concat(" (seek ").concat(
            decimal(c.seek_s as i128).as_str(),
        ).concat("s, ").concat(decimal(c.dur_s as i128).as_str()).concat("s)"),
        None => side.to_string().concat(": none"),
    }
}

/// The lines of the whole report.
pub open spec fn report_lines(
    moments: Seq<MomentV>,
    highlight: Option<CandidateV>,
    lowlight: Option<CandidateV>,
) -> Seq<Seq<char>> {
    lines_of(moments) + seq![
        pick_line("highlight"@, highlight),
        pick_line("lowlight"@, lowlight),
    ]
}

/// The classified moments and the clip picks of one player, line by line.
pub fn report(
    moments: &Vec<Moment>,
    highlight: &Option<Candidate>,
    lowlight: &Option<Candidate>,
) -> (r: Vec<String>)
    ensures
        text::texts(r@) == report_lines(
            scan::views(moments@),
            picks::candidate_view(*highlight),
            picks::candidate_view(*lowlight),
        ),
{
    let ghost all = scan::views(moments@);
    let mut out: Vec<String> = Vec::new();
    proof {
        assert(text::texts(out@) =~= lines_of(all.take(0)));
    }
    for i in 0..moments.len()
        invariant
            all == scan::views(moments@),
            text::texts(out@) == lines_of(all.take(i as int)),
    {
        proof {
            assert(all.take(i + 1).drop_last() =~= all.take(i as int));
            assert(all.take(i + 1).last() == moments@[i as int]@);
        }
        push_moment(&mut out, &moments[i]);
    }
    let ghost told = out@;
    out.push(line_of("highlight", highlight));
    out.push(line_of("lowlight", lowlight));
    proof {
        assert(all.take(all.len() as int) =~= all);
        assert(text::texts(out@) =~= text::texts(told) + seq![
            pick_line("highlight"@, picks::candidate_view(*highlight)),
            pick_line("lowlight"@, picks::candidate_view(*lowlight)),
        ]);
    }
    out
}

} // verus!
