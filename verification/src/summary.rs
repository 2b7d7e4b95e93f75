//! Splits a coach's Markdown summary into its `## ` sections, so that a message
//! can map them onto fields.

use vstd::prelude::*;

use crate::text::{lines, strip_prefix, trim};
use crate::{game, seqs, text};

verus! {

/// An ordered list of `(heading, body)` sections of a Markdown text.
#[derive(Debug)]
pub struct Summary {
    pub sections: Vec<(String, String)>,
}

/// The characters of each section.
pub open spec fn section_texts(v: Seq<(String, String)>) -> Seq<(Seq<char>, Seq<char>)> {
    v.map_values(|s: (String, String)| (s.0@, s.1@))
}

impl View for Summary {
    type V = Seq<(Seq<char>, Seq<char>)>;

    open spec fn view(&self) -> Seq<(Seq<char>, Seq<char>)> {
        section_texts(self.sections@)
    }
}

/// The heading that a line opens a section with, if it does.
pub open spec fn heading(line: Seq<char>) -> Option<Seq<char>> {
    match text::stripped(line, "## "@) {
        Some(h) => Some(text::trimmed(h)),
        None => None,
    }
}

/// The lines before the next heading, each with a line feed behind it.
pub open spec fn body(lines: Seq<Seq<char>>) -> Seq<char>
    decreases lines.len(),
{
    if lines.len() == 0 || heading(lines[0]) is Some {
        seq![]
    } else {
        lines[0] + seq!['\n'] + body(lines.skip(1))
    }
}

/// One section for each heading, with the trimmed text up to the next one.
/// What stands before the first heading belongs to none.
pub open spec fn sections(lines: Seq<Seq<char>>) -> Seq<(Seq<char>, Seq<char>)>
    decreases lines.len(),
{
    if lines.len() == 0 {
        seq![]
    } else {
        let rest = sections(lines.skip(1));
        match heading(lines[0]) {
            Some(h) => seq![(h, text::trimmed(body(lines.skip(1))))] + rest,
            None => rest,
        }
    }
}

/// The sections that remain, `open` being the one that was begun with what
/// stands in it so far.
spec fn remaining(
    open: Option<Seq<char>>,
    so_far: Seq<char>,
    lines: Seq<Seq<char>>,
) -> Seq<(Seq<char>, Seq<char>)> {
    match open {
        Some(h) => seq![(h, text::trimmed(so_far + body(lines)))] + sections(lines),
        None => sections(lines),
    }
}

proof fn lemma_step(
    open: Option<Seq<char>>,
    so_far: Seq<char>,
    lines: Seq<Seq<char>>,
)
    requires
        lines.len() > 0,
    ensures
        match heading(lines[0]) {
            Some(h) => remaining(open, so_far, lines) == (match open {
                Some(prev) => seq![(prev, text::trimmed(so_far))],
                None => seq![],
            }) + remaining(Some(h), seq![], lines.skip(1)),
            None => open is Some ==> remaining(open, so_far, lines) == remaining(
                open,
                so_far + lines[0] + seq!['\n'],
                lines.skip(1),
            ),
        },
        heading(lines[0]) is None && open is None ==> remaining(open, so_far, lines) == remaining(
            open,
            so_far,
            lines.skip(1),
        ),
{
    let rest = lines.skip(1);
    match heading(lines[0]) {
        Some(h) => {
            assert(so_far + body(lines) =~= so_far);
            assert(seq![] + body(rest) =~= body(rest));
            assert(remaining(open, so_far, lines) =~= (match open {
                Some(prev) => seq![(prev, text::trimmed(so_far))],
                None => seq![],
            }) + remaining(Some(h), seq![], rest));
        },
        None => {
            assert(so_far + body(lines) =~= so_far + lines[0] + seq!['\n'] + body(rest));
        },
    }
}

/// Split Markdown on `## ` headings. Any text before the first heading is
/// ignored; section order is preserved.
pub fn parse(md: &str) -> (r: Summary)
    ensures
        r@ == sections(text::line_texts(md@)),
{
    let all: Vec<String> = lines(md);
    let ghost ls = text::line_texts(md@);
    let mut out: Vec<(String, String)> = Vec::new();
    let mut open: Option<String> = None;
    let mut so_far: String = String::new();
    proof {
        assert(ls.skip(0) =~= ls);
        assert(section_texts(out@) + sections(ls) =~= sections(ls));
    }
    for i in 0..all.len()
        invariant
            text::texts(all@) == ls,
            section_texts(out@) + remaining(game::text_of(open), so_far@, ls.skip(i as int))
                == sections(ls),
    {
        let line: &str = all[i].as_str();
        let ghost before = section_texts(out@);
        let ghost was = game::text_of(open);
        let ghost rest = ls.skip(i as int);
        proof {
            assert(rest[0] == ls[i as int]);
            assert(ls[i as int] == line@);
            assert(rest.skip(1) =~= ls.skip(i + 1));
            lemma_step(was, so_far@, rest);
        }
        match strip_prefix(line, "## ") {
            Some(h) => {
                let ghost kept = so_far@;
                if let Some(prev) = open {
                    out.push((prev, trim(so_far.as_str())));
                }
                proof {
                    let done: Seq<(Seq<char>, Seq<char>)> = match was {
                        Some(prev) => seq![(prev, text::trimmed(kept))],
                        None => seq![],
                    };
                    assert(section_texts(out@) =~= before + done);
                    let more = remaining(Some(text::trimmed(h@)), seq![], ls.skip(i + 1));
                    assert(before + done + more =~= before + (done + more));
                }
                open = Some(trim(h.as_str()));
                so_far = String::new();
                proof {
                    assert(so_far@ =~= seq![]);
                }
            },
            None => {
                let ghost kept = so_far@;
                if open.is_some() {
                    so_far = so_far.concat(line);
                    so_far.push('\n');
                    proof {
                        assert(so_far@ =~= kept + line@ + seq!['\n']);
                    }
                }
            },
        }
    }
    let ghost before = section_texts(out@);
    proof {
        assert(ls.skip(ls.len() as int) =~= seq![]);
        assert(so_far@ + body(seq![]) =~= so_far@);
    }
    if let Some(prev) = open {
        let last: (String, String) = (prev, trim(so_far.as_str()));
        out.push(last);
        proof {
            assert(section_texts(out@) =~= before + (seq![(last.0@, last.1@)] + sections(seq![])));
        }
    } else {
        proof {
            assert(before + sections(seq![]) =~= before);
        }
    }
    Summary { sections: out }
}

// --- laws ------------------------------------------------------------------------

/// Whether a line opens a section.
pub open spec fn is_heading() -> spec_fn(Seq<char>) -> bool {
    |line: Seq<char>| heading(line) is Some
}

/// A text has as many sections as heading lines.
pub proof fn lemma_one_section_per_heading(lines: Seq<Seq<char>>)
    ensures
        sections(lines).len() == seqs::count_where(lines, is_heading()),
    decreases lines.len(),
{
    if lines.len() > 0 {
        lemma_one_section_per_heading(lines.skip(1));
        lemma_count_front(lines);
    }
}

proof fn lemma_count_front(lines: Seq<Seq<char>>)
    requires
        lines.len() > 0,
    ensures
        seqs::count_where(lines, is_heading()) == seqs::count_where(
            lines.skip(1),
            is_heading(),
        ) + if heading(lines[0]) is Some {
            1nat
        } else {
            0nat
        },
    decreases lines.len(),
{
    if lines.len() == 1 {
        assert(lines.drop_last() =~= seq![]);
        assert(lines.skip(1) =~= seq![]);
        reveal_with_fuel(seqs::count_where, 2);
    } else {
        lemma_count_front(lines.drop_last());
        assert(lines.drop_last().skip(1) =~= lines.skip(1).drop_last());
        assert(lines.skip(1).last() == lines.last());
    }
}

} // verus!
