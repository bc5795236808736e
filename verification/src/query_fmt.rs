//! Formatting of pattern-match results.
//!
//! A matching engine, run over a tree and a compiled query, yields its
//! results two ways: grouped, one item per successful pattern match, and
//! flattened, one item per capture (each such item carrying the whole match
//! it belongs to).  Both listings render identically here: one entry line
//! with the match's engine-supplied identity and its pattern index, then
//! one line per capture with the captured node's identity and the capture
//! index.  A match with several captures therefore appears once in the
//! `Matches:` section and once per capture in the `Captures:` section, each
//! time re-listing its full capture set — the flattened listing's
//! granularity is preserved, not deduplicated.

use vstd::prelude::*;
use vstd::string::*;

use crate::numfmt::{dec_seq, push_usize};

verus! {

/// One capture of a pattern match: the engine-rendered identity of the
/// captured node, and the capture's index within the query.
pub struct CaptureEntry {
    pub node_repr: String,
    pub index: usize,
}

/// One successful pattern match: the engine-rendered identity of the whole
/// match, the index of the pattern that matched, and the captures the
/// match produced, in the order the engine yielded them.
pub struct MatchEntry {
    pub repr: String,
    pub pattern_index: usize,
    pub captures: Vec<CaptureEntry>,
}

/// The line a single capture produces.
pub open spec fn capture_line(c: CaptureEntry) -> Seq<char> {
    "    "@ + c.node_repr@ + " (index="@ + dec_seq(c.index as nat) + ")\n"@
}

/// The capture lines of `cs` from index `i` on.
pub open spec fn capture_lines_from(cs: Seq<CaptureEntry>, i: int) -> Seq<char>
    decreases cs.len() - i,
{
    if 0 <= i < cs.len() {
        capture_line(cs[i]) + capture_lines_from(cs, i + 1)
    } else {
        Seq::empty()
    }
}

/// The full text one listed match produces: its own entry line, then one
/// line per capture.
pub open spec fn match_entry_text(m: MatchEntry) -> Seq<char> {
    "  "@ + m.repr@ + " (pattern_index="@ + dec_seq(m.pattern_index as nat) + ")\n"@
        + capture_lines_from(m.captures@, 0)
}

/// The texts of the listed matches from index `i` on.
pub open spec fn match_entries_from(ms: Seq<MatchEntry>, i: int) -> Seq<char>
    decreases ms.len() - i,
{
    if 0 <= i < ms.len() {
        match_entry_text(ms[i]) + match_entries_from(ms, i + 1)
    } else {
        Seq::empty()
    }
}

/// The `Matches:` section: its header, then one entry per listed match.
pub open spec fn matches_section(ms: Seq<MatchEntry>) -> Seq<char> {
    "Matches:\n"@ + match_entries_from(ms, 0)
}

/// The `Captures:` section: its header, then one entry per item of the
/// flattened capture stream.
pub open spec fn captures_section(entries: Seq<MatchEntry>) -> Seq<char> {
    "Captures:\n"@ + match_entries_from(entries, 0)
}

/// The whole query-results block: a separating blank line, the
/// `Query result(s):` header, a blank line, then the two sections.
pub open spec fn query_results_text(ms: Seq<MatchEntry>, entries: Seq<MatchEntry>) -> Seq<char> {
    "\nQuery result(s):\n\n"@ + matches_section(ms) + captures_section(entries)
}

/// The number of captures summed across all the matches.
pub open spec fn total_captures(ms: Seq<MatchEntry>) -> nat
    decreases ms.len(),
{
    if ms.len() == 0 {
        0
    } else {
        ms[0].captures@.len() + total_captures(ms.drop_first())
    }
}

/// The flattened capture stream a matching engine yields from `ms`: each
/// match repeated once per capture it holds, in match order.
pub open spec fn flatten_for_captures(ms: Seq<MatchEntry>) -> Seq<MatchEntry>
    decreases ms.len(),
{
    if ms.len() == 0 {
        Seq::empty()
    } else {
        Seq::new(ms[0].captures@.len(), |j: int| ms[0]) + flatten_for_captures(ms.drop_first())
    }
}

/// Law: the `Matches:` section lists one entry per distinct match, while
/// the flattened stream behind the `Captures:` section holds one entry per
/// capture — their lengths are the match count and the summed capture
/// count.
pub proof fn lemma_captures_entry_count(ms: Seq<MatchEntry>)
    ensures
        flatten_for_captures(ms).len() == total_captures(ms),
    decreases ms.len(),
{
    if ms.len() > 0 {
        lemma_captures_entry_count(ms.drop_first());
    }
}

/// Law: a query with zero matches produces both section headers with no
/// entries beneath either.
pub proof fn lemma_empty_sections(ms: Seq<MatchEntry>)
    requires
        ms.len() == 0,
    ensures
        matches_section(ms) == "Matches:\n"@,
        captures_section(flatten_for_captures(ms)) == "Captures:\n"@,
{
    assert(flatten_for_captures(ms).len() == 0);
    assert(matches_section(ms) =~= "Matches:\n"@);
    assert(captures_section(flatten_for_captures(ms)) =~= "Captures:\n"@);
}

/// Appends the line of one capture to `out`.
fn push_capture_line(out: &mut String, c: &CaptureEntry)
    ensures
        final(out)@ == old(out)@ + capture_line(*c),
{
    out.append("    ");
    out.append(c.node_repr.as_str());
    out.append(" (index=");
    push_usize(out, c.index);
    out.append(")\n");
    proof {
        assert(out@ =~= old(out)@ + capture_line(*c));
    }
}

/// Appends the full text of one listed match to `out`.
fn push_match_entry(out: &mut String, m: &MatchEntry)
    ensures
        final(out)@ == old(out)@ + match_entry_text(*m),
{
    out.append("  ");
    out.append(m.repr.as_str());
    out.append(" (pattern_index=");
    push_usize(out, m.pattern_index);
    out.append(")\n");
    let ghost header = out@;
    let mut k: usize = 0;
    proof {
        assert(out@ + capture_lines_from(m.captures@, 0) =~= header + capture_lines_from(
            m.captures@,
            0,
        ));
    }
    while k < m.captures.len()
        invariant
            k <= m.captures.len(),
            out@ + capture_lines_from(m.captures@, k as int) == header + capture_lines_from(
                m.captures@,
                0,
            ),
        decreases m.captures.len() - k,
    {
        push_capture_line(out, &m.captures[k]);
        k = k + 1;
        proof {
            assert(out@ + capture_lines_from(m.captures@, k as int) =~= header
                + capture_lines_from(m.captures@, 0));
        }
    }
    proof {
        assert(capture_lines_from(m.captures@, m.captures@.len() as int) =~= Seq::<char>::empty());
        assert(out@ =~= header + capture_lines_from(m.captures@, 0));
        assert(out@ =~= old(out)@ + match_entry_text(*m));
    }
}

/// Appends one entry per element of `ms` to `out`.
fn push_match_entries(out: &mut String, ms: &Vec<MatchEntry>)
    ensures
        final(out)@ == old(out)@ + match_entries_from(ms@, 0),
{
    let mut k: usize = 0;
    proof {
        assert(out@ + match_entries_from(ms@, 0) =~= old(out)@ + match_entries_from(ms@, 0));
    }
    while k < ms.len()
        invariant
            k <= ms.len(),
            out@ + match_entries_from(ms@, k as int) == old(out)@ + match_entries_from(ms@, 0),
        decreases ms.len() - k,
    {
        push_match_entry(out, &ms[k]);
        k = k + 1;
        proof {
            assert(out@ + match_entries_from(ms@, k as int) =~= old(out)@ + match_entries_from(
                ms@,
                0,
            ));
        }
    }
    proof {
        assert(match_entries_from(ms@, ms@.len() as int) =~= Seq::<char>::empty());
        assert(out@ =~= old(out)@ + match_entries_from(ms@, 0));
    }
}

/// Renders the `Matches:` section from the grouped matches the engine
/// yielded, one entry per match.
pub fn format_matches_section(ms: &Vec<MatchEntry>) -> (out: String)
    ensures
        out@ == matches_section(ms@),
{
    let mut out = String::new();
    out.append("Matches:\n");
    push_match_entries(&mut out, ms);
    proof {
        assert(out@ =~= matches_section(ms@));
    }
    out
}

/// Renders the `Captures:` section from the flattened capture stream the
/// engine yielded: one entry per capture, each re-listing its whole match.
pub fn format_captures_section(entries: &Vec<MatchEntry>) -> (out: String)
    ensures
        out@ == captures_section(entries@),
{
    let mut out = String::new();
    out.append("Captures:\n");
    push_match_entries(&mut out, entries);
    proof {
        assert(out@ =~= captures_section(entries@));
    }
    out
}

/// Renders the whole query-results block from the two result streams of a
/// successfully compiled query; a query that fails to compile never reaches
/// this text.
pub fn format_query_results(ms: &Vec<MatchEntry>, capture_entries: &Vec<MatchEntry>) -> (out:
    String)
    ensures
        out@ == query_results_text(ms@, capture_entries@),
{
    let mut out = String::new();
    out.append("\nQuery result(s):\n\n");
    let matches_text = format_matches_section(ms);
    out.append(matches_text.as_str());
    let captures_text = format_captures_section(capture_entries);
    out.append(captures_text.as_str());
    proof {
        assert(out@ =~= query_results_text(ms@, capture_entries@));
    }
    out
}

} // verus!
