use ast_dump::numfmt::usize_to_string;
use ast_dump::query_fmt::{
    format_captures_section, format_matches_section, format_query_results, CaptureEntry,
    MatchEntry,
};

fn capture(node_repr: &str, index: usize) -> CaptureEntry {
    CaptureEntry { node_repr: node_repr.to_owned(), index }
}

fn entry(repr: &str, pattern_index: usize, captures: Vec<CaptureEntry>) -> MatchEntry {
    MatchEntry { repr: repr.to_owned(), pattern_index, captures }
}

#[test]
fn decimal_rendering_is_exact() {
    assert_eq!(usize_to_string(0), "0");
    assert_eq!(usize_to_string(7), "7");
    assert_eq!(usize_to_string(10), "10");
    assert_eq!(usize_to_string(12345), "12345");
    assert_eq!(usize_to_string(usize::MAX), usize::MAX.to_string());
}

#[test]
fn empty_results_leave_bare_headers() {
    let no_matches: Vec<MatchEntry> = Vec::new();
    let no_entries: Vec<MatchEntry> = Vec::new();
    assert_eq!(format_matches_section(&no_matches), "Matches:\n");
    assert_eq!(format_captures_section(&no_entries), "Captures:\n");
}

#[test]
fn one_match_with_two_captures() {
    let m = entry(
        "QueryMatch { id: 0, pattern_index: 0 }",
        0,
        vec![capture("{Node call (0, 0) - (0, 10)}", 0), capture("{Node identifier (0, 0) - (0, 4)}", 1)],
    );
    let out = format_matches_section(&vec![m]);
    assert_eq!(
        out,
        "Matches:\n  QueryMatch { id: 0, pattern_index: 0 } (pattern_index=0)\n    \
         {Node call (0, 0) - (0, 10)} (index=0)\n    {Node identifier (0, 0) - (0, 4)} (index=1)\n"
    );
}

#[test]
fn captures_section_relists_the_match_once_per_capture() {
    // One match with two captures: the grouped listing holds one entry, the
    // flattened listing two, each re-listing both captures.
    let make = || {
        entry(
            "QueryMatch { id: 1, pattern_index: 2 }",
            2,
            vec![capture("{Node a}", 0), capture("{Node b}", 1)],
        )
    };
    let matches = vec![make()];
    let capture_entries = vec![make(), make()];
    let matches_out = format_matches_section(&matches);
    let captures_out = format_captures_section(&capture_entries);
    let entry_text = "  QueryMatch { id: 1, pattern_index: 2 } (pattern_index=2)\n    \
                      {Node a} (index=0)\n    {Node b} (index=1)\n";
    assert_eq!(matches_out, format!("Matches:\n{}", entry_text));
    assert_eq!(captures_out, format!("Captures:\n{}{}", entry_text, entry_text));
    assert_eq!(matches_out.matches("(pattern_index=").count(), 1);
    assert_eq!(captures_out.matches("(pattern_index=").count(), 2);
}

#[test]
fn query_results_block_holds_headers_and_both_sections() {
    let matches = vec![entry("M0", 3, vec![capture("N0", 4)])];
    let capture_entries = vec![entry("M0", 3, vec![capture("N0", 4)])];
    let out = format_query_results(&matches, &capture_entries);
    assert_eq!(
        out,
        "\nQuery result(s):\n\nMatches:\n  M0 (pattern_index=3)\n    N0 (index=4)\n\
         Captures:\n  M0 (pattern_index=3)\n    N0 (index=4)\n"
    );
}

#[test]
fn pattern_and_capture_indices_render_in_decimal() {
    let matches = vec![entry("M", 42, vec![capture("N", 1009)])];
    let out = format_matches_section(&matches);
    assert_eq!(out, "Matches:\n  M (pattern_index=42)\n    N (index=1009)\n");
}
