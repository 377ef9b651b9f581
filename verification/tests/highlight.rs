use log_highlight::{LogHighlighter, Style, StyledLine};

fn segments_of(line: &StyledLine) -> Vec<(String, Style)> {
    let mut out: Vec<(String, Style)> = Vec::new();
    for seg in &line.segments {
        out.push((seg.text.clone(), seg.style));
    }
    out
}

fn concat_texts_of(line: &StyledLine) -> String {
    let mut out = String::new();
    for seg in &line.segments {
        out.push_str(&seg.text);
    }
    out
}

fn ingest_one(raw: &str) -> StyledLine {
    let mut h = LogHighlighter::new();
    h.ingest(raw.to_string());
    let styled = h.styled_view();
    assert_eq!(styled.len(), 1);
    styled[0].clone()
}

#[test]
fn plain_line_is_single_plain_segment() {
    let line = ingest_one("hello world");
    assert_eq!(
        segments_of(&line),
        vec![("hello world".to_string(), Style::Plain)]
    );
}

#[test]
fn empty_line_is_single_empty_plain_segment() {
    let line = ingest_one("");
    assert_eq!(segments_of(&line), vec![("".to_string(), Style::Plain)]);
}

#[test]
fn delimited_line_without_addresses_collapses_to_raw() {
    let line = ingest_one("abc++++def");
    assert_eq!(
        segments_of(&line),
        vec![("abc++++def".to_string(), Style::Plain)]
    );
}

#[test]
fn digit_dot_digit_without_full_address_stays_plain() {
    let line = ingest_one("version 1.2 ready");
    assert_eq!(
        segments_of(&line),
        vec![("version 1.2 ready".to_string(), Style::Plain)]
    );
}

#[test]
fn found_after_address_stays_in_trailing_segment() {
    let line = ingest_one("Connecting from 192.168.1.5 Found user");
    assert_eq!(
        segments_of(&line),
        vec![
            ("Connecting from ".to_string(), Style::Plain),
            ("192.168.1.5".to_string(), Style::Address),
            (" Found user".to_string(), Style::Plain),
        ]
    );
}

#[test]
fn found_before_address_becomes_keyword_segment() {
    let line = ingest_one("Found 9.9.9.9");
    assert_eq!(
        segments_of(&line),
        vec![
            ("".to_string(), Style::Plain),
            ("Found ".to_string(), Style::Keyword),
            ("9.9.9.9".to_string(), Style::Address),
            ("".to_string(), Style::Plain),
        ]
    );
}

#[test]
fn ban_before_address_becomes_keyword_segment() {
    let line = ingest_one("Ban 1.2.3.4");
    assert_eq!(
        segments_of(&line),
        vec![
            ("".to_string(), Style::Plain),
            ("Ban ".to_string(), Style::Keyword),
            ("1.2.3.4".to_string(), Style::Address),
            ("".to_string(), Style::Plain),
        ]
    );
}

#[test]
fn ban_wins_over_found_before_address() {
    let line = ingest_one("Found Ban 2.3.4.5 x");
    assert_eq!(
        segments_of(&line),
        vec![
            ("Found ".to_string(), Style::Plain),
            ("Ban ".to_string(), Style::Keyword),
            ("2.3.4.5".to_string(), Style::Address),
            (" x".to_string(), Style::Plain),
        ]
    );
}

#[test]
fn delimiter_splits_into_two_segment_groups() {
    let line = ingest_one("Ban 1.2.3.4++++Found 5.6.7.8 ok");
    assert_eq!(
        segments_of(&line),
        vec![
            ("".to_string(), Style::Plain),
            ("Ban ".to_string(), Style::Keyword),
            ("1.2.3.4".to_string(), Style::Address),
            ("".to_string(), Style::Plain),
            ("".to_string(), Style::Plain),
            ("Found ".to_string(), Style::Keyword),
            ("5.6.7.8".to_string(), Style::Address),
            (" ok".to_string(), Style::Plain),
        ]
    );
}

#[test]
fn sub_line_without_address_falls_back_to_full_raw_line() {
    let line = ingest_one("Ban 1.2.3.4++++plain tail");
    assert_eq!(
        segments_of(&line),
        vec![("Ban 1.2.3.4++++plain tail".to_string(), Style::Plain)]
    );
}

#[test]
fn concatenated_texts_give_back_raw_line() {
    let line = ingest_one("Connecting from 10.0.0.1 done");
    assert_eq!(concat_texts_of(&line), "Connecting from 10.0.0.1 done");
    let line = ingest_one("Ban 1.2.3.4");
    assert_eq!(concat_texts_of(&line), "Ban 1.2.3.4");
    let line = ingest_one("no address here");
    assert_eq!(concat_texts_of(&line), "no address here");
}

#[test]
fn long_digit_group_shifts_match_start() {
    let line = ingest_one("1234.5.6.7.8");
    assert_eq!(
        segments_of(&line),
        vec![
            ("1".to_string(), Style::Plain),
            ("234.5.6.7".to_string(), Style::Address),
            (".8".to_string(), Style::Plain),
        ]
    );
}

#[test]
fn last_group_is_greedy_up_to_three_digits() {
    let line = ingest_one("1.2.3.4567");
    assert_eq!(
        segments_of(&line),
        vec![
            ("".to_string(), Style::Plain),
            ("1.2.3.456".to_string(), Style::Address),
            ("7".to_string(), Style::Plain),
        ]
    );
}

#[test]
fn ingest_appends_lines_in_order() {
    let mut h = LogHighlighter::new();
    h.ingest("first 1.1.1.1".to_string());
    h.ingest("second line".to_string());
    let styled = h.styled_view();
    assert_eq!(styled.len(), 2);
    assert_eq!(concat_texts_of(&styled[0]), "first 1.1.1.1");
    assert_eq!(concat_texts_of(&styled[1]), "second line");
    assert_eq!(h.raw_lines(), &vec!["first 1.1.1.1".to_string(), "second line".to_string()]);
}

#[test]
fn evict_to_drops_oldest_styled_lines_too() {
    let mut h = LogHighlighter::new();
    h.ingest("a 1.1.1.1".to_string());
    h.ingest("b 2.2.2.2".to_string());
    h.ingest("c 3.3.3.3".to_string());
    h.evict_to(2);
    assert_eq!(h.len(), 2);
    let styled = h.styled_view();
    assert_eq!(styled.len(), 2);
    assert_eq!(concat_texts_of(&styled[0]), "b 2.2.2.2");
    assert_eq!(concat_texts_of(&styled[1]), "c 3.3.3.3");
}

#[test]
fn highlight_io_recompute_is_idempotent() {
    let mut h = LogHighlighter::new();
    h.ingest("Ban 1.2.3.4".to_string());
    h.ingest("plain".to_string());
    let before: Vec<Vec<(String, Style)>> = h.styled_view().iter().map(segments_of).collect();
    h.highlight_io();
    let after: Vec<Vec<(String, Style)>> = h.styled_view().iter().map(segments_of).collect();
    assert_eq!(before, after);
}

#[test]
fn log_selection_navigates_and_clears() {
    let mut h = LogHighlighter::new();
    h.ingest("one".to_string());
    h.ingest("two".to_string());
    assert_eq!(h.selected(), None);
    h.select_next();
    assert_eq!(h.selected(), Some(0));
    h.select_next();
    assert_eq!(h.selected(), Some(1));
    h.select_next();
    assert_eq!(h.selected(), Some(0));
    h.select_previous();
    assert_eq!(h.selected(), Some(1));
    h.clear_selection();
    assert_eq!(h.selected(), None);
}

#[test]
fn selection_is_noop_on_empty_log() {
    let mut h = LogHighlighter::new();
    h.select_next();
    assert_eq!(h.selected(), None);
    h.select_previous();
    assert_eq!(h.selected(), None);
}
