use jviewson::search::{
    collect_text_matches, line_number_label, line_segments, next_index, normalized_query,
    split_lines, text_search_runs, truncate_for_preview, SegmentKind, TextMatch,
};

fn strings(v: &[&str]) -> Vec<String> {
    v.iter().map(|s| s.to_string()).collect()
}

#[test]
fn normalized_query_trims_and_lowercases() {
    assert_eq!(normalized_query("  HeLLo World \t"), Some("hello world".to_string()));
    assert_eq!(normalized_query("   \n"), None);
    assert_eq!(normalized_query(""), None);
    assert_eq!(normalized_query("\u{3000}ÄBc\u{a0}"), Some("Äbc".to_string()));
}

#[test]
fn normalized_query_is_idempotent() {
    let once = normalized_query("  MiXed Case  ").unwrap();
    assert_eq!(normalized_query(&once), Some(once.clone()));
}

#[test]
fn next_index_wraps_both_ways() {
    assert_eq!(next_index(0, 3, false), 1);
    assert_eq!(next_index(2, 3, false), 0);
    assert_eq!(next_index(0, 3, true), 2);
    assert_eq!(next_index(1, 3, true), 0);
    for c in 0..5 {
        assert_eq!(next_index(next_index(c, 5, false), 5, true), c);
        assert_eq!(next_index(next_index(c, 5, true), 5, false), c);
    }
}

#[test]
fn split_lines_follows_str_lines() {
    assert_eq!(split_lines("a\nb\r\nc\n"), strings(&["a", "b", "c"]));
    assert_eq!(split_lines(""), Vec::<String>::new());
    assert_eq!(split_lines("\n"), strings(&[""]));
    assert_eq!(split_lines("a\r"), strings(&["a\r"]));
    assert_eq!(split_lines("a\n\nb"), strings(&["a", "", "b"]));
    let text = "{\n  \"a\": 1\n}";
    assert_eq!(split_lines(text), text.lines().map(str::to_owned).collect::<Vec<_>>());
}

#[test]
fn split_lines_rejoins_to_text() {
    let text = "x\n\ny\nz\n";
    let lines = split_lines(text);
    assert_eq!(format!("{}\n", lines.join("\n")), text);
}

#[test]
fn text_matches_find_every_hit_with_byte_columns() {
    let lines = strings(&["Hello hello", "xhellx", "HELLO"]);
    let found = collect_text_matches(&lines, "hello");
    assert_eq!(
        found,
        vec![
            TextMatch { line: 0, column: 0 },
            TextMatch { line: 0, column: 6 },
            TextMatch { line: 2, column: 0 },
        ]
    );
}

#[test]
fn text_matches_overlap_and_count_bytes() {
    let lines = strings(&["aaa", "é aa"]);
    let found = collect_text_matches(&lines, "aa");
    assert_eq!(
        found,
        vec![
            TextMatch { line: 0, column: 0 },
            TextMatch { line: 0, column: 1 },
            TextMatch { line: 1, column: 3 },
        ]
    );
    assert!(collect_text_matches(&lines, "zz").is_empty());
}

#[test]
fn text_search_runs_only_where_it_ends() {
    let lines = strings(&["café"]);
    assert!(text_search_runs(&lines, "caf"));
    assert!(text_search_runs(&lines, "éx"));
    assert!(!text_search_runs(&lines, "é"));
    assert!(!text_search_runs(&lines, ""));
    assert!(text_search_runs(&[], ""));
}

#[test]
fn truncate_for_preview_keeps_short_text() {
    assert_eq!(truncate_for_preview("abc".to_string(), 3), "abc");
    assert_eq!(truncate_for_preview(String::new(), 0), "");
}

#[test]
fn truncate_for_preview_cuts_and_says_so() {
    assert_eq!(
        truncate_for_preview("abcdef".to_string(), 3),
        "abc\n\n[Preview truncated: showing 3 of 6 characters]"
    );
    assert_eq!(
        truncate_for_preview("ééé".to_string(), 1),
        "é\n\n[Preview truncated: showing 1 of 3 characters]"
    );
}

#[test]
fn line_number_label_right_aligns() {
    assert_eq!(line_number_label(0), "     1 | ");
    assert_eq!(line_number_label(41), "    42 | ");
    assert_eq!(line_number_label(999_999), "1000000 | ");
}

#[test]
fn line_segments_mark_hits_and_active_hit() {
    let segs = line_segments(
        "Hello World hello",
        0,
        Some("hello"),
        Some(TextMatch { line: 0, column: 12 }),
        &[0],
    );
    let got: Vec<(String, SegmentKind)> = segs.into_iter().map(|s| (s.text, s.kind)).collect();
    assert_eq!(
        got,
        vec![
            ("Hello".to_string(), SegmentKind::Hit),
            (" World ".to_string(), SegmentKind::Plain),
            ("hello".to_string(), SegmentKind::ActiveHit),
        ]
    );
}

#[test]
fn line_segments_plain_without_query_or_listing() {
    let whole = |segs: Vec<jviewson::search::LineSegment>| -> Vec<(String, SegmentKind)> {
        segs.into_iter().map(|s| (s.text, s.kind)).collect()
    };
    assert_eq!(
        whole(line_segments("abc", 1, None, None, &[1])),
        vec![("abc".to_string(), SegmentKind::Plain)]
    );
    assert_eq!(
        whole(line_segments("abc", 1, Some("b"), None, &[0, 2])),
        vec![("abc".to_string(), SegmentKind::Plain)]
    );
    assert_eq!(
        whole(line_segments("", 1, Some("b"), None, &[1])),
        Vec::<(String, SegmentKind)>::new()
    );
}

#[test]
fn line_segments_rebuild_the_line() {
    let line = "aXaXa tail";
    let segs = line_segments(line, 3, Some("xa"), None, &[3]);
    let joined: String = segs.iter().map(|s| s.text.as_str()).collect();
    assert_eq!(joined, line);
    let kinds: Vec<SegmentKind> = segs.iter().map(|s| s.kind).collect();
    assert_eq!(
        kinds,
        vec![
            SegmentKind::Plain,
            SegmentKind::Hit,
            SegmentKind::Hit,
            SegmentKind::Plain,
        ]
    );
}

#[test]
fn text_search_of_joined_lists_shifts_the_second() {
    let a = strings(&["abc AB", "x"]);
    let b = strings(&["ab", "zzab"]);
    let joined: Vec<String> = a.iter().chain(b.iter()).cloned().collect();
    let mut expected = collect_text_matches(&a, "ab");
    expected.extend(
        collect_text_matches(&b, "ab")
            .into_iter()
            .map(|m| TextMatch { line: m.line + a.len(), column: m.column }),
    );
    assert_eq!(collect_text_matches(&joined, "ab"), expected);
    assert_eq!(expected.len(), 4);
}

#[test]
fn text_search_ignores_ascii_case_of_lines() {
    let lines = strings(&["Mixed mixed", "Ärger mIXed"]);
    let upper: Vec<String> = lines.iter().map(|l| l.to_ascii_uppercase()).collect();
    assert_eq!(collect_text_matches(&upper, "mixed"), collect_text_matches(&lines, "mixed"));
    assert_eq!(collect_text_matches(&lines, "mixed").len(), 3);
}
