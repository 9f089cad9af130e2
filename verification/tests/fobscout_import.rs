use set_desto::fobscout::parse_export;

const SAMPLE_EXPORT: &str = r#"FOBScout Export @ 2026-05-19 18:40:07 requested by Chudnor
Active FOBs: 2

System | Region | Last Seen UTC | Claimed By
------ | ------ | ------------- | ----------
Baratar | Khanid | 2026-05-19T18:38:54+00:00 | Unclaimed
Daran | Kor-Azor | 2026-05-19T18:22:30+00:00 | Chudnor
"#;

#[test]
fn parses_fobscout_export_rows() {
    let import = parse_export(SAMPLE_EXPORT);

    assert_eq!(import.rows.len(), 2);
    assert_eq!(import.rows[0].system, "Baratar");
    assert_eq!(import.rows[0].region, "Khanid");
    assert_eq!(import.rows[0].claimed_by, "Unclaimed");
    assert_eq!(import.rows[1].system, "Daran");
    assert!(import.messages.is_empty());
}

#[test]
fn tolerates_wrapping_pipes_and_spacing() {
    let import = parse_export(
        r#"| System | Region | Last Seen UTC | Claimed By |
| ------ | ------ | ------------- | ---------- |
| Jita | The Forge | 2026-05-19T18:38:54+00:00 | Unclaimed |
"#,
    );

    assert_eq!(import.rows.len(), 1);
    assert_eq!(import.rows[0].system, "Jita");
}

#[test]
fn de_duplicates_systems_case_insensitively() {
    let import = parse_export(
        r#"System | Region | Last Seen UTC | Claimed By
------ | ------ | ------------- | ----------
Jita | The Forge | 2026-05-19T18:38:54+00:00 | Unclaimed
jita | The Forge | 2026-05-19T18:39:54+00:00 | Unclaimed
"#,
    );

    assert_eq!(import.rows.len(), 1);
    assert!(import.messages[0].contains("de-duplicated"));
}

#[test]
fn reports_missing_table() {
    let import = parse_export("hello");

    assert!(import.rows.is_empty());
    assert!(import.messages[0].contains("No FOBScout system table"));
}

#[test]
fn reports_malformed_rows() {
    let import = parse_export(
        r#"System | Region | Last Seen UTC | Claimed By
------ | ------ | ------------- | ----------
Jita | The Forge
"#,
    );

    assert!(import.rows.is_empty());
    assert!(import.messages[0].contains("did not include all table columns"));
}

#[test]
fn empty_input_prompts_for_paste() {
    let import = parse_export("");

    assert!(import.rows.is_empty());
    assert!(import.messages.is_empty());
}

#[test]
fn rows_keep_their_import_order_and_fields() {
    let import = parse_export(SAMPLE_EXPORT);
    assert_eq!(import.rows[0].import_index, 0);
    assert_eq!(import.rows[1].import_index, 1);
    assert_eq!(import.rows[1].region, "Kor-Azor");
    assert_eq!(import.rows[1].last_seen_utc, "2026-05-19T18:22:30+00:00");
    assert_eq!(import.rows[1].claimed_by, "Chudnor");
}

#[test]
fn table_stops_at_the_first_blank_line() {
    let import = parse_export(
        "System | Region | Last Seen UTC | Claimed By\n---|---|---|---\nJita | The Forge | now | Unclaimed\n\nAmarr | Domain | now | Unclaimed\n",
    );
    assert_eq!(import.rows.len(), 1);
    assert_eq!(import.rows[0].system, "Jita");
}

#[test]
fn rows_with_an_empty_system_are_skipped() {
    let import = parse_export(
        "System | Region | Last Seen UTC | Claimed By\n| | The Forge | now | Unclaimed\nJita | The Forge | now | Unclaimed\n",
    );
    assert_eq!(import.rows.len(), 1);
    assert_eq!(import.rows[0].import_index, 0);
    assert_eq!(import.messages.len(), 1);
    assert!(import.messages[0].contains("Line 2 was skipped because the system was empty"));
}
