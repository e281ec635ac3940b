use envly::envfile::parse_env_text;
use envly::resolver::{format_env_file, needs_quoting};

#[test]
fn parse_simple_key_value() {
    let entries = parse_env_text("DB_HOST=localhost\nDB_PORT=5432");
    assert_eq!(entries.len(), 2);
    assert_eq!(entries[0].key, "DB_HOST");
    assert_eq!(entries[0].value, "localhost");
    assert_eq!(entries[1].key, "DB_PORT");
    assert_eq!(entries[1].value, "5432");
}

#[test]
fn parse_double_quoted_value() {
    let entries = parse_env_text("KEY=\"value with spaces\"");
    assert_eq!(entries.len(), 1);
    assert_eq!(entries[0].value, "value with spaces");
}

#[test]
fn parse_single_quoted_value() {
    let entries = parse_env_text("KEY='single quoted'");
    assert_eq!(entries.len(), 1);
    assert_eq!(entries[0].value, "single quoted");
}

#[test]
fn parse_export_prefix() {
    let entries = parse_env_text("export API_KEY=secret123");
    assert_eq!(entries.len(), 1);
    assert_eq!(entries[0].key, "API_KEY");
    assert_eq!(entries[0].value, "secret123");
}

#[test]
fn parse_skips_comments() {
    let text = "# This is a comment\nKEY=value\n# Another comment";
    let entries = parse_env_text(text);
    assert_eq!(entries.len(), 1);
    assert_eq!(entries[0].key, "KEY");
}

#[test]
fn parse_skips_empty_lines() {
    let text = "\n\n  \nKEY=value\n\n";
    let entries = parse_env_text(text);
    assert_eq!(entries.len(), 1);
}

#[test]
fn parse_equals_in_value() {
    let entries = parse_env_text("URL=postgres://host?opt=1&b=2");
    assert_eq!(entries.len(), 1);
    assert_eq!(entries[0].key, "URL");
    assert_eq!(entries[0].value, "postgres://host?opt=1&b=2");
}

#[test]
fn parse_empty_value() {
    let entries = parse_env_text("EMPTY=");
    assert_eq!(entries.len(), 1);
    assert_eq!(entries[0].key, "EMPTY");
    assert_eq!(entries[0].value, "");
}

#[test]
fn parse_inline_comment_stripped() {
    let entries = parse_env_text("KEY=value # this is a comment");
    assert_eq!(entries.len(), 1);
    assert_eq!(entries[0].value, "value");
}

#[test]
fn parse_escaped_quotes_in_double_quoted() {
    let entries = parse_env_text(r#"KEY="say \"hello\"""#);
    assert_eq!(entries.len(), 1);
    assert_eq!(entries[0].value, "say \"hello\"");
}

#[test]
fn parse_escaped_newline_in_double_quoted() {
    let entries = parse_env_text(r#"KEY="line1\nline2""#);
    assert_eq!(entries.len(), 1);
    assert_eq!(entries[0].value, "line1\nline2");
}

#[test]
fn parse_no_value_line_skipped() {
    let entries = parse_env_text("NOT_AN_ENV_LINE");
    assert_eq!(entries.len(), 0);
}

#[test]
fn parse_windows_line_endings_and_spaces_around_equals() {
    let entries = parse_env_text("A = 1\r\n  export B=two  \r\n=nokey\r\n");
    assert_eq!(entries.len(), 2);
    assert_eq!(entries[0].key, "A");
    assert_eq!(entries[0].value, "1");
    assert_eq!(entries[1].key, "B");
    assert_eq!(entries[1].value, "two");
}

#[test]
fn parse_escaped_backslash_and_return_in_double_quoted() {
    let entries = parse_env_text(r#"P="C:\\dir\rX""#);
    assert_eq!(entries.len(), 1);
    assert_eq!(entries[0].value, "C:\\dir\rX");
}

#[test]
fn parse_hash_without_space_is_kept() {
    let entries = parse_env_text("COLOR=#fff # white");
    assert_eq!(entries.len(), 1);
    assert_eq!(entries[0].value, "#fff");
}

#[test]
fn parse_single_quotes_keep_escapes() {
    let entries = parse_env_text(r"K='a\nb'");
    assert_eq!(entries[0].value, "a\\nb");
}

#[test]
fn format_simple_values() {
    let resolved = vec![
        ("KEY1".into(), "value1".into()),
        ("KEY2".into(), "value2".into()),
    ];
    let output = format_env_file(&resolved);
    assert_eq!(output, "KEY1=value1\nKEY2=value2\n");
}

#[test]
fn format_quoted_values() {
    let resolved = vec![
        ("KEY".into(), "value with spaces".into()),
        ("HASH".into(), "before#after".into()),
    ];
    let output = format_env_file(&resolved);
    assert!(output.contains("KEY=\"value with spaces\""));
    assert!(output.contains("HASH=\"before#after\""));
}

#[test]
fn format_env_file_empty() {
    let output = format_env_file(&[]);
    assert_eq!(output, "");
}

#[test]
fn format_env_file_newline_in_value() {
    let resolved = vec![("MULTI".into(), "line1\nline2".into())];
    let output = format_env_file(&resolved);
    assert_eq!(output, "MULTI=\"line1\\nline2\"\n");
}

#[test]
fn format_env_file_backslash_in_value() {
    let resolved = vec![("PATH".into(), "C:\\Users\\me".into())];
    let output = format_env_file(&resolved);
    assert_eq!(output, "PATH=\"C:\\\\Users\\\\me\"\n");
}

#[test]
fn format_env_file_equals_in_value() {
    let resolved = vec![("URL".into(), "postgres://host?opt=1".into())];
    let output = format_env_file(&resolved);
    assert_eq!(output, "URL=\"postgres://host?opt=1\"\n");
}

#[test]
fn format_env_file_empty_value() {
    let resolved = vec![("EMPTY".into(), "".into())];
    let output = format_env_file(&resolved);
    assert_eq!(output, "EMPTY=\"\"\n");
}

#[test]
fn format_env_file_double_quotes_in_value() {
    let resolved = vec![("MSG".into(), "say \"hello\"".into())];
    let output = format_env_file(&resolved);
    assert_eq!(output, "MSG=\"say \\\"hello\\\"\"\n");
}

#[test]
fn format_env_file_carriage_return() {
    let resolved = vec![("CR".into(), "a\rb".into())];
    let output = format_env_file(&resolved);
    assert_eq!(output, "CR=\"a\\rb\"\n");
}

#[test]
fn needs_quoting_cases() {
    assert!(needs_quoting(""));
    assert!(needs_quoting("a b"));
    assert!(needs_quoting("a'b"));
    assert!(needs_quoting("a\\b"));
    assert!(!needs_quoting("plain_value-1.2"));
}

#[test]
fn format_then_parse_gives_pairs_back() {
    let resolved: Vec<(String, String)> = vec![
        ("A".into(), "plain".into()),
        ("B".into(), "with space".into()),
        ("C".into(), "line1\nline2".into()),
        ("D".into(), "quote \" and \\ slash".into()),
        ("E".into(), "".into()),
    ];
    let text = format_env_file(&resolved);
    let parsed = parse_env_text(&text);
    assert_eq!(parsed.len(), resolved.len());
    for (p, (k, v)) in parsed.iter().zip(resolved.iter()) {
        assert_eq!(&p.key, k);
        assert_eq!(&p.value, v);
    }
}
