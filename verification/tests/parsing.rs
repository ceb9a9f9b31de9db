use equation_processor::parse_csv;
use equation_processor::parse_markdown;

#[test]
fn test_csv_parsing() {
    let csv_content = "active,body,name\nyes,x = y + z,example_equation\nno,E = mc^2,\n";
    let equations = parse_csv(csv_content);
    assert_eq!(equations.len(), 2);
    assert_eq!(equations[0].name, "example_equation");
    assert_eq!(equations[1].name, "default_equation");
}

#[test]
fn test_markdown_parsing() {
    let md_content = "%%yes%%\n$$x = y + z$$\n%%example_equation%%\n";
    let equations = parse_markdown(md_content);
    assert_eq!(equations.len(), 1);
    assert_eq!(equations[0].name, "example_equation");
}

#[test]
fn test_csv_row_fields() {
    let equations = parse_csv("active,body,name\nyes,x = y + z,example_equation\n");
    assert_eq!(equations.len(), 1);
    assert!(equations[0].active);
    assert_eq!(equations[0].name, "example_equation");
    assert_eq!(equations[0].body, "x = y + z");
}

#[test]
fn test_csv_empty_name_falls_back() {
    let equations = parse_csv("active,body,name\nno,E = mc^2,\n");
    assert_eq!(equations.len(), 1);
    assert!(!equations[0].active);
    assert_eq!(equations[0].name, "default_equation");
    assert_eq!(equations[0].body, "E = mc^2");
}

#[test]
fn test_csv_record_count_matches_qualifying_rows() {
    // Rows with fewer than 3 fields are skipped; others count, one each.
    let content = "header\na,b,c\nshort\nonly,two\nno,d,e,f\n\nyes,g,h\n";
    let equations = parse_csv(content);
    assert_eq!(equations.len(), 3);
    assert_eq!(equations[0].name, "c");
    assert_eq!(equations[1].name, "e");
    assert_eq!(equations[2].name, "h");
}

#[test]
fn test_csv_active_flag_case_insensitive() {
    let equations = parse_csv("h\nYES,a,b\nYes,c,d\nanything,e,f\n,g,h\n");
    assert_eq!(equations.len(), 4);
    assert!(equations[0].active);
    assert!(equations[1].active);
    assert!(!equations[2].active);
    assert!(!equations[3].active);
}

#[test]
fn test_csv_fields_are_trimmed() {
    let equations = parse_csv("h\n  yes , a + b ,  nice name \n");
    assert_eq!(equations.len(), 1);
    assert!(equations[0].active);
    assert_eq!(equations[0].body, "a + b");
    assert_eq!(equations[0].name, "nice_name");
}

#[test]
fn test_csv_empty_content() {
    assert_eq!(parse_csv("").len(), 0);
    assert_eq!(parse_csv("active,body,name\n").len(), 0);
    assert_eq!(parse_csv("active,body,name").len(), 0);
}

#[test]
fn test_csv_crlf_lines() {
    let equations = parse_csv("h\r\nyes,a,b\r\nno,c,d\r\n");
    assert_eq!(equations.len(), 2);
    assert_eq!(equations[0].body, "a");
    assert_eq!(equations[0].name, "b");
    assert!(!equations[1].active);
}

#[test]
fn test_csv_commas_shift_fields() {
    // No quoting support: a comma inside the body shifts the later fields.
    let equations = parse_csv("h\nyes,a,b,c\n");
    assert_eq!(equations.len(), 1);
    assert_eq!(equations[0].body, "a");
    assert_eq!(equations[0].name, "b");
}

#[test]
fn test_csv_duplicate_names_suffixed() {
    let equations = parse_csv("h\nyes,a,foo\nyes,b,foo\nyes,c,foo\n");
    assert_eq!(equations.len(), 3);
    assert_eq!(equations[0].name, "foo");
    assert_eq!(equations[1].name, "foo_1");
    assert_eq!(equations[2].name, "foo_2");
}

#[test]
fn test_csv_suffix_added_before_sanitization() {
    // The duplicate count is keyed on the raw trimmed name; the suffix is
    // appended to it and only then is the whole name sanitized.
    let equations = parse_csv("h\nyes,a,my name\nyes,b,my name\n");
    assert_eq!(equations.len(), 2);
    assert_eq!(equations[0].name, "my_name");
    assert_eq!(equations[1].name, "my_name_1");
}

#[test]
fn test_markdown_defaults() {
    let equations = parse_markdown("$$E = mc^2$$");
    assert_eq!(equations.len(), 1);
    assert!(equations[0].active);
    assert_eq!(equations[0].name, "default_equation");
    assert_eq!(equations[0].body, "E = mc^2");
}

#[test]
fn test_markdown_inactive_directive() {
    let equations = parse_markdown("%%no%%\n$$E$$\n");
    assert_eq!(equations.len(), 1);
    assert!(!equations[0].active);
}

#[test]
fn test_markdown_empty_directive_is_active() {
    let equations = parse_markdown("%%%%\n$$z$$\n");
    assert_eq!(equations.len(), 1);
    assert!(equations[0].active);
    assert_eq!(equations[0].name, "default_equation");
}

#[test]
fn test_markdown_no_blocks() {
    assert_eq!(parse_markdown("no math here").len(), 0);
    assert_eq!(parse_markdown("").len(), 0);
    assert_eq!(parse_markdown("%%yes%%\nno block follows").len(), 0);
}

#[test]
fn test_markdown_unclosed_block() {
    assert_eq!(parse_markdown("$$x").len(), 0);
}

#[test]
fn test_markdown_multiline_body_trimmed() {
    let equations = parse_markdown("$$\nx +\ny\n$$\n");
    assert_eq!(equations.len(), 1);
    assert_eq!(equations[0].body, "x +\ny");
}

#[test]
fn test_markdown_body_keeps_single_dollar() {
    let equations = parse_markdown("$$a$ b$$");
    assert_eq!(equations.len(), 1);
    assert_eq!(equations[0].body, "a$ b");
}

#[test]
fn test_markdown_trailing_directive_becomes_name() {
    // The scan is greedy about a trailing %%...%% right after a block: a
    // following activity directive is read as the first block's name.
    let equations = parse_markdown("$$a$$\n%%yes%%\n$$b$$\n");
    assert_eq!(equations.len(), 2);
    assert_eq!(equations[0].name, "yes");
    assert_eq!(equations[0].body, "a");
    assert!(equations[0].active);
    assert_eq!(equations[1].name, "default_equation");
    assert_eq!(equations[1].body, "b");
}

#[test]
fn test_markdown_duplicate_names_suffixed() {
    let equations = parse_markdown("$$a$$%%foo%%$$b$$%%foo%%$$c$$%%foo%%");
    assert_eq!(equations.len(), 3);
    assert_eq!(equations[0].name, "foo");
    assert_eq!(equations[1].name, "foo_1");
    assert_eq!(equations[2].name, "foo_2");
}

#[test]
fn test_markdown_default_names_also_counted() {
    let equations = parse_markdown("$$a$$ $$b$$");
    assert_eq!(equations.len(), 2);
    assert_eq!(equations[0].name, "default_equation");
    assert_eq!(equations[1].name, "default_equation_1");
}

#[test]
fn test_markdown_name_not_trimmed_before_sanitization() {
    // The trailing capture is used verbatim as the raw name, so its spaces
    // are sanitized into underscores rather than stripped.
    let equations = parse_markdown("$$a$$%% spaced %%");
    assert_eq!(equations.len(), 1);
    assert_eq!(equations[0].name, "_spaced_");
}

#[test]
fn test_markdown_directive_needs_adjacency() {
    // Only newlines may stand between a directive and its block: a space
    // detaches the directive, and the block then defaults to active.
    let equations = parse_markdown("%%no%% \n$$x$$");
    assert_eq!(equations.len(), 1);
    assert!(equations[0].active);
    assert_eq!(equations[0].name, "default_equation");
}

#[test]
fn test_markdown_directive_across_blank_lines() {
    let equations = parse_markdown("%%no%%\r\n\r\n$$x$$\r\n");
    assert_eq!(equations.len(), 1);
    assert!(!equations[0].active);
    assert_eq!(equations[0].body, "x");
}

#[test]
fn test_csv_and_markdown_counts_are_separate() {
    let from_csv = parse_csv("h\nyes,a,foo\n");
    let from_md = parse_markdown("$$b$$%%foo%%");
    assert_eq!(from_csv[0].name, "foo");
    assert_eq!(from_md[0].name, "foo");
}
