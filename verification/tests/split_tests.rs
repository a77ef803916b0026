use aidecomment::comment::{filter_doc_fragments, split, MetaView};

fn strings(parts: &[&str]) -> Vec<String> {
    parts.iter().map(|p| String::from(*p)).collect()
}

#[test]
fn scenario_summary_and_description() {
    let fragments = strings(&["This is a summary", "", "This is a longer description."]);
    let (summary, description) = split(&fragments);
    assert_eq!(summary, "This is a summary");
    assert_eq!(description, "This is a longer description.");
}

#[test]
fn scenario_single_line() {
    let fragments = strings(&["Single line only."]);
    let (summary, description) = split(&fragments);
    assert_eq!(summary, "Single line only.");
    assert_eq!(description, "");
}

#[test]
fn scenario_no_fragments() {
    let fragments: Vec<String> = Vec::new();
    let (summary, description) = split(&fragments);
    assert_eq!(summary, "");
    assert_eq!(description, "");
}

#[test]
fn scenario_leading_blank() {
    let fragments = strings(&["", "Body text after blank."]);
    let (summary, description) = split(&fragments);
    assert_eq!(summary, "");
    assert_eq!(description, "Body text after blank.");
}

#[test]
fn summary_concatenates_without_separator() {
    let fragments = strings(&["line one", "line two"]);
    let (summary, description) = split(&fragments);
    assert_eq!(summary, "line oneline two");
    assert_eq!(description, "");
}

#[test]
fn doc_comment_leading_spaces_are_trimmed() {
    let fragments = strings(&[" This is a summary"]);
    let (summary, _) = split(&fragments);
    assert_eq!(summary, "This is a summary");
}

#[test]
fn whitespace_only_line_separates() {
    let fragments = strings(&["sum", "   ", "desc"]);
    let (summary, description) = split(&fragments);
    assert_eq!(summary, "sum");
    assert_eq!(description, "desc");
}

#[test]
fn multiline_fragment_is_split_into_lines() {
    let fragments = strings(&["sum\n\ndesc"]);
    let (summary, description) = split(&fragments);
    assert_eq!(summary, "sum");
    assert_eq!(description, "desc");
}

#[test]
fn crlf_line_endings_are_handled() {
    let fragments = strings(&["sum\r\n\r\ndesc"]);
    let (summary, description) = split(&fragments);
    assert_eq!(summary, "sum");
    assert_eq!(description, "desc");
}

#[test]
fn description_joins_with_newlines() {
    let fragments = strings(&["s", "", "d1", "d2"]);
    let (_, description) = split(&fragments);
    assert_eq!(description, "d1\nd2");
}

#[test]
fn blank_line_inside_description_is_kept() {
    let fragments = strings(&["s", "", "d1", "", "d2"]);
    let (_, description) = split(&fragments);
    assert_eq!(description, "d1\n\nd2");
}

#[test]
fn split_is_deterministic() {
    let fragments = strings(&["alpha beta", "", "gamma", "delta"]);
    let first = split(&fragments);
    let second = split(&fragments);
    assert_eq!(first, second);
}

#[test]
fn no_blank_line_gives_empty_description() {
    let fragments = strings(&["alpha", "beta", "gamma"]);
    let (summary, description) = split(&fragments);
    assert_eq!(summary, "alphabetagamma");
    assert_eq!(description, "");
}

#[test]
fn leading_blank_gives_empty_summary() {
    let fragments = strings(&["", "body one", "body two"]);
    let (summary, description) = split(&fragments);
    assert_eq!(summary, "");
    assert_eq!(description, "body one\nbody two");
}

#[test]
fn trimming_again_is_a_noop() {
    let fragments = strings(&["  padded summary  ", "", "  padded description  "]);
    let (summary, description) = split(&fragments);
    assert_eq!(summary.trim(), summary);
    assert_eq!(description.trim(), description);
    assert_eq!(summary, "padded summary");
    assert_eq!(description, "padded description");
}

#[test]
fn entirely_blank_fragments_give_empty_parts() {
    let fragments = strings(&["", ""]);
    let (summary, description) = split(&fragments);
    assert_eq!(summary, "");
    assert_eq!(description, "");
}

#[test]
fn whitespace_only_fragment_gives_empty_parts() {
    let fragments = strings(&["   "]);
    let (summary, description) = split(&fragments);
    assert_eq!(summary, "");
    assert_eq!(description, "");
}

#[test]
fn doc_name_value_fragments_are_kept_in_order() {
    let attrs = vec![
        MetaView::NameValueStr { name: String::from("doc"), value: String::from("first") },
        MetaView::NameValueStr { name: String::from("doc"), value: String::from("second") },
    ];
    let fragments = filter_doc_fragments(&attrs);
    assert_eq!(fragments, vec![String::from("first"), String::from("second")]);
}

#[test]
fn non_doc_attributes_are_ignored() {
    let attrs = vec![
        MetaView::Other,
        MetaView::NameValueStr { name: String::from("path"), value: String::from("nope") },
        MetaView::NameValueStr { name: String::from("doc"), value: String::from("kept") },
        MetaView::Other,
    ];
    let fragments = filter_doc_fragments(&attrs);
    assert_eq!(fragments, vec![String::from("kept")]);
}
