use luty::catalog::{describe, read_header, sort_catalog, HeaderIssue, HeaderMetadata};

fn header(lines: &[&str], failed: bool) -> HeaderMetadata {
    read_header(&lines.iter().map(|s| s.to_string()).collect(), failed)
}

#[test]
fn reads_title_and_size() {
    let h = header(&["  TITLE \"Warm look\"  ", "# comment", "LUT_3D_SIZE 33", "0 0 0"], false);
    assert_eq!(h.title.as_deref(), Some("Warm look"));
    assert_eq!(h.size, Some(33));
    assert_eq!(h.issue, None);
}

#[test]
fn reports_header_issues() {
    assert_eq!(header(&["LUT_1D_SIZE 1024"], false).issue, Some(HeaderIssue::OneDimensional));
    assert_eq!(header(&["LUT_3D_SIZE 512"], false).issue, Some(HeaderIssue::SizeOutOfRange(512)));
    assert_eq!(header(&["LUT_3D_SIZE x"], false).issue, Some(HeaderIssue::InvalidSize));
    assert_eq!(header(&["TITLE a"], false).issue, Some(HeaderIssue::MissingSize));
    assert_eq!(header(&["TITLE a"], true).issue, Some(HeaderIssue::HeaderUnreadable));
    assert_eq!(header(&["TITLE a"], true).title.as_deref(), Some("a"));
    assert_eq!(HeaderIssue::SizeOutOfRange(512).message(), "LUT_3D_SIZE must be between 2 and 256, got 512");
    assert_eq!(HeaderIssue::MissingSize.message(), "Missing LUT_3D_SIZE near the start of the file");
    assert_eq!(HeaderIssue::HeaderUnreadable.message(), "Could not read LUT header");
    assert_eq!(HeaderIssue::Unreadable.message(), "Could not read LUT");
    assert_eq!(HeaderIssue::InvalidSize.message(), "Invalid LUT_3D_SIZE");
}

#[test]
fn searches_only_the_first_lines() {
    let mut lines: Vec<String> = vec![String::new(); 128];
    lines.push(String::from("LUT_3D_SIZE 2"));
    let h = read_header(&lines, false);
    assert_eq!(h.issue, Some(HeaderIssue::MissingSize));
    let h = read_header(&lines[..128].to_vec(), true);
    assert_eq!(h.issue, Some(HeaderIssue::MissingSize));
    let mut lines: Vec<String> = vec![String::new(); 127];
    lines.push(String::from("LUT_3D_SIZE 2"));
    assert_eq!(read_header(&lines, false).size, Some(2));
}

#[test]
fn title_prefix_and_quotes() {
    let h = header(&["TITLE\"\"Film\" look\"\"", "LUT_3D_SIZE 2"], false);
    assert_eq!(h.title.as_deref(), Some("Film\" look"));
    let h = header(&["TITLEX", "TITLE second", "LUT_3D_SIZE 2"], false);
    assert_eq!(h.title.as_deref(), Some("second"));
}

#[test]
fn describes_usable_and_unusable_files() {
    let d = describe(
        String::from("/luts/Film/Kodak.2383.cube"),
        Some(1234),
        Some(99),
        header(&["TITLE \"K\"", "LUT_3D_SIZE 33"], false),
    );
    assert_eq!(d.name, "Kodak.2383");
    assert_eq!(d.title.as_deref(), Some("K"));
    assert_eq!(d.size, Some(33));
    assert_eq!(d.file_size, 1234);
    assert_eq!(d.modified_at_ms, Some(99));
    assert!(d.supported);
    assert_eq!(d.error, None);
    let d = describe(String::from("/luts/broken.CUBE"), None, None, HeaderMetadata::unreadable());
    assert_eq!(d.name, "broken");
    assert_eq!(d.file_size, 0);
    assert!(!d.supported);
    assert_eq!(d.error.as_deref(), Some("Could not read LUT"));
    let d = describe(String::from("/luts/.cube"), None, None, header(&["LUT_1D_SIZE 2"], false));
    assert_eq!(d.name, ".cube");
    assert_eq!(d.error.as_deref(), Some("1D .cube LUTs are not supported yet"));
}

#[test]
fn sorts_by_lowercase_name_keeping_ties_in_order() {
    let names = ["b", "A", "c", "a", "B", "Ä", "ä"];
    let descriptors = names
        .iter()
        .enumerate()
        .map(|(i, n)| {
            describe(format!("/x/{}.cube", n), Some(i as u64), None, HeaderMetadata::unreadable())
        })
        .collect();
    let sorted = sort_catalog(descriptors);
    let order: Vec<String> = sorted.iter().map(|d| d.name.clone()).collect();
    assert_eq!(order, vec!["A", "a", "b", "B", "c", "Ä", "ä"]);
    let mut expected: Vec<&str> = names.to_vec();
    expected.sort_by_key(|n| n.to_lowercase());
    assert_eq!(order, expected);
}
