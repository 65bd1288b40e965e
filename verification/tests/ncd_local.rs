use ncd::output::scrub_trailing_separators;

#[test]
fn test_trailing_separator_scrub() {
    let final_str = "V:\\Projects\\ncd\\ . ";

    let cleaned = scrub_trailing_separators(final_str);

    assert_eq!(cleaned, "V:\\Projects\\ncd\\ . ");

    // Ensure it DOES NOT scrub the root
    let root = "C:\\";
    let scrubbed_root = scrub_trailing_separators(root);
    let cleaned_root = if scrubbed_root != root { "error" } else { root };
    assert_eq!(cleaned_root, "C:\\");
}
