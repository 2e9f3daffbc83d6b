use studio_store::frontmatter::extract_frontmatter_title;
use studio_store::frontmatter::extract_title_from_markdown;
use studio_store::frontmatter::read_project_display_name;
use studio_store::store::patch_layout;
use studio_store::store::update_project_display_name;
use studio_store::templates::render_index_content;
use studio_store::templates::render_layout_content;

#[test]
fn fm_title_double_quotes() {
    let content = "---\ntitle: \"Hello\"\ndate: 2024-01-01\n---\n\n# Other\n";
    assert_eq!(extract_frontmatter_title(content), Some("Hello".to_string()));
}

#[test]
fn fm_title_single_quotes() {
    let content = "---\ntitle: 'Hi there'\n---\nbody\n";
    assert_eq!(extract_frontmatter_title(content), Some("Hi there".to_string()));
}

#[test]
fn fm_title_unquoted_is_trimmed() {
    let content = "---\ntitle:   Plain Title  \n---\n";
    assert_eq!(extract_frontmatter_title(content), Some("Plain Title".to_string()));
}

#[test]
fn fm_title_lone_quote_is_kept() {
    let content = "---\ntitle: \"\n---\n";
    assert_eq!(extract_frontmatter_title(content), Some("\"".to_string()));
}

#[test]
fn fm_none_without_block() {
    assert_eq!(extract_frontmatter_title("title: \"X\"\nbody\n"), None);
    assert_eq!(extract_frontmatter_title("---\ntitle: \"X\"\nnever closed\n"), None);
    assert_eq!(extract_frontmatter_title(""), None);
}

#[test]
fn fm_first_match_wins() {
    let content = "---\ntitle: \"First\"\ntitle: \"Second\"\n---\n";
    assert_eq!(extract_frontmatter_title(content), Some("First".to_string()));
}

#[test]
fn title_precedence_frontmatter_over_heading() {
    let content = "---\ntitle: \"From Frontmatter\"\n---\n\n# From Heading\n";
    assert_eq!(extract_title_from_markdown(content, "slug"), "From Frontmatter");
}

#[test]
fn title_precedence_heading_when_no_frontmatter() {
    let content = "Some text\n\n  # The Heading  \nmore\n";
    assert_eq!(extract_title_from_markdown(content, "slug"), "The Heading");
}

#[test]
fn title_precedence_humanized_slug() {
    assert_eq!(extract_title_from_markdown("no heading here", "my-first_post"), "My First Post");
    assert_eq!(extract_title_from_markdown("", "hello"), "Hello");
    assert_eq!(extract_title_from_markdown("", ""), "");
}

#[test]
fn display_name_read_back_from_generated_index() {
    let index = render_index_content("My Blog!", "my-blog");
    assert_eq!(read_project_display_name(&index), Some("My Blog!".to_string()));
    assert_eq!(extract_frontmatter_title(&index), Some("My Blog!".to_string()));
}

#[test]
fn display_name_none_without_field() {
    assert_eq!(read_project_display_name("---\ntitle: \"X\"\n---\n"), None);
    assert_eq!(read_project_display_name("plain text"), None);
}

#[test]
fn update_display_name_rewrites_all_renderings() {
    let index = render_index_content("Old Name", "old-folder");
    let updated = update_project_display_name(&index, "New Name", "new-folder").unwrap();
    assert_eq!(read_project_display_name(&updated), Some("New Name".to_string()));
    assert_eq!(extract_frontmatter_title(&updated), Some("New Name".to_string()));
    assert!(updated.contains("const projectName = 'New Name';"));
    assert!(updated.contains("const displayName = 'New Name';"));
    assert!(updated.contains("const folderName = 'new-folder';"));
    assert!(!updated.contains("Old Name"));
    assert!(!updated.contains("old-folder"));
}

#[test]
fn update_inserts_missing_fields_after_delimiter() {
    let content = "---\nsomething: else\n---\nbody";
    let updated = update_project_display_name(content, "Name", "folder").unwrap();
    let lines: Vec<&str> = updated.lines().collect();
    assert_eq!(lines[0], "---");
    assert_eq!(lines[1], "title: \"Name\"");
    assert_eq!(lines[2], "displayName: \"Name\"");
    assert_eq!(lines[3], "something: else");
}

#[test]
fn update_without_frontmatter_fails() {
    let e = update_project_display_name("no block here", "Name", "folder").unwrap_err();
    assert_eq!(e.message(), "No frontmatter found in index.astro");
}

#[test]
fn layout_patch_rewrites_folder_reference() {
    let layout = render_layout_content("old-name");
    let patched = patch_layout(&layout, "old-name", "new-display");
    assert!(patched.contains("const projectName = 'new-display';"));
    assert!(!patched.contains("const projectName = 'old-name';"));
}
