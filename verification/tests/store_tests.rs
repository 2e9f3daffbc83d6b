use studio_store::frontmatter::extract_frontmatter_title;
use studio_store::frontmatter::read_project_display_name;
use studio_store::store::create_post;
use studio_store::store::create_post_with_date;
use studio_store::store::create_project;
use studio_store::store::delete_post;
use studio_store::store::list_posts;
use studio_store::store::list_projects;
use studio_store::store::md_filenames;
use studio_store::store::patch_layout;
use studio_store::store::read_post;
use studio_store::store::rename_project;
use studio_store::store::update_post;
use studio_store::store::update_project_display_name;
use studio_store::store::StoreError;
use studio_store::templates::render_index_content;
use studio_store::templates::render_layout_content;

#[test]
fn list_projects_empty_root_is_empty_list() {
    let r = list_projects("/root/pages", vec![]);
    assert!(r.is_empty());
}

#[test]
fn list_projects_sorts_by_display_name_with_fallback() {
    let idx_b = render_index_content("Beta Site", "zeta");
    let idx_a = render_index_content("Alpha Site", "mu");
    let entries = vec![
        ("zeta".to_string(), Some(idx_b)),
        ("mu".to_string(), Some(idx_a)),
        ("kappa".to_string(), None),
    ];
    let r = list_projects("/p", entries);
    assert_eq!(r.len(), 3);
    assert_eq!(r[0].name, "Alpha Site");
    assert_eq!(r[0].folder_name, "mu");
    assert_eq!(r[0].path, "/p/mu");
    assert_eq!(r[1].name, "Beta Site");
    assert_eq!(r[2].name, "kappa");
    assert_eq!(r[2].folder_name, "kappa");
}

#[test]
fn create_project_generates_folder_and_files() {
    let plan = create_project("/p", "My Blog!", &vec![]).unwrap();
    assert_eq!(plan.project.name, "My Blog!");
    assert_eq!(plan.project.folder_name, "my-blog");
    assert_eq!(plan.project.path, "/p/my-blog");
    assert!(plan.layout_content.contains("const projectName = 'my-blog';"));
    assert_eq!(read_project_display_name(&plan.index_content), Some("My Blog!".to_string()));
}

#[test]
fn create_project_rejects_empty_name() {
    let e = create_project("/p", "!!!", &vec![]).unwrap_err();
    assert!(matches!(e, StoreError::EmptyName));
    assert_eq!(e.message(), "Project name cannot be empty after sanitization");
}

#[test]
fn create_project_rejects_existing_folder() {
    let e = create_project("/p", "My Blog", &vec!["my-blog".to_string()]).unwrap_err();
    match &e {
        StoreError::ProjectExists { folder_name } => assert_eq!(folder_name, "my-blog"),
        other => panic!("unexpected error {:?}", other),
    }
    assert_eq!(e.message(), "Project 'my-blog' already exists");
}

#[test]
fn md_filenames_keeps_only_posts() {
    let names = vec![
        ".md".to_string(),
        "a.md".to_string(),
        "b.txt".to_string(),
        ".a.md.tmp".to_string(),
        "c.b.md".to_string(),
        "_layout.astro".to_string(),
    ];
    let r = md_filenames(names);
    assert_eq!(r, vec!["a.md".to_string(), "c.b.md".to_string()]);
}

#[test]
fn list_posts_missing_project_fails() {
    let e = list_posts("nope", false, &vec![]).unwrap_err();
    assert_eq!(e.message(), "Project 'nope' does not exist");
}

#[test]
fn list_posts_sorts_by_filename_and_resolves_titles() {
    let files = vec![
        ("hello-world.md".to_string(), "---\ntitle: \"Hello World\"\n---\n".to_string()),
        ("hello-world-1.md".to_string(), "no frontmatter".to_string()),
        ("about.md".to_string(), "# About Me\n".to_string()),
    ];
    let posts = list_posts("my-blog", true, &files).unwrap();
    assert_eq!(posts.len(), 3);
    assert_eq!(posts[0].filename, "about.md");
    assert_eq!(posts[0].title, "About Me");
    assert_eq!(posts[1].filename, "hello-world-1.md");
    assert_eq!(posts[1].title, "Hello World 1");
    assert_eq!(posts[2].filename, "hello-world.md");
    assert_eq!(posts[2].title, "Hello World");
    for p in &posts {
        assert_eq!(p.content, "");
    }
}

#[test]
fn create_post_exact_content() {
    let p = create_post_with_date("my-blog", true, &vec![], "Hello World", "2024-01-02").unwrap();
    assert_eq!(p.slug, "hello-world");
    assert_eq!(p.filename, "hello-world.md");
    assert_eq!(p.title, "Hello World");
    assert_eq!(
        p.content,
        "---\ntitle: \"Hello World\"\ndate: 2024-01-02\n---\n\n# Hello World\n\nWrite your content here...\n"
    );
}

#[test]
fn create_post_picks_lowest_free_suffix() {
    let existing = vec!["hello-world.md".to_string()];
    let p = create_post_with_date("b", true, &existing, "Hello World", "2024-01-02").unwrap();
    assert_eq!(p.filename, "hello-world-1.md");

    let existing = vec!["hello-world.md".to_string(), "hello-world-1.md".to_string()];
    let p = create_post_with_date("b", true, &existing, "Hello World", "2024-01-02").unwrap();
    assert_eq!(p.filename, "hello-world-2.md");

    let existing = vec![
        "x.md".to_string(),
        "hello-world.md".to_string(),
        "hello-world-2.md".to_string(),
    ];
    let p = create_post_with_date("b", true, &existing, "Hello World", "2024-01-02").unwrap();
    assert_eq!(p.filename, "hello-world-1.md");
}

#[test]
fn create_post_never_reuses_existing_name() {
    let mut existing: Vec<String> = vec![];
    for _ in 0..5 {
        let p = create_post_with_date("b", true, &existing, "Note", "2024-01-02").unwrap();
        assert!(!existing.contains(&p.filename));
        existing.push(p.filename);
    }
    existing.sort();
    assert_eq!(
        existing,
        vec![
            "note-1.md".to_string(),
            "note-2.md".to_string(),
            "note-3.md".to_string(),
            "note-4.md".to_string(),
            "note.md".to_string(),
        ]
    );
}

#[test]
fn create_post_missing_project_and_empty_title_fail() {
    let e = create_post_with_date("gone", false, &vec![], "T", "2024-01-02").unwrap_err();
    assert_eq!(e.message(), "Project 'gone' does not exist");
    let e = create_post_with_date("b", true, &vec![], "!!!", "2024-01-02").unwrap_err();
    assert!(matches!(e, StoreError::EmptyName));
}

#[test]
fn create_post_today_has_dated_frontmatter() {
    let p = create_post("b", true, &vec![], "Hi").unwrap();
    assert!(p.content.starts_with("---\ntitle: \"Hi\"\ndate: "));
    assert!(p.content.ends_with("\n---\n\n# Hi\n\nWrite your content here...\n"));
    let date_line = p.content.lines().nth(2).unwrap();
    assert!(date_line.len() >= "date: 2024-01-02".len());
}

#[test]
fn read_post_resolves_title_and_keeps_content() {
    let content = "---\ntitle: \"T\"\n---\nbody";
    let p = read_post("my-slug", true, content).unwrap();
    assert_eq!(p.filename, "my-slug.md");
    assert_eq!(p.slug, "my-slug");
    assert_eq!(p.title, "T");
    assert_eq!(p.content, content);

    let e = read_post("my-slug", false, "").unwrap_err();
    assert_eq!(e.message(), "Post 'my-slug' does not exist");
}

#[test]
fn update_post_plans_dot_tmp_sibling() {
    let u = update_post("hello", true, "new body").unwrap();
    assert_eq!(u.filename, "hello.md");
    assert_eq!(u.temp_filename, ".hello.md.tmp");
    assert_eq!(u.content, "new body");
    assert_ne!(u.temp_filename, u.filename);

    let e = update_post("hello", false, "x").unwrap_err();
    assert_eq!(e.message(), "Post 'hello' does not exist");
}

#[test]
fn delete_post_names_exact_file() {
    assert_eq!(delete_post("a-b", true).unwrap(), "a-b.md");
    let e = delete_post("a-b", false).unwrap_err();
    assert_eq!(e.message(), "Post 'a-b' does not exist");
}

#[test]
fn rename_project_to_new_folder() {
    let index = render_index_content("Old Name", "old-name");
    let plan = rename_project("/p", "old-name", "New Display", true, false, &Some(index)).unwrap();
    assert!(plan.folder_changed);
    assert_eq!(plan.project.name, "New Display");
    assert_eq!(plan.project.folder_name, "new-display");
    assert_eq!(plan.project.path, "/p/new-display");
    let new_index = plan.new_index_content.unwrap();
    assert_eq!(read_project_display_name(&new_index), Some("New Display".to_string()));
    assert_eq!(extract_frontmatter_title(&new_index), Some("New Display".to_string()));
    assert!(new_index.contains("const folderName = 'new-display';"));

    let layout = render_layout_content("old-name");
    let patched = patch_layout(&layout, "old-name", "new-display");
    assert!(patched.contains("const projectName = 'new-display';"));
}

#[test]
fn rename_project_same_folder_keeps_path() {
    let index = render_index_content("my blog", "my-blog");
    let plan = rename_project("/p", "my-blog", "My Blog", true, false, &Some(index)).unwrap();
    assert!(!plan.folder_changed);
    assert_eq!(plan.project.folder_name, "my-blog");
    assert_eq!(plan.project.path, "/p/my-blog");
    let new_index = plan.new_index_content.unwrap();
    assert_eq!(read_project_display_name(&new_index), Some("My Blog".to_string()));
}

#[test]
fn rename_project_error_cases() {
    let e = rename_project("/p", "old", "!!!", true, false, &None).unwrap_err();
    assert!(matches!(e, StoreError::EmptyName));

    let e = rename_project("/p", "old", "New", false, false, &None).unwrap_err();
    assert_eq!(e.message(), "Project 'old' does not exist");

    let e = rename_project("/p", "old", "Taken", true, true, &None).unwrap_err();
    assert_eq!(e.message(), "Project 'taken' already exists");

    let e = rename_project("/p", "old", "New", true, false, &Some("no block".to_string()))
        .unwrap_err();
    assert!(matches!(e, StoreError::NoFrontmatter));
}

#[test]
fn rename_project_without_index_file() {
    let plan = rename_project("/p", "old", "New Name", true, false, &None).unwrap();
    assert!(plan.new_index_content.is_none());
    assert_eq!(plan.project.folder_name, "new-name");
}

#[test]
fn end_to_end_create_then_collide_then_list() {
    let plan = create_project("/p", "My Blog!", &vec![]).unwrap();
    assert_eq!(plan.project.folder_name, "my-blog");

    let p1 = create_post_with_date("my-blog", true, &vec![], "Hello World", "2024-03-04").unwrap();
    assert_eq!(p1.filename, "hello-world.md");
    assert_eq!(extract_frontmatter_title(&p1.content), Some("Hello World".to_string()));

    let existing = vec![p1.filename.clone()];
    let p2 = create_post_with_date("my-blog", true, &existing, "Hello World", "2024-03-04")
        .unwrap();
    assert_eq!(p2.filename, "hello-world-1.md");

    let files = vec![
        (p1.filename.clone(), p1.content.clone()),
        (p2.filename.clone(), p2.content.clone()),
    ];
    let posts = list_posts("my-blog", true, &files).unwrap();
    assert_eq!(posts[0].filename, "hello-world-1.md");
    assert_eq!(posts[1].filename, "hello-world.md");
}

#[test]
fn update_then_read_model() {
    let u = update_post("hello", true, "NEW CONTENT").unwrap();
    let p = read_post("hello", true, &u.content).unwrap();
    assert_eq!(p.content, "NEW CONTENT");
}
