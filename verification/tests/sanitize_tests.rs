use studio_store::sanitize::sanitize_project_name;
use studio_store::sanitize::sanitize_slug;

#[test]
fn slug_basic() {
    assert_eq!(sanitize_slug("Hello World"), "hello-world");
    assert_eq!(sanitize_slug("hello-world"), "hello-world");
    assert_eq!(sanitize_slug("Hello World"), "hello-world");
}

#[test]
fn slug_specials_become_single_hyphens() {
    assert_eq!(sanitize_slug("My  Blog!"), "my-blog");
    assert_eq!(sanitize_slug("a!!!b"), "a-b");
    assert_eq!(sanitize_slug("__a__b__"), "a-b");
    assert_eq!(sanitize_slug("a_b c-d"), "a-b-c-d");
}

#[test]
fn slug_can_be_empty() {
    assert_eq!(sanitize_slug(""), "");
    assert_eq!(sanitize_slug("---"), "");
    assert_eq!(sanitize_slug("!!!"), "");
    assert_eq!(sanitize_slug("   "), "");
}

#[test]
fn slug_idempotent_on_samples() {
    for s in ["Hello World", "My  Blog!", "__a__b__", "", "Écran Noir", "a-1-b-2"] {
        let once = sanitize_slug(s);
        assert_eq!(sanitize_slug(&once), once);
    }
}

#[test]
fn slug_output_shape() {
    for s in ["  Crazy!! Input__here  ", "--x--", "A B  C", "%$#@"] {
        let out = sanitize_slug(s);
        let chars: Vec<char> = out.chars().collect();
        if !chars.is_empty() {
            assert_ne!(chars[0], '-');
            assert_ne!(chars[chars.len() - 1], '-');
        }
        for w in chars.windows(2) {
            assert!(!(w[0] == '-' && w[1] == '-'));
        }
        for c in chars {
            assert!(c == '-' || (c.is_alphanumeric() && !c.is_uppercase()));
        }
    }
}

#[test]
fn slug_keeps_unicode_letters() {
    assert_eq!(sanitize_slug("Café"), "café");
    assert_eq!(sanitize_slug("ÅNGSTRÖM lab"), "ångström-lab");
}

#[test]
fn project_basic() {
    assert_eq!(sanitize_project_name("My Blog!"), "my-blog");
    assert_eq!(sanitize_project_name("HeLLo World"), "hello-world");
}

#[test]
fn project_keeps_underscores() {
    assert_eq!(sanitize_project_name("a_b"), "a_b");
    assert_eq!(sanitize_project_name("My_Site Name"), "my_site-name");
}

#[test]
fn project_can_be_empty() {
    assert_eq!(sanitize_project_name(""), "");
    assert_eq!(sanitize_project_name("!!! ???"), "");
}

#[test]
fn project_idempotent_on_samples() {
    for s in ["My Blog!", "a_b", "HeLLo  World", "", "x--y"] {
        let once = sanitize_project_name(s);
        assert_eq!(sanitize_project_name(&once), once);
    }
}
