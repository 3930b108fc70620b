use gamecrawler::cache::{cached_image, holds_value, split_designer_arg, Cache};

#[test]
fn cache_paths() {
    let c = Cache::new("cache".to_string());
    assert_eq!(c.root(), "cache");
    assert_eq!(c.list_path(), "cache/list.json");
    assert_eq!(c.item_path("42"), "cache/items/42.json");
    assert_eq!(c.dynamic_path("42"), "cache/dynamic/42.json");
    assert_eq!(c.items_dir(), "cache/items");
    assert_eq!(c.dynamic_dir(), "cache/dynamic");
    assert_eq!(c.browse_page_path(3), "cache/browse/page-3.html");
    assert_eq!(c.image_path("9"), "cache/images/9.txt");
}

#[test]
fn cache_paths_join_like_pathbuf() {
    let c = Cache::new("/tmp/cache/".to_string());
    assert_eq!(c.list_path(), "/tmp/cache/list.json");
    assert_eq!(c.item_path("1"), "/tmp/cache/items/1.json");
    let empty = Cache::new(String::new());
    assert_eq!(empty.item_path("1"), "items/1.json");
    let c = Cache::new("cache".to_string());
    assert_eq!(c.item_path("/abs"), "/abs.json");
    let expected = std::path::Path::new("cache").join("items").join("x.json");
    assert_eq!(c.item_path("x"), expected.to_str().unwrap());
}

#[test]
fn blank_cache_files_count_as_missing() {
    assert!(!holds_value(""));
    assert!(!holds_value(" \n\t"));
    assert!(holds_value("[]"));
}

#[test]
fn cached_images() {
    assert_eq!(cached_image(String::new()), None);
    assert_eq!(cached_image("u.jpg".to_string()).as_deref(), Some("u.jpg"));
}

#[test]
fn designer_arguments() {
    assert_eq!(
        split_designer_arg("Reiner Knizia:cache"),
        Some(("Reiner Knizia".to_string(), "cache".to_string()))
    );
    assert_eq!(
        split_designer_arg("A:b:c"),
        Some(("A".to_string(), "b:c".to_string()))
    );
    assert_eq!(split_designer_arg(":x"), Some((String::new(), "x".to_string())));
    assert_eq!(split_designer_arg("no colon"), None);
}

#[test]
fn dynamic_paths_do_not_collide() {
    for root in ["", "/", "cache", "cache/", "/tmp/c"] {
        let c = Cache::new(root.to_string());
        assert_ne!(c.dynamic_path("12"), c.dynamic_path("123"));
        assert_eq!(c.dynamic_path("12"), c.dynamic_path("12"));
        assert_ne!(c.dynamic_path("12"), c.item_path("12"));
        assert_ne!(c.dynamic_path("list"), c.list_path());
    }
}
