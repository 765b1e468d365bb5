use yanos::catalog::{convert_post, output_path_of, stem_of};
use yanos::convert_posts;

fn file(name: &str, text: &str) -> (String, String) {
    (name.to_string(), text.to_string())
}

#[test]
fn convert_posts_of_no_documents_is_empty() {
    let index = convert_posts(&vec![]).unwrap();
    assert!(index.buckets.is_empty());
}

#[test]
fn uncategorized_post_goes_to_none_bucket() {
    let files = vec![file("hello.md", "---\ntitle = \"Hello\"\n---\nHi there.")];
    let index = convert_posts(&files).unwrap();
    assert_eq!(index.buckets.len(), 1);
    assert_eq!(index.buckets[0].0, None);
    let post = &index.buckets[0].1[0];
    assert_eq!(post.meta.rendered_to, "hello.html");
    assert_eq!(post.meta.source_file, "hello.md");
    assert_eq!(post.meta.preview_text, "Hi there.");
    assert_eq!(post.content, "<p>Hi there.</p>\n");
}

#[test]
fn posts_are_grouped_by_category_in_key_order() {
    let files = vec![
        file("b.md", "---\ncategory = \"rust\"\n---\nb"),
        file("a.md", "a"),
        file("c.md", "---\ncategory = \"go\"\n---\nc"),
        file("d.md", "---\ncategory = \"rust\"\n---\nd"),
        file("e.md", "---\ntitle = \"e\"\n---\ne"),
    ];
    let index = convert_posts(&files).unwrap();
    let keys: Vec<Option<&str>> = index.buckets.iter().map(|(k, _)| k.as_deref()).collect();
    assert_eq!(keys, vec![None, Some("go"), Some("rust")]);
    let names = |i: usize| -> Vec<&str> {
        index.buckets[i].1.iter().map(|p| p.meta.source_file.as_str()).collect()
    };
    assert_eq!(names(0), vec!["a.md", "e.md"]);
    assert_eq!(names(1), vec!["c.md"]);
    assert_eq!(names(2), vec!["b.md", "d.md"]);
    assert_eq!(index.buckets[2].1[1].meta.rendered_to, "rust/d.html");
}

#[test]
fn convert_posts_stops_at_unreadable_header() {
    let files = vec![file("a.md", "a"), file("b.md", "---\ntitle = [\n---\nb")];
    assert!(convert_posts(&files).is_err());
}

#[test]
fn convert_post_keeps_headings() {
    let post = convert_post("x.md", "# One\n## Two").unwrap();
    assert_eq!(post.headings.len(), 2);
    assert_eq!(post.headings[1].prev_level, Some(1));
    assert!(post.meta.header.is_none());
}

#[test]
fn stems_follow_the_last_dot() {
    assert_eq!(stem_of("post.md"), "post");
    assert_eq!(stem_of("archive.tar.gz"), "archive.tar");
    assert_eq!(stem_of(".hidden"), ".hidden");
    assert_eq!(stem_of("noext"), "noext");
    assert_eq!(stem_of("trailing."), "trailing");
    assert_eq!(stem_of(".."), "..");
}

#[test]
fn output_paths_join_category_and_name() {
    assert_eq!(output_path_of(&None, "a.md"), "a.html");
    assert_eq!(output_path_of(&Some("cat".to_string()), "a.md"), "cat/a.html");
    assert_eq!(output_path_of(&Some("cat/".to_string()), "a.md"), "cat/a.html");
    assert_eq!(output_path_of(&Some(String::new()), "a.md"), "a.html");
}
