use yanos::convert_posts;
use yanos::site::{render_plan, sorted_post_meta, RenderStep};

fn file(name: &str, text: &str) -> (String, String) {
    (name.to_string(), text.to_string())
}

#[test]
fn posts_are_listed_latest_first() {
    let files = vec![
        file("old.md", "---\ndate = \"2020-01-01\"\n---\nx"),
        file("plain.md", "x"),
        file("undated.md", "---\ntitle = \"u\"\n---\nx"),
        file("new.md", "---\ndate = \"2022-06-01\"\ncategory = \"c\"\n---\nx"),
        file("mid.md", "---\ndate = \"2021-03-04\"\n---\nx"),
    ];
    let index = convert_posts(&files).unwrap();
    let order = sorted_post_meta(&index).unwrap();
    let names: Vec<&str> = order
        .iter()
        .map(|&(b, p)| index.buckets[b].1[p].meta.source_file.as_str())
        .collect();
    assert_eq!(names, vec!["new.md", "mid.md", "old.md", "undated.md", "plain.md"]);
}

#[test]
fn listing_rejects_unreadable_date() {
    let files = vec![file("a.md", "---\ndate = \"01/02/2020\"\n---\nx")];
    let index = convert_posts(&files).unwrap();
    let err = sorted_post_meta(&index).unwrap_err();
    assert_eq!(err.text, "01/02/2020");
}

#[test]
fn listing_of_empty_index_is_empty() {
    let index = convert_posts(&vec![]).unwrap();
    assert!(sorted_post_meta(&index).unwrap().is_empty());
}

#[test]
fn plan_renders_posts_then_category_then_index() {
    let files = vec![
        file("a.md", "a"),
        file("b.md", "---\ncategory = \"c\"\n---\nb"),
        file("d.md", "---\ncategory = \"c\"\n---\nd"),
    ];
    let index = convert_posts(&files).unwrap();
    let plan = render_plan(&index);
    let text: Vec<String> = plan
        .iter()
        .map(|s| match s {
            RenderStep::Post { bucket, post, path } => format!("post {bucket} {post} {path}"),
            RenderStep::EndOfPosts => "end".to_string(),
            RenderStep::Category { bucket, path } => format!("category {bucket} {path}"),
            RenderStep::Index { path } => format!("index {path}"),
        })
        .collect();
    assert_eq!(
        text,
        vec![
            "post 0 0 a.html",
            "end",
            "post 1 0 c/b.html",
            "post 1 1 c/d.html",
            "end",
            "category 1 c.html",
            "index index.html",
        ]
    );
}

#[test]
fn plan_of_empty_index_renders_index_only() {
    let index = convert_posts(&vec![]).unwrap();
    let plan = render_plan(&index);
    assert_eq!(plan.len(), 1);
    assert!(matches!(&plan[0], RenderStep::Index { path } if path == "index.html"));
}
