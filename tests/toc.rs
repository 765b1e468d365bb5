use yanos::toc::{TocBuilder, TocOptions};
use yanos::TocHeading;

fn test_headings() -> Vec<TocHeading> {
    // 1 (h1)
    // -1.1 (h2)
    // -1.1.1 (h3)
    // -1.2 (h2)
    vec![
        TocHeading { level: 1, prev_level: None, text: "1".to_string() },
        TocHeading { level: 2, prev_level: Some(1), text: "1.1".to_string() },
        TocHeading { level: 3, prev_level: Some(2), text: "1.1.1".to_string() },
        TocHeading { level: 2, prev_level: Some(3), text: "1.2".to_string() },
    ]
}

fn default_args() -> TocOptions {
    TocOptions {
        open_list: "<ul>".to_string(),
        close_list: "</ul>".to_string(),
        open_list_item: "<li>".to_string(),
        close_list_item: "</li>".to_string(),
        skip_first: false,
    }
}

#[test]
fn test_toc_builder() {
    let toc_builder = TocBuilder { headings: test_headings() };

    let args = default_args();

    let html = toc_builder.call(&args);

    let mut expected = r"
        <ul>
            <li>1</li>
            <ul>
            <li>1.1</li>
                <ul>
                    <li>1.1.1</li>
                </ul>
            <li>1.2</li>
            </ul>
        </ul>"
        .to_string();

    expected.retain(|c| !c.is_whitespace());
    assert_eq!(html, expected);
}

#[test]
fn test_toc_builder_skip_first() {
    let toc_builder = TocBuilder { headings: test_headings() };

    let mut args = default_args();

    args.skip_first = true;

    let html = toc_builder.call(&args);

    // first heading an outer ul is skipped
    let mut expected = r"
            <ul>
            <li>1.1</li>
                <ul>
                    <li>1.1.1</li>
                </ul>
            <li>1.2</li>
            </ul>"
        .to_string();

    expected.retain(|c| !c.is_whitespace());
    assert_eq!(html, expected);
}

#[test]
fn toc_of_no_headings_is_empty() {
    let toc_builder = TocBuilder { headings: vec![] };
    assert_eq!(toc_builder.call(&default_args()), "");
    let mut args = default_args();
    args.skip_first = true;
    assert_eq!(toc_builder.call(&args), "");
}

#[test]
fn toc_opens_one_list_per_jump() {
    let toc_builder = TocBuilder {
        headings: vec![
            TocHeading { level: 1, prev_level: None, text: "a".to_string() },
            TocHeading { level: 3, prev_level: Some(1), text: "b".to_string() },
            TocHeading { level: 1, prev_level: Some(3), text: "c".to_string() },
        ],
    };
    assert_eq!(
        toc_builder.call(&default_args()),
        "<ul><li>a</li><ul><li>b</li></ul><li>c</li></ul>"
    );
}

#[test]
fn toc_skip_first_equals_toc_of_the_rest() {
    let mut args = default_args();
    args.skip_first = true;
    let skipped = TocBuilder { headings: test_headings() }.call(&args);
    let rest = TocBuilder { headings: test_headings()[1..].to_vec() }.call(&default_args());
    assert_eq!(skipped, rest);
}
