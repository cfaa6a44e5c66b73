use tempget::fetcher::get_template_requests;
use tempget::template::{extract_plan, ExtractInfo, Template};

#[test]
fn directory_extraction_skips_directories() {
    let names = vec![
        "a.txt".to_string(),
        "sub/".to_string(),
        "sub/b.txt".to_string(),
    ];
    let plan = extract_plan(&names, &ExtractInfo::Directory("out".to_string()));
    assert_eq!(
        plan,
        vec![(0, "out/a.txt".to_string()), (2, "out/sub/b.txt".to_string())]
    );
}

#[test]
fn directory_with_trailing_separator_joins_cleanly() {
    let names = vec!["a.txt".to_string()];
    let plan = extract_plan(&names, &ExtractInfo::Directory("out/".to_string()));
    assert_eq!(plan, vec![(0, "out/a.txt".to_string())]);
}

#[test]
fn mapping_extraction_takes_only_mapped_names() {
    let names = vec!["x".to_string(), "y".to_string(), "z".to_string()];
    let mapping = ExtractInfo::Mapping(vec![
        ("y".to_string(), "dest/y.bin".to_string()),
        ("q".to_string(), "never".to_string()),
    ]);
    let plan = extract_plan(&names, &mapping);
    assert_eq!(plan, vec![(1, "dest/y.bin".to_string())]);
}

#[test]
fn empty_archive_plans_nothing() {
    let plan = extract_plan(&Vec::new(), &ExtractInfo::Directory("out".to_string()));
    assert!(plan.is_empty());
}

#[test]
fn template_requests_follow_the_retrieve_list() {
    let templ = Template {
        retrieve: vec![
            ("a.bin".to_string(), "http://x/a".to_string()),
            ("b.bin".to_string(), "http://x/b".to_string()),
        ],
        extract: Vec::new(),
    };
    let reqs = get_template_requests(&templ);
    assert_eq!(reqs, templ.retrieve);
}
