use raytracer::report::log_error;

#[test]
fn a_failure_without_sources_is_one_line() {
    let lines = log_error("pixels.render", "surface lost", &vec!["surface lost".to_string()]);
    assert_eq!(lines, vec!["pixels.render() failed: surface lost".to_string()]);
}

#[test]
fn each_source_but_the_error_itself_gets_a_line() {
    let lines = log_error(
        "pixels.render",
        "Nested error: Leaf error",
        &vec![
            "Nested error: Leaf error".to_string(),
            "Leaf error".to_string(),
            "root".to_string(),
        ],
    );
    assert_eq!(
        lines,
        vec![
            "pixels.render() failed: Nested error: Leaf error".to_string(),
            "  Caused by: Leaf error".to_string(),
            "  Caused by: root".to_string(),
        ]
    );
}

#[test]
fn an_empty_list_of_sources_still_names_the_failure() {
    let lines = log_error("init", "", &Vec::new());
    assert_eq!(lines, vec!["init() failed: ".to_string()]);
}
