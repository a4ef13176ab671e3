use prompt_store::kvmap::StrMap;
use prompt_store::template::{apply_assignments, parse_assignment, render_template};

fn vars(pairs: &[(&str, &str)]) -> StrMap {
    let mut m = StrMap::new();
    for (k, v) in pairs {
        m.insert(k.to_string(), v.to_string());
    }
    m
}

#[test]
fn render_substitutes_and_blanks_missing() {
    let m = vars(&[("a", "x")]);
    assert_eq!(render_template("{{a}} and {{b}}", &m), "x and ");
}

#[test]
fn render_plain_text_unchanged() {
    let m = vars(&[("a", "x")]);
    assert_eq!(render_template("no placeholders here", &m), "no placeholders here");
}

#[test]
fn render_accepts_whitespace_in_braces() {
    let m = vars(&[("name", "Alice")]);
    assert_eq!(render_template("Hello {{ name }}!", &m), "Hello Alice!");
}

#[test]
fn render_is_single_pass() {
    let m = vars(&[("a", "{{b}}"), ("b", "nope")]);
    assert_eq!(render_template("{{a}}", &m), "{{b}}");
}

#[test]
fn render_leaves_malformed_braces() {
    let m = vars(&[("a", "x")]);
    assert_eq!(render_template("{{a", &m), "{{a");
    assert_eq!(render_template("{{ }}", &m), "{{ }}");
    assert_eq!(render_template("{ {a} }", &m), "{ {a} }");
}

#[test]
fn render_extra_brace_prefix() {
    let m = vars(&[("a", "x")]);
    assert_eq!(render_template("{{{a}}", &m), "{x");
}

#[test]
fn render_underscore_and_digit_names() {
    let m = vars(&[("step_1", "ok")]);
    assert_eq!(render_template("{{step_1}}", &m), "ok");
}

#[test]
fn render_repeated_key_uses_value_each_time() {
    let m = vars(&[("a", "x")]);
    assert_eq!(render_template("{{a}}{{a}}", &m), "xx");
}

#[test]
fn assignment_parsing_splits_at_first_separator() {
    assert_eq!(
        parse_assignment("a=b=c", false),
        Some(("a".to_string(), "b=c".to_string()))
    );
    assert_eq!(parse_assignment("no separator", false), None);
    assert_eq!(
        parse_assignment(" key = value ", true),
        Some(("key".to_string(), "value".to_string()))
    );
    assert_eq!(
        parse_assignment(" key = value ", false),
        Some((" key ".to_string(), " value ".to_string()))
    );
    assert_eq!(parse_assignment("=v", false), Some(("".to_string(), "v".to_string())));
}

#[test]
fn assignments_apply_in_order_last_wins() {
    let mut m = StrMap::new();
    m.insert("kept".to_string(), "seed".to_string());
    let items = vec![
        "a=1".to_string(),
        "junk".to_string(),
        "a=2".to_string(),
        "b= x ".to_string(),
    ];
    apply_assignments(&mut m, &items, true);
    assert_eq!(m.get(&"a".to_string()).unwrap().as_str(), "2");
    assert_eq!(m.get(&"b".to_string()).unwrap().as_str(), "x");
    assert_eq!(m.get(&"kept".to_string()).unwrap().as_str(), "seed");
    assert_eq!(m.len(), 3);
}
