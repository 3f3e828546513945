use irc_hook::webhook_publisher::{templ_replace, WebhookPublisher};

#[test]
fn test_templ_replace_positional() {
    let got = templ_replace(
        "user=${0} id=${1}",
        &["alice".to_string(), "42".to_string()],
    );
    assert_eq!(got, "user=alice id=42");
}

#[test]
fn test_templ_replace_unused_placeholder_left_verbatim() {
    let got = templ_replace("u=${0} x=${2}", &["a".to_string()]);
    assert_eq!(got, "u=a x=${2}");
}

#[test]
fn test_templ_replace_unused_value_ignored() {
    let got = templ_replace("plain", &["a".to_string(), "b".to_string()]);
    assert_eq!(got, "plain");
}

#[test]
fn test_templ_replace_empty_group_leaves_template() {
    let got = templ_replace("keep ${0}", &[]);
    assert_eq!(got, "keep ${0}");
}

#[test]
fn test_templ_replace_pure() {
    let template = "user=${0} id=${1}";
    let values = ["alice".to_string(), "42".to_string()];
    let first = templ_replace(template, &values);
    let second = templ_replace(template, &values);
    assert_eq!(first, second);
}

#[test]
fn test_templ_replace_two_digit_index() {
    let mut values: Vec<String> = Vec::new();
    for i in 0..11 {
        values.push(format!("v{}", i));
    }
    let got = templ_replace("last=${10}", &values);
    assert_eq!(got, "last=v10");
}

#[test]
fn test_templ_replace_substituted_value_is_rescanned() {
    // Known limitation of the sequential policy: a value that itself
    // holds a later placeholder token is substituted again by the later
    // pass.
    let got = templ_replace("${0}", &["${1}".to_string(), "Z".to_string()]);
    assert_eq!(got, "Z");
}

#[test]
fn test_render_group_body_and_headers() {
    let publisher = WebhookPublisher::new(
        "http://example.invalid/hook".to_string(),
        "body ${0}".to_string(),
        vec![("x-first".to_string(), "${1}".to_string())],
    );
    let group = vec!["a".to_string(), "b".to_string()];
    let rendered = publisher.render_group(&group);
    assert_eq!(rendered.body, "body a");
    assert_eq!(
        rendered.headers,
        vec![("x-first".to_string(), "b".to_string())]
    );
}

#[test]
fn test_render_all_one_request_per_group() {
    let publisher = WebhookPublisher::new(
        "http://example.invalid/hook".to_string(),
        "got ${1}".to_string(),
        Vec::new(),
    );
    let groups = vec![
        vec!["1a2".to_string(), "a".to_string()],
        vec!["1b2".to_string(), "b".to_string()],
    ];
    let rendered = publisher.render_all(&groups);
    assert_eq!(rendered.len(), 2);
    assert_eq!(rendered[0].body, "got a");
    assert_eq!(rendered[1].body, "got b");
}

#[test]
fn test_publisher_endpoint() {
    let publisher = WebhookPublisher::new(
        "http://example.invalid/hook".to_string(),
        String::new(),
        Vec::new(),
    );
    assert_eq!(publisher.endpoint(), "http://example.invalid/hook");
}
