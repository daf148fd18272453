use mustache::context::Json;
use mustache::flat::FlatEngine;
use mustache::processor::{Engine, ExecutionError, TemplateEngine};
use mustache::Mustache;

fn s(text: &str) -> String {
    text.to_string()
}

fn ctx() -> Json {
    Json::Object(vec![(s("n"), Json::Str(s("<x>")))])
}

#[test]
fn process_executes_every_rule_in_order() {
    let mut e = FlatEngine::configure(ctx());
    let t = vec![
        Mustache::Literal(s("Hi ")),
        Mustache::EscapedInterpolation(s("n")),
        Mustache::Comment(s("ignored")),
        Mustache::Literal(s(" ")),
        Mustache::Interpolation(s("n")),
        Mustache::Interpolation(s("missing")),
    ];
    assert_eq!(e.process(t), Ok(s("Hi &lt;x&gt; <x>")));
}

#[test]
fn process_of_empty_template_gives_initial_output() {
    let mut e = FlatEngine::configure(ctx());
    assert_eq!(e.process(vec![]), Ok(s("")));
}

#[test]
fn process_stops_at_first_failure() {
    let mut e = FlatEngine::configure(ctx());
    let t = vec![
        Mustache::Literal(s("a")),
        Mustache::Section(s("n")),
        Mustache::Literal(s("b")),
    ];
    let r = e.process(t);
    assert!(matches!(r, Err(ExecutionError::InvalidStatement(_))));
    assert_eq!(e.output(), s("a"));
}
