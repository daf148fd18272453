use mustache::context::{interpolate, interpolate_inverted, interpolate_section, Json};
use mustache::partials::Partials;
use mustache::render::RenderError;
use mustache::Mustache;

fn s(text: &str) -> String {
    text.to_string()
}

fn obj(fields: Vec<(&str, Json)>) -> Json {
    Json::Object(fields.into_iter().map(|(k, v)| (k.to_string(), v)).collect())
}

fn text(v: &str) -> Json {
    Json::Str(v.to_string())
}

fn render(t: Vec<Mustache>, contexts: Vec<Json>) -> Result<String, RenderError> {
    Mustache::render(t, Partials::new(), contexts)
}

#[test]
fn escaped_interpolation_of_name() {
    let t = vec![Mustache::EscapedInterpolation(s("name"))];
    let r = render(t, vec![obj(vec![("name", text("<b>"))])]);
    assert_eq!(r, Ok(s("&lt;b&gt;")));
}

#[test]
fn section_over_array_of_strings() {
    let t = vec![
        Mustache::Section(s("items")),
        Mustache::Interpolation(s(".")),
        Mustache::Close(s("items")),
    ];
    let r = render(t, vec![obj(vec![("items", Json::Array(vec![text("a"), text("b")]))])]);
    assert_eq!(r, Ok(s("ab")));
}

#[test]
fn inverted_section_on_false_and_true() {
    let t = vec![
        Mustache::InvertedSection(s("x")),
        Mustache::Literal(s("empty")),
        Mustache::Close(s("x")),
    ];
    let r = render(t.clone(), vec![obj(vec![("x", Json::Bool(false))])]);
    assert_eq!(r, Ok(s("empty")));
    let r = render(t, vec![obj(vec![("x", Json::Bool(true))])]);
    assert_eq!(r, Ok(s("")));
}

#[test]
fn partial_greet() {
    let mut partials = Partials::new();
    partials.insert(s("greet"), vec![Mustache::Literal(s("hi "))]);
    let t = vec![Mustache::Partial(s("greet"))];
    let r = Mustache::render(t.clone(), partials, vec![obj(vec![])]);
    assert_eq!(r, Ok(s("hi ")));
    let mut partials = Partials::new();
    partials.insert(s("greet"), vec![Mustache::Literal(s("hi "))]);
    let r = Mustache::render(t, partials, vec![Json::Null, text("z")]);
    assert_eq!(r, Ok(s("hi ")));
}

#[test]
fn unbalanced_section_is_incomplete() {
    let r = render(vec![Mustache::Section(s("a"))], vec![obj(vec![])]);
    assert_eq!(r, Err(RenderError::IncompleteTemplate));
    let t = vec![
        Mustache::Section(s("a")),
        Mustache::Section(s("a")),
        Mustache::Close(s("a")),
    ];
    assert_eq!(render(t, vec![obj(vec![])]), Err(RenderError::IncompleteTemplate));
    let t = vec![Mustache::InvertedSection(s("a")), Mustache::Close(s("b"))];
    assert_eq!(render(t, vec![obj(vec![])]), Err(RenderError::IncompleteTemplate));
}

#[test]
fn literal_only_template_is_its_text() {
    let t = vec![
        Mustache::Literal(s("Hello, ")),
        Mustache::Literal(s("")),
        Mustache::Literal(s("<world> & \"friends\"")),
    ];
    let r = render(t, vec![Json::Null]);
    assert_eq!(r, Ok(s("Hello, <world> & \"friends\"")));
    assert_eq!(render(vec![], vec![Json::Null]), Ok(s("")));
}

#[test]
fn escaping_table_and_verbatim_interpolation() {
    let ctx = || obj(vec![("v", text("a<b&c\"d'e>f"))]);
    let r = render(vec![Mustache::EscapedInterpolation(s("v"))], vec![ctx()]);
    assert_eq!(r, Ok(s("a&lt;b&amp;c&quot;d&#39;e&gt;f")));
    let r = render(vec![Mustache::Interpolation(s("v"))], vec![ctx()]);
    assert_eq!(r, Ok(s("a<b&c\"d'e>f")));
}

#[test]
fn section_over_empty_array_renders_nothing() {
    let t = vec![
        Mustache::Section(s("items")),
        Mustache::Literal(s("x")),
        Mustache::Close(s("items")),
    ];
    let r = render(t, vec![obj(vec![("items", Json::Array(vec![]))])]);
    assert_eq!(r, Ok(s("")));
}

#[test]
fn section_over_array_renders_once_per_element_in_order() {
    let t = vec![
        Mustache::Section(s("items")),
        Mustache::Literal(s("[")),
        Mustache::Interpolation(s("n")),
        Mustache::Literal(s("]")),
        Mustache::Close(s("items")),
    ];
    let items = Json::Array(vec![
        obj(vec![("n", Json::Number(s("1")))]),
        obj(vec![("n", Json::Number(s("2")))]),
        obj(vec![("n", Json::Number(s("3")))]),
    ]);
    let r = render(t, vec![obj(vec![("items", items)])]);
    assert_eq!(r, Ok(s("[1][2][3]")));
}

#[test]
fn section_over_object_and_scalar() {
    let t = vec![
        Mustache::Section(s("person")),
        Mustache::Interpolation(s("name")),
        Mustache::Close(s("person")),
    ];
    let r = render(t, vec![obj(vec![("person", obj(vec![("name", text("Ann"))]))])]);
    assert_eq!(r, Ok(s("Ann")));
    let t = vec![
        Mustache::Section(s("flag")),
        Mustache::Interpolation(s("name")),
        Mustache::Close(s("flag")),
    ];
    let r = render(t, vec![obj(vec![("flag", Json::Bool(true)), ("name", text("Bo"))])]);
    assert_eq!(r, Ok(s("Bo")));
}

#[test]
fn inverted_section_on_missing_null_empty_and_truthy() {
    let t = || {
        vec![
            Mustache::InvertedSection(s("x")),
            Mustache::Literal(s("none")),
            Mustache::Close(s("x")),
        ]
    };
    assert_eq!(render(t(), vec![obj(vec![])]), Ok(s("none")));
    assert_eq!(render(t(), vec![obj(vec![("x", Json::Null)])]), Ok(s("none")));
    assert_eq!(render(t(), vec![obj(vec![("x", Json::Array(vec![]))])]), Ok(s("none")));
    assert_eq!(render(t(), vec![obj(vec![("x", text("y"))])]), Ok(s("")));
    assert_eq!(render(t(), vec![obj(vec![("x", Json::Number(s("0")))])]), Ok(s("")));
}

#[test]
fn missing_partial_renders_nothing() {
    let t = vec![
        Mustache::Literal(s("a")),
        Mustache::Partial(s("nope")),
        Mustache::Literal(s("b")),
    ];
    assert_eq!(render(t, vec![obj(vec![])]), Ok(s("ab")));
}

#[test]
fn partial_sees_only_innermost_context() {
    let mut partials = Partials::new();
    partials.insert(
        s("p"),
        vec![
            Mustache::Interpolation(s("outer")),
            Mustache::Literal(s("|")),
            Mustache::Interpolation(s("inner")),
        ],
    );
    let t = vec![Mustache::Interpolation(s("outer")), Mustache::Partial(s("p"))];
    let contexts = vec![obj(vec![("outer", text("x"))]), obj(vec![("inner", text("y"))])];
    assert_eq!(Mustache::render(t, partials, contexts), Ok(s("x|y")));
}

#[test]
fn partial_insert_replaces_earlier_template() {
    let mut partials = Partials::new();
    partials.insert(s("p"), vec![Mustache::Literal(s("old"))]);
    partials.insert(s("q"), vec![Mustache::Literal(s("other"))]);
    partials.insert(s("p"), vec![Mustache::Literal(s("new"))]);
    assert_eq!(partials.get(&s("p")), Some(&vec![Mustache::Literal(s("new"))]));
    assert_eq!(partials.get(&s("q")), Some(&vec![Mustache::Literal(s("other"))]));
    assert_eq!(partials.get(&s("r")), None);
}

#[test]
fn self_including_partial_hits_depth_limit() {
    let mut partials = Partials::new();
    partials.insert(s("p"), vec![Mustache::Literal(s(".")), Mustache::Partial(s("p"))]);
    let r = Mustache::render(vec![Mustache::Partial(s("p"))], partials, vec![Json::Null]);
    assert_eq!(r, Err(RenderError::PartialDepthExceeded));
}

#[test]
fn lookup_falls_back_to_outer_scopes() {
    let contexts = vec![obj(vec![("a", text("1"))]), obj(vec![("b", text("2"))])];
    let t = vec![
        Mustache::Interpolation(s("a")),
        Mustache::Interpolation(s("b")),
        Mustache::Interpolation(s("c")),
    ];
    assert_eq!(render(t, contexts), Ok(s("12")));
}

#[test]
fn dotted_key_does_not_fall_back() {
    let contexts = vec![obj(vec![("a.b", text("outer"))]), obj(vec![])];
    let t = vec![Mustache::Interpolation(s("a.b"))];
    assert_eq!(render(t, contexts), Ok(s("")));
    let contexts = vec![obj(vec![]), obj(vec![("a.b", text("inner"))])];
    let t = vec![Mustache::EscapedInterpolation(s("a.b"))];
    assert_eq!(render(t, contexts), Ok(s("inner")));
}

#[test]
fn scalar_text_forms() {
    let ctx = obj(vec![
        ("t", Json::Bool(true)),
        ("f", Json::Bool(false)),
        ("n", Json::Number(s("-2.5"))),
        ("z", Json::Null),
        ("l", Json::Array(vec![text("x")])),
    ]);
    let t = vec![
        Mustache::Interpolation(s("t")),
        Mustache::Interpolation(s("f")),
        Mustache::Interpolation(s("n")),
        Mustache::Interpolation(s("z")),
        Mustache::Interpolation(s("l")),
    ];
    assert_eq!(render(t, vec![ctx]), Ok(s("truefalse-2.5")));
}

#[test]
fn dot_key_on_object_context_writes_nothing() {
    let t = vec![Mustache::Interpolation(s("."))];
    assert_eq!(render(t, vec![obj(vec![("a", text("1"))])]), Ok(s("")));
}

#[test]
fn nested_sections_with_the_same_key() {
    let t = vec![
        Mustache::Section(s("a")),
        Mustache::Literal(s("<")),
        Mustache::Section(s("a")),
        Mustache::Literal(s("in")),
        Mustache::Close(s("a")),
        Mustache::Literal(s(">")),
        Mustache::Close(s("a")),
        Mustache::Literal(s("!")),
    ];
    assert_eq!(render(t, vec![obj(vec![("a", Json::Bool(true))])]), Ok(s("<in>!")));
}

#[test]
fn comments_and_stray_closes_write_nothing() {
    let t = vec![
        Mustache::Comment(s("note")),
        Mustache::Close(s("z")),
        Mustache::Literal(s("ok")),
    ];
    assert_eq!(render(t, vec![obj(vec![])]), Ok(s("ok")));
}

#[test]
fn is_dotted_exactly_for_keys_with_a_dot() {
    assert!(Mustache::Interpolation(s("a.b")).is_dotted());
    assert!(Mustache::EscapedInterpolation(s(".")).is_dotted());
    assert!(Mustache::Section(s("x.")).is_dotted());
    assert!(Mustache::InvertedSection(s(".y")).is_dotted());
    assert!(!Mustache::Interpolation(s("ab")).is_dotted());
    assert!(!Mustache::Section(s("")).is_dotted());
    assert!(!Mustache::Close(s("a.b")).is_dotted());
    assert!(!Mustache::Partial(s("a.b")).is_dotted());
    assert!(!Mustache::Comment(s("a.b")).is_dotted());
    assert!(!Mustache::Literal(s("a.b")).is_dotted());
}

#[test]
fn default_rule_is_empty_literal() {
    assert_eq!(Mustache::default(), Mustache::Literal(String::new()));
}

#[test]
fn interpolate_resolves_one_context() {
    let ctx = obj(vec![("name", text("Ann")), ("age", Json::Number(s("7")))]);
    assert_eq!(interpolate(&s("name"), &ctx), Some(s("Ann")));
    assert_eq!(interpolate(&s("age"), &ctx), Some(s("7")));
    assert_eq!(interpolate(&s("nope"), &ctx), None);
    assert_eq!(interpolate(&s("."), &ctx), None);
    assert_eq!(interpolate(&s("."), &Json::Bool(false)), Some(s("false")));
    assert_eq!(interpolate(&s("."), &Json::Null), None);
}

#[test]
fn interpolate_section_gives_one_stack_per_element() {
    let a = text("a");
    let b = text("b");
    let root = obj(vec![("items", Json::Array(vec![text("a"), text("b")]))]);
    let stack = vec![&root];
    let stacks = interpolate_section(&s("items"), &root, &stack);
    assert_eq!(stacks.len(), 2);
    assert_eq!(stacks[0], vec![&root, &a]);
    assert_eq!(stacks[1], vec![&root, &b]);
    assert_eq!(interpolate_section(&s("missing"), &root, &stack).len(), 0);
    let flag = obj(vec![("on", Json::Bool(true))]);
    let stack = vec![&flag];
    assert_eq!(interpolate_section(&s("on"), &flag, &stack), vec![vec![&flag, &flag]]);
}

#[test]
fn interpolate_inverted_keeps_stack_once_for_falsy() {
    let root = obj(vec![("off", Json::Bool(false)), ("on", Json::Bool(true))]);
    let stack = vec![&root];
    assert_eq!(interpolate_inverted(&s("off"), &root, &stack), vec![vec![&root]]);
    assert_eq!(interpolate_inverted(&s("missing"), &root, &stack), vec![vec![&root]]);
    assert_eq!(interpolate_inverted(&s("on"), &root, &stack).len(), 0);
}

#[test]
fn rendering_resumes_after_a_section_close() {
    let t = vec![
        Mustache::Section(s("xs")),
        Mustache::Literal(s("x")),
        Mustache::Close(s("xs")),
        Mustache::InvertedSection(s("xs")),
        Mustache::Literal(s("none")),
        Mustache::Close(s("xs")),
        Mustache::Literal(s("|end")),
    ];
    let empty = obj(vec![("xs", Json::Array(vec![]))]);
    assert_eq!(render(t.clone(), vec![empty]), Ok(s("none|end")));
    let two = obj(vec![("xs", Json::Array(vec![Json::Null, Json::Null]))]);
    assert_eq!(render(t, vec![two]), Ok(s("xx|end")));
}

#[test]
fn unbalanced_section_after_balanced_rules_is_incomplete() {
    let t = vec![
        Mustache::Literal(s("a")),
        Mustache::Section(s("b")),
        Mustache::Close(s("b")),
        Mustache::InvertedSection(s("c")),
        Mustache::Literal(s("d")),
    ];
    assert_eq!(render(t, vec![obj(vec![])]), Err(RenderError::IncompleteTemplate));
}
