use vstd::prelude::*;

verus! {

broadcast use vstd::string::group_string_axioms;

/// A JSON-like data scope against which template keys are resolved.
/// A number is held as its textual form.
#[derive(Debug, PartialEq)]
pub enum Json {
    Null,
    Bool(bool),
    Number(String),
    Str(String),
    Array(Vec<Json>),
    Object(Vec<(String, Json)>),
}

/// The key "." (or the empty key) names the whole context.
pub open spec fn is_self_key(k: Seq<char>) -> bool {
    k.len() == 0 || k == seq!['.']
}

/// The value of the first field named `key`, from field `i` on.
pub open spec fn field_from(fields: Seq<(String, Json)>, key: Seq<char>, i: int) -> Option<Json>
    decreases fields.len() - i,
{
    if i < 0 || i >= fields.len() {
        None
    } else if fields[i].0@ == key {
        Some(fields[i].1)
    } else {
        field_from(fields, key, i + 1)
    }
}

/// What `key` names in one context: the context itself for ".", a field of
/// an object, or nothing.
pub open spec fn lookup(key: Seq<char>, ctx: Json) -> Option<Json> {
    if is_self_key(key) {
        Some(ctx)
    } else {
        match ctx {
            Json::Object(fields) => field_from(fields@, key, 0),
            _ => None,
        }
    }
}

/// The textual form of a scalar; null, arrays and objects have none.
pub open spec fn scalar_text(v: Json) -> Option<Seq<char>> {
    match v {
        Json::Bool(b) => Some(if b { "true"@ } else { "false"@ }),
        Json::Number(n) => Some(n@),
        Json::Str(s) => Some(s@),
        _ => None,
    }
}

/// The text that an interpolation of `key` writes in one context, if any.
pub open spec fn interpolated(key: Seq<char>, ctx: Json) -> Option<Seq<char>> {
    match lookup(key, ctx) {
        Some(v) => scalar_text(v),
        None => None,
    }
}

/// The HTML entity for `& < > " '`, and the character itself otherwise.
pub open spec fn escape_char(c: char) -> Seq<char> {
    if c == '&' {
        "&amp;"@
    } else if c == '<' {
        "&lt;"@
    } else if c == '>' {
        "&gt;"@
    } else if c == '"' {
        "&quot;"@
    } else if c == '\'' {
        "&#39;"@
    } else {
        seq![c]
    }
}

/// `s` with each character replaced by its HTML escape.
pub open spec fn escaped(s: Seq<char>) -> Seq<char>
    decreases s.len(),
{
    if s.len() == 0 {
        Seq::empty()
    } else {
        escaped(s.drop_last()) + escape_char(s.last())
    }
}

/// Missing, null, false and the empty array render a section zero times.
pub open spec fn is_falsy(v: Option<Json>) -> bool {
    match v {
        None => true,
        Some(Json::Null) => true,
        Some(Json::Bool(b)) => !b,
        Some(Json::Array(a)) => a@.len() == 0,
        _ => false,
    }
}

/// The context stacks that a section over `key`, tried in scope `ctx` of
/// `stack`, renders its block against: one per array element, each pushed
/// as the innermost scope; one for any other truthy value, with an object
/// pushed as it is and the enclosing context pushed otherwise.
pub open spec fn section_stacks(key: Seq<char>, ctx: Json, stack: Seq<Json>) -> Seq<Seq<Json>> {
    let v = lookup(key, ctx);
    if is_falsy(v) {
        Seq::empty()
    } else {
        match v.unwrap() {
            Json::Array(a) => Seq::new(a@.len(), |j: int| stack.push(a@[j])),
            Json::Object(_) => seq![stack.push(v.unwrap())],
            _ => seq![stack.push(ctx)],
        }
    }
}

/// The context stacks of an inverted section: the stack unchanged, once,
/// exactly when the value is falsy.
pub open spec fn inverted_stacks(key: Seq<char>, ctx: Json, stack: Seq<Json>) -> Seq<Seq<Json>> {
    if is_falsy(lookup(key, ctx)) {
        seq![stack]
    } else {
        Seq::empty()
    }
}

/// The scopes that a stack of references points to.
pub open spec fn scopes(stack: Seq<&Json>) -> Seq<Json> {
    Seq::new(stack.len(), |i: int| *stack[i])
}

/// Relies on String::push: the character is added at the end.
#[verifier::external_body]
fn push_char(s: &mut String, c: char)
    ensures
        final(s)@ == old(s)@.push(c),
{
    s.push(c)
}

/// Whether `key` is "." or empty.
fn self_key(key: &String) -> (r: bool)
    ensures
        r == is_self_key(key@),
{
    let n = key.as_str().unicode_len();
    if n == 0 {
        true
    } else if n == 1 {
        let c = key.as_str().get_char(0);
        proof {
            if c == '.' {
                assert(key@ =~= seq!['.']);
            }
        }
        c == '.'
    } else {
        false
    }
}

/// Resolves `key` against one context.
pub fn lookup_key<'a>(key: &String, ctx: &'a Json) -> (r: Option<&'a Json>)
    ensures
        match r {
            Some(v) => lookup(key@, *ctx) == Some(*v),
            None => lookup(key@, *ctx) is None,
        },
{
    if self_key(key) {
        return Some(ctx);
    }
    match ctx {
        Json::Object(fields) => {
            let mut i: usize = 0;
            while i < fields.len()
                invariant
                    i <= fields@.len(),
                    lookup(key@, *ctx) == field_from(fields@, key@, 0),
                    field_from(fields@, key@, 0) == field_from(fields@, key@, i as int),
                decreases fields@.len() - i,
            {
                let field = &fields[i];
                if field.0 == *key {
                    assert(field_from(fields@, key@, i as int) == Some(field.1));
                    return Some(&field.1);
                }
                i = i + 1;
            }
            None
        },
        _ => None,
    }
}

/// Appends the textual form of a scalar to `out`; returns false, writing
/// nothing, for null, arrays and objects.
pub fn write_scalar(out: &mut String, v: &Json, escape: bool) -> (r: bool)
    ensures
        r == (scalar_text(*v) is Some),
        final(out)@ == old(out)@ + (if r {
            if escape {
                escaped(scalar_text(*v).unwrap())
            } else {
                scalar_text(*v).unwrap()
            }
        } else {
            Seq::empty()
        }),
{
    let text: &str = match v {
        Json::Bool(b) => if *b { "true" } else { "false" },
        Json::Number(n) => n.as_str(),
        Json::Str(s) => s.as_str(),
        _ => {
            assert(old(out)@ + Seq::<char>::empty() =~= old(out)@);
            return false;
        },
    };
    if escape {
        write_escaped(out, text);
    } else {
        out.append(text);
    }
    true
}

/// Appends `s` to `out` with `& < > " '` replaced by their HTML entities.
pub fn write_escaped(out: &mut String, s: &str)
    ensures
        final(out)@ == old(out)@ + escaped(s@),
{
    proof {
        reveal_strlit("&amp;");
        reveal_strlit("&lt;");
        reveal_strlit("&gt;");
        reveal_strlit("&quot;");
        reveal_strlit("&#39;");
    }
    for c in it: s.chars()
        invariant
            it.seq() == s@,
            out@ == old(out)@ + escaped(s@.subrange(0, it.index() as int)),
    {
        let ghost before = out@;
        if c == '&' {
            out.append("&amp;");
        } else if c == '<' {
            out.append("&lt;");
        } else if c == '>' {
            out.append("&gt;");
        } else if c == '"' {
            out.append("&quot;");
        } else if c == '\'' {
            out.append("&#39;");
        } else {
            push_char(out, c);
        }
        proof {
            let k = it.index() as int;
            let pre = s@.subrange(0, k);
            let post = s@.subrange(0, k + 1);
            assert(post.drop_last() =~= pre);
            assert(post.last() == c);
            assert(out@ =~= old(out)@ + escaped(post));
        }
    }
    assert(s@.subrange(0, s@.len() as int) =~= s@);
}

/// Whether a looked-up value renders a section zero times.
pub fn falsy(v: Option<&Json>) -> (r: bool)
    ensures
        r == is_falsy(
            match v {
                Some(x) => Some(*x),
                None => None,
            },
        ),
{
    match v {
        None => true,
        Some(Json::Null) => true,
        Some(Json::Bool(b)) => !*b,
        Some(Json::Array(a)) => a.len() == 0,
        _ => false,
    }
}

/// `stack` with `top` pushed as the innermost scope.
pub fn with_scope<'a>(stack: &Vec<&'a Json>, top: &'a Json) -> (r: Vec<&'a Json>)
    ensures
        scopes(r@) == scopes(stack@).push(*top),
        r@.len() == stack@.len() + 1,
{
    let mut r: Vec<&'a Json> = Vec::new();
    let mut i: usize = 0;
    while i < stack.len()
        invariant
            i <= stack@.len(),
            r@ == stack@.subrange(0, i as int),
        decreases stack@.len() - i,
    {
        r.push(stack[i]);
        i = i + 1;
        assert(r@ =~= stack@.subrange(0, i as int));
    }
    r.push(top);
    assert(r@ =~= stack@.push(top));
    assert(scopes(r@) =~= scopes(stack@).push(*top));
    r
}

/// A copy of `stack`.
fn copy_stack<'a>(stack: &Vec<&'a Json>) -> (r: Vec<&'a Json>)
    ensures
        r@ == stack@,
{
    let mut r: Vec<&'a Json> = Vec::new();
    let mut i: usize = 0;
    while i < stack.len()
        invariant
            i <= stack@.len(),
            r@ == stack@.subrange(0, i as int),
        decreases stack@.len() - i,
    {
        r.push(stack[i]);
        i = i + 1;
        assert(r@ =~= stack@.subrange(0, i as int));
    }
    assert(r@ =~= stack@);
    r
}

/// The text that an interpolation of `key` writes in `context`, if any.
pub fn interpolate(key: &String, context: &Json) -> (r: Option<String>)
    ensures
        match r {
            Some(s) => interpolated(key@, *context) == Some(s@),
            None => interpolated(key@, *context) is None,
        },
{
    match lookup_key(key, context) {
        Some(v) => {
            let mut s = String::new();
            if write_scalar(&mut s, v, false) {
                assert(s@ =~= scalar_text(*v).unwrap());
                Some(s)
            } else {
                None
            }
        },
        None => None,
    }
}

/// The context stacks, one per iteration, that a section over `key` tried
/// in scope `ctx` of `stack` renders its block against.
pub fn interpolate_section<'a>(key: &String, ctx: &'a Json, stack: &Vec<&'a Json>) -> (r: Vec<
    Vec<&'a Json>,
>)
    ensures
        r@.len() == section_stacks(key@, *ctx, scopes(stack@)).len(),
        forall|m: int|
            0 <= m < r@.len() ==> scopes(#[trigger] r@[m]@) == section_stacks(
                key@,
                *ctx,
                scopes(stack@),
            )[m],
        forall|m: int| 0 <= m < r@.len() ==> (#[trigger] r@[m])@.len() == stack@.len() + 1,
{
    let ghost st = scopes(stack@);
    let ghost spec_r = section_stacks(key@, *ctx, st);
    let mut r: Vec<Vec<&'a Json>> = Vec::new();
    let found = lookup_key(key, ctx);
    if falsy(found) {
        return r;
    }
    match found {
        Some(v) => match v {
            Json::Array(a) => {
                let mut j: usize = 0;
                while j < a.len()
                    invariant
                        j <= a@.len(),
                        st == scopes(stack@),
                        spec_r.len() == a@.len(),
                        forall|m: int| 0 <= m < a@.len() ==> spec_r[m] == st.push(a@[m]),
                        r@.len() == j,
                        forall|m: int| 0 <= m < j ==> scopes(#[trigger] r@[m]@) == spec_r[m],
                        forall|m: int| 0 <= m < j ==> (#[trigger] r@[m])@.len() == stack@.len() + 1,
                    decreases a@.len() - j,
                {
                    let ns = with_scope(stack, &a[j]);
                    r.push(ns);
                    j = j + 1;
                }
                r
            },
            Json::Object(_) => {
                r.push(with_scope(stack, v));
                r
            },
            _ => {
                r.push(with_scope(stack, ctx));
                r
            },
        },
        None => r,
    }
}

/// The context stacks of an inverted section over `key` tried in scope
/// `ctx`: `stack` itself once when the value is falsy, none otherwise.
pub fn interpolate_inverted<'a>(key: &String, ctx: &'a Json, stack: &Vec<&'a Json>) -> (r: Vec<
    Vec<&'a Json>,
>)
    ensures
        r@.len() == inverted_stacks(key@, *ctx, scopes(stack@)).len(),
        forall|m: int|
            0 <= m < r@.len() ==> scopes(#[trigger] r@[m]@) == inverted_stacks(
                key@,
                *ctx,
                scopes(stack@),
            )[m],
        forall|m: int| 0 <= m < r@.len() ==> (#[trigger] r@[m])@ == stack@,
{
    let mut r: Vec<Vec<&'a Json>> = Vec::new();
    if falsy(lookup_key(key, ctx)) {
        r.push(copy_stack(stack));
    }
    r
}

} // verus!
