use vstd::prelude::*;
use crate::context::{Json, lookup, interpolated, escaped, inverted_stacks, section_stacks, is_falsy};
use crate::partials::find_partial;
use crate::render::{
    RenderError, PartialsView, render_from, render_each, scope_from, chosen_scope, then_append,
    is_opener,
};
use crate::rule::Mustache;
use crate::scanner::{matching_close, close_from, closes, opens, lemma_close_in_bounds};

verus! {

/// Every section that the renderer meets in `u[i..]` is balanced by a close
/// inside `u`.
pub open spec fn balanced_from(u: Seq<Mustache>, i: int) -> bool
    decreases u.len() - i,
{
    if i < 0 || i >= u.len() {
        true
    } else if is_opener(u[i]) {
        match matching_close(u, u[i].lookup_key().unwrap(), i + 1) {
            Some(j) => if i < j < u.len() {
                balanced_from(u, j + 1)
            } else {
                false
            },
            None => false,
        }
    } else {
        balanced_from(u, i + 1)
    }
}

proof fn lemma_then_append_assoc3(
    a: Result<Seq<char>, RenderError>,
    b: Result<Seq<char>, RenderError>,
    c: Result<Seq<char>, RenderError>,
)
    ensures
        then_append(a, then_append(b, c)) == then_append(then_append(a, b), c),
{
    if let (Ok(x), Ok(y), Ok(z)) = (a, b, c) {
        assert(x + (y + z) =~= (x + y) + z);
    }
}

proof fn lemma_empty_then(r: Result<Seq<char>, RenderError>)
    ensures
        then_append(Ok(Seq::empty()), r) == r,
        then_append(r, Ok(Seq::empty())) == r,
{
    if let Ok(y) = r {
        assert(Seq::<char>::empty() + y =~= y);
        assert(y + Seq::<char>::empty() =~= y);
    }
}

/// A close found inside `u` is found at the same place when more rules
/// follow.
proof fn lemma_close_prefix(u: Seq<Mustache>, v: Seq<Mustache>, key: Seq<char>, i: int, d: nat)
    requires
        0 <= i,
        close_from(u, key, i, d) is Some,
    ensures
        close_from(u + v, key, i, d) == close_from(u, key, i, d),
    decreases u.len() - i,
{
    let w = u + v;
    assert(w[i] == u[i]);
    if closes(u[i], key) {
        if d > 0 {
            lemma_close_prefix(u, v, key, i + 1, (d - 1) as nat);
        }
    } else if opens(u[i], key) {
        lemma_close_prefix(u, v, key, i + 1, d + 1);
    } else {
        lemma_close_prefix(u, v, key, i + 1, d);
    }
}

/// Scanning the rules after a prefix is scanning them alone, shifted.
proof fn lemma_close_suffix(p: Seq<Mustache>, r: Seq<Mustache>, key: Seq<char>, i: int, d: nat)
    requires
        0 <= i,
    ensures
        close_from(p + r, key, p.len() + i, d) == match close_from(r, key, i, d) {
            Some(j) => Some(p.len() + j),
            None => None::<int>,
        },
    decreases r.len() - i,
{
    if i < r.len() {
        let w = p + r;
        assert(w[p.len() + i] == r[i]);
        if closes(r[i], key) {
            if d > 0 {
                lemma_close_suffix(p, r, key, i + 1, (d - 1) as nat);
            }
        } else if opens(r[i], key) {
            lemma_close_suffix(p, r, key, i + 1, d + 1);
        } else {
            lemma_close_suffix(p, r, key, i + 1, d);
        }
    }
}

/// The rules after a prefix render as they would alone.
pub proof fn lemma_render_suffix(
    p: Seq<Mustache>,
    r: Seq<Mustache>,
    i: int,
    parts: PartialsView,
    stack: Seq<Json>,
    depth: nat,
)
    requires
        0 <= i,
    ensures
        render_from(p + r, p.len() + i, parts, stack, depth) == render_from(r, i, parts, stack, depth),
    decreases r.len() - i,
{
    let w = p + r;
    let n = p.len() as int;
    if i < r.len() {
        assert(w[n + i] == r[i]);
        let rule = r[i];
        if is_opener(rule) {
            let key = rule.lookup_key().unwrap();
            lemma_close_suffix(p, r, key, i + 1, 0);
            lemma_close_in_bounds(r, key, i + 1, 0);
            match matching_close(r, key, i + 1) {
                Some(j) => {
                    if i < j < r.len() {
                        assert(w.subrange(n + i + 1, n + j) =~= r.subrange(i + 1, j));
                        lemma_render_suffix(p, r, j + 1, parts, stack, depth);
                        assert(n + (j + 1) == n + j + 1);
                    }
                },
                None => {},
            }
        } else {
            lemma_render_suffix(p, r, i + 1, parts, stack, depth);
            assert(n + (i + 1) == n + i + 1);
        }
    }
}

/// A balanced prefix renders as its own output followed by what comes
/// after it.
pub proof fn lemma_render_prefix(
    u: Seq<Mustache>,
    v: Seq<Mustache>,
    i: int,
    parts: PartialsView,
    stack: Seq<Json>,
    depth: nat,
)
    requires
        0 <= i <= u.len(),
        balanced_from(u, i),
    ensures
        render_from(u + v, i, parts, stack, depth) == then_append(
            render_from(u, i, parts, stack, depth),
            render_from(u + v, u.len() as int, parts, stack, depth),
        ),
    decreases u.len() - i,
{
    let w = u + v;
    let tail = render_from(w, u.len() as int, parts, stack, depth);
    if i == u.len() {
        lemma_empty_then(tail);
    } else {
        assert(w[i] == u[i]);
        let rule = u[i];
        if is_opener(rule) {
            let key = rule.lookup_key().unwrap();
            let j = matching_close(u, key, i + 1).unwrap();
            lemma_close_prefix(u, v, key, i + 1, 0);
            assert(w.subrange(i + 1, j) =~= u.subrange(i + 1, j));
            lemma_render_prefix(u, v, j + 1, parts, stack, depth);
            let head = match chosen_scope(rule, stack, parts) {
                None => Ok(Seq::empty()),
                Some(s) => render_each(
                    u.subrange(i + 1, j),
                    parts,
                    crate::render::block_stacks(rule, stack[s], stack),
                    0,
                    depth,
                ),
            };
            lemma_then_append_assoc3(head, render_from(u, j + 1, parts, stack, depth), tail);
        } else {
            lemma_render_prefix(u, v, i + 1, parts, stack, depth);
            let head = render_from(u, i, parts, stack, depth);
            let rest_u = render_from(u, i + 1, parts, stack, depth);
            assert forall|h: Result<Seq<char>, RenderError>| true implies then_append(
                h,
                then_append(rest_u, tail),
            ) == then_append(then_append(h, rest_u), tail) by {
                lemma_then_append_assoc3(h, rest_u, tail);
            }
        }
    }
}

/// The texts of `t[i..]`, where every rule is a literal, concatenated.
pub open spec fn literal_texts(t: Seq<Mustache>, i: int) -> Seq<char>
    decreases t.len() - i,
{
    if i < 0 || i >= t.len() {
        Seq::empty()
    } else {
        match t[i] {
            Mustache::Literal(x) => x@ + literal_texts(t, i + 1),
            _ => literal_texts(t, i + 1),
        }
    }
}

proof fn lemma_innermost_chosen(rule: Mustache, stack: Seq<Json>, parts: PartialsView)
    requires
        stack.len() > 0,
        rule is Literal,
    ensures
        chosen_scope(rule, stack, parts) == Some(stack.len() - 1),
{
}

proof fn lemma_literals_from(t: Seq<Mustache>, i: int, parts: PartialsView, stack: Seq<Json>, depth: nat)
    requires
        0 <= i <= t.len(),
        stack.len() > 0,
        forall|m: int| 0 <= m < t.len() ==> t[m] is Literal,
    ensures
        render_from(t, i, parts, stack, depth) == Ok::<Seq<char>, RenderError>(literal_texts(t, i)),
    decreases t.len() - i,
{
    if i < t.len() {
        lemma_literals_from(t, i + 1, parts, stack, depth);
        lemma_innermost_chosen(t[i], stack, parts);
    }
}

/// A template of literals only renders to their texts, concatenated.
pub proof fn lemma_literal_only(t: Seq<Mustache>, parts: PartialsView, stack: Seq<Json>, depth: nat)
    requires
        stack.len() > 0,
        forall|m: int| 0 <= m < t.len() ==> t[m] is Literal,
    ensures
        render_from(t, 0, parts, stack, depth) == Ok::<Seq<char>, RenderError>(literal_texts(t, 0)),
{
    lemma_literals_from(t, 0, parts, stack, depth);
}

/// An escaped interpolation writes the value's text with `& < > " '`
/// replaced by their entities; a plain interpolation writes it verbatim.
pub proof fn lemma_interpolation_escaping(
    key: String,
    text: Seq<char>,
    parts: PartialsView,
    stack: Seq<Json>,
    depth: nat,
)
    requires
        stack.len() > 0,
        interpolated(key@, stack.last()) == Some(text),
    ensures
        render_from(seq![Mustache::EscapedInterpolation(key)], 0, parts, stack, depth) == Ok::<
            Seq<char>,
            RenderError,
        >(escaped(text)),
        render_from(seq![Mustache::Interpolation(key)], 0, parts, stack, depth) == Ok::<
            Seq<char>,
            RenderError,
        >(text),
{
    let t1 = seq![Mustache::EscapedInterpolation(key)];
    let t2 = seq![Mustache::Interpolation(key)];
    assert(scope_from(t1[0], stack, parts, stack.len() - 1) == Some(stack.len() - 1));
    assert(scope_from(t2[0], stack, parts, stack.len() - 1) == Some(stack.len() - 1));
    assert(render_from(t1, 1, parts, stack, depth) == Ok::<Seq<char>, RenderError>(Seq::empty()));
    assert(render_from(t2, 1, parts, stack, depth) == Ok::<Seq<char>, RenderError>(Seq::empty()));
    assert(escaped(text) + Seq::<char>::empty() =~= escaped(text));
    assert(text + Seq::<char>::empty() =~= text);
}

/// `opener`, then `block`, then a close of `key`.
pub open spec fn with_block(opener: Mustache, key: String, block: Seq<Mustache>) -> Seq<Mustache> {
    seq![opener] + block + seq![Mustache::Close(key)]
}

/// The close right after `block` balances the opener.
pub open spec fn closes_block(opener: Mustache, key: String, block: Seq<Mustache>) -> bool {
    &&& opener.lookup_key() == Some(key@)
    &&& matching_close(with_block(opener, key, block), key@, 1) == Some(block.len() + 1int)
}

/// An opener whose block is balanced, followed by `rest`: what the opener
/// renders, then what `rest` renders.
proof fn lemma_opener_then_rest(
    opener: Mustache,
    key: String,
    block: Seq<Mustache>,
    rest: Seq<Mustache>,
    parts: PartialsView,
    stack: Seq<Json>,
    depth: nat,
)
    requires
        is_opener(opener),
        closes_block(opener, key, block),
    ensures
        render_from(with_block(opener, key, block) + rest, 0, parts, stack, depth) == then_append(
            match chosen_scope(opener, stack, parts) {
                None => Ok(Seq::empty()),
                Some(s) => render_each(
                    block,
                    parts,
                    crate::render::block_stacks(opener, stack[s], stack),
                    0,
                    depth,
                ),
            },
            render_from(rest, 0, parts, stack, depth),
        ),
{
    let p = with_block(opener, key, block);
    let t = p + rest;
    lemma_close_prefix(p, rest, key@, 1, 0);
    assert(t[0] == opener);
    assert(t.subrange(1, block.len() + 1 as int) =~= block);
    lemma_render_suffix(p, rest, 0, parts, stack, depth);
    assert(p.len() + 0 == block.len() + 2);
}

/// A section whose value in a single context is missing, null, false or an
/// empty array yields no iteration, whatever the enclosing stack; its block
/// adds nothing and rendering resumes after its close.
pub proof fn lemma_section_falsy(
    key: String,
    block: Seq<Mustache>,
    rest: Seq<Mustache>,
    parts: PartialsView,
    ctx: Json,
    enclosing: Seq<Json>,
    depth: nat,
)
    requires
        is_falsy(lookup(key@, ctx)),
        closes_block(Mustache::Section(key), key, block),
    ensures
        section_stacks(key@, ctx, enclosing).len() == 0,
        render_from(with_block(Mustache::Section(key), key, block) + rest, 0, parts, seq![ctx], depth)
            == render_from(rest, 0, parts, seq![ctx], depth),
{
    let stack = seq![ctx];
    let rule = Mustache::Section(key);
    lemma_opener_then_rest(rule, key, block, rest, parts, stack, depth);
    assert(section_stacks(key@, ctx, stack).len() == 0);
    assert(scope_from(rule, stack, parts, -1) is None);
    assert(scope_from(rule, stack, parts, 0) is None);
    lemma_empty_then(render_from(rest, 0, parts, stack, depth));
}

/// A section over a non-empty array in the innermost scope renders its block
/// once per element, in array order, each time with that element pushed as
/// the innermost scope, and then what follows its close.
pub proof fn lemma_section_array(
    key: String,
    block: Seq<Mustache>,
    rest: Seq<Mustache>,
    a: Vec<Json>,
    parts: PartialsView,
    stack: Seq<Json>,
    depth: nat,
)
    requires
        stack.len() > 0,
        lookup(key@, stack.last()) == Some(Json::Array(a)),
        a@.len() > 0,
        closes_block(Mustache::Section(key), key, block),
    ensures
        section_stacks(key@, stack.last(), stack) == Seq::new(
            a@.len(),
            |j: int| stack.push(a@[j]),
        ),
        render_from(with_block(Mustache::Section(key), key, block) + rest, 0, parts, stack, depth)
            == then_append(
            render_each(block, parts, Seq::new(a@.len(), |j: int| stack.push(a@[j])), 0, depth),
            render_from(rest, 0, parts, stack, depth),
        ),
{
    let rule = Mustache::Section(key);
    lemma_opener_then_rest(rule, key, block, rest, parts, stack, depth);
    assert(scope_from(rule, stack, parts, stack.len() - 1) == Some(stack.len() - 1));
}

/// An inverted section in a single context renders its block exactly once,
/// on the unchanged stack, when its value is missing, null, false or an
/// empty array, and zero times otherwise; rendering resumes after its close.
pub proof fn lemma_inverted_section(
    key: String,
    block: Seq<Mustache>,
    rest: Seq<Mustache>,
    parts: PartialsView,
    ctx: Json,
    depth: nat,
)
    requires
        closes_block(Mustache::InvertedSection(key), key, block),
    ensures
        render_from(
            with_block(Mustache::InvertedSection(key), key, block) + rest,
            0,
            parts,
            seq![ctx],
            depth,
        ) == if is_falsy(lookup(key@, ctx)) {
            then_append(
                render_from(block, 0, parts, seq![ctx], depth),
                render_from(rest, 0, parts, seq![ctx], depth),
            )
        } else {
            render_from(rest, 0, parts, seq![ctx], depth)
        },
{
    let stack = seq![ctx];
    let rule = Mustache::InvertedSection(key);
    lemma_opener_then_rest(rule, key, block, rest, parts, stack, depth);
    if is_falsy(lookup(key@, ctx)) {
        assert(scope_from(rule, stack, parts, 0) == Some(0int));
        let stacks = inverted_stacks(key@, ctx, stack);
        assert(render_each(block, parts, stacks, 1, depth) == Ok::<Seq<char>, RenderError>(
            Seq::empty(),
        ));
        lemma_empty_then(render_from(block, 0, parts, stack, depth));
    } else {
        assert(scope_from(rule, stack, parts, -1) is None);
        assert(scope_from(rule, stack, parts, 0) is None);
        lemma_empty_then(render_from(rest, 0, parts, stack, depth));
    }
}

/// An inverted section renders once, with the stack unchanged, when its
/// key is missing, null or false, and zero times for any other value but
/// the empty array.
pub proof fn lemma_inverted_once(key: Seq<char>, ctx: Json, stack: Seq<Json>)
    requires
        !(lookup(key, ctx) matches Some(Json::Array(a)) && a@.len() == 0),
    ensures
        inverted_stacks(key, ctx, stack) == (if lookup(key, ctx) is None || lookup(key, ctx)
            == Some(Json::Null) || lookup(key, ctx) == Some(Json::Bool(false)) {
            seq![stack]
        } else {
            Seq::empty()
        }),
{
}

/// A partial renders as the named template against the innermost scope
/// alone, with one level less of partial depth, followed by what comes
/// after it; a name with no template renders nothing and is no error.
pub proof fn lemma_partial(
    name: String,
    rest: Seq<Mustache>,
    parts: PartialsView,
    stack: Seq<Json>,
    depth: nat,
)
    requires
        stack.len() > 0,
        depth > 0,
    ensures
        render_from(seq![Mustache::Partial(name)] + rest, 0, parts, stack, depth) == then_append(
            match find_partial(parts, name@) {
                Some(p) => render_from(p, 0, parts, seq![stack.last()], (depth - 1) as nat),
                None => Ok(Seq::empty()),
            },
            render_from(rest, 0, parts, stack, depth),
        ),
{
    let p = seq![Mustache::Partial(name)];
    let t = p + rest;
    assert(t[0] == Mustache::Partial(name));
    lemma_render_suffix(p, rest, 0, parts, stack, depth);
    assert(p.len() + 0 == 1);
    match find_partial(parts, name@) {
        Some(_) => {
            assert(scope_from(t[0], stack, parts, stack.len() - 1) == Some(stack.len() - 1));
        },
        None => {
            lemma_no_scope(t[0], stack, parts, stack.len() - 1);
        },
    }
}

proof fn lemma_no_scope(rule: Mustache, stack: Seq<Json>, parts: PartialsView, k: int)
    requires
        rule is Partial,
        find_partial(parts, rule->Partial_0@) is None,
    ensures
        scope_from(rule, stack, parts, k) is None,
    decreases k + 1,
{
    if k >= 0 {
        lemma_no_scope(rule, stack, parts, k - 1);
    }
}

/// A section or inverted section with no balancing close, after a balanced
/// prefix, fails the whole render: with `IncompleteTemplate`, unless the
/// prefix itself failed first.
pub proof fn lemma_unbalanced(
    u: Seq<Mustache>,
    opener: Mustache,
    w: Seq<Mustache>,
    parts: PartialsView,
    stack: Seq<Json>,
    depth: nat,
)
    requires
        balanced_from(u, 0),
        is_opener(opener),
        close_from(w, opener.lookup_key().unwrap(), 0, 0) is None,
    ensures
        render_from(u + (seq![opener] + w), 0, parts, stack, depth) == then_append(
            render_from(u, 0, parts, stack, depth),
            Err(RenderError::IncompleteTemplate),
        ),
{
    let o = seq![opener] + w;
    let key = opener.lookup_key().unwrap();
    lemma_render_prefix(u, o, 0, parts, stack, depth);
    lemma_render_suffix(u, o, 0, parts, stack, depth);
    assert(u.len() + 0 == u.len());
    lemma_close_suffix(seq![opener], w, key, 0, 0);
    assert(o[0] == opener);
}

} // verus!
