use vstd::prelude::*;
use crate::context::{
    Json, interpolated, escaped, section_stacks, inverted_stacks, scopes, scalar_text,
    lookup_key, write_scalar, falsy, interpolate_section, interpolate_inverted,
};
use crate::partials::{Partials, find_partial};
use crate::rule::Mustache;
use crate::scanner::{matching_close, find_close};

verus! {

/// Why a render call failed.
#[derive(Clone, Copy, Debug, PartialEq, Eq, Structural)]
pub enum RenderError {
    /// A section or inverted section has no balancing close.
    IncompleteTemplate,
    /// Partials were included inside each other more than
    /// `MAX_PARTIAL_DEPTH` levels deep.
    PartialDepthExceeded,
}

/// How deeply partials may include one another in one render call.
pub const MAX_PARTIAL_DEPTH: u64 = 64;

pub type PartialsView = Seq<(Seq<char>, Seq<Mustache>)>;

/// Whether trying `rule` in scope `ctx` of `stack` writes anything.
pub open spec fn writes(rule: Mustache, ctx: Json, stack: Seq<Json>, parts: PartialsView) -> bool {
    match rule {
        Mustache::Interpolation(k) => interpolated(k@, ctx) is Some,
        Mustache::EscapedInterpolation(k) => interpolated(k@, ctx) is Some,
        Mustache::Section(k) => section_stacks(k@, ctx, stack).len() > 0,
        Mustache::InvertedSection(k) => inverted_stacks(k@, ctx, stack).len() > 0,
        Mustache::Partial(n) => find_partial(parts, n@) is Some,
        Mustache::Literal(_) => true,
        _ => false,
    }
}

/// The scope that `rule` is rendered in, searching outward from scope `k`:
/// the first that writes, where a dotted rule tries only the first.
pub open spec fn scope_from(rule: Mustache, stack: Seq<Json>, parts: PartialsView, k: int) -> Option<int>
    decreases k + 1,
{
    if k < 0 || k >= stack.len() {
        None
    } else if writes(rule, stack[k], stack, parts) {
        Some(k)
    } else if rule.spec_is_dotted() {
        None
    } else {
        scope_from(rule, stack, parts, k - 1)
    }
}

/// The scope that `rule` is rendered in, innermost first; none if no scope
/// writes.
pub open spec fn chosen_scope(rule: Mustache, stack: Seq<Json>, parts: PartialsView) -> Option<int> {
    scope_from(rule, stack, parts, stack.len() - 1)
}

/// The first error of `a` then `b`, or their texts concatenated.
pub open spec fn then_append(
    a: Result<Seq<char>, RenderError>,
    b: Result<Seq<char>, RenderError>,
) -> Result<Seq<char>, RenderError> {
    match a {
        Err(e) => Err(e),
        Ok(x) => match b {
            Err(e) => Err(e),
            Ok(y) => Ok(x + y),
        },
    }
}

pub open spec fn is_opener(rule: Mustache) -> bool {
    rule is Section || rule is InvertedSection
}

/// The stacks that the block of an opener, tried in scope `ctx`, is
/// rendered against, one per iteration.
pub open spec fn block_stacks(rule: Mustache, ctx: Json, stack: Seq<Json>) -> Seq<Seq<Json>> {
    match rule {
        Mustache::Section(k) => section_stacks(k@, ctx, stack),
        Mustache::InvertedSection(k) => inverted_stacks(k@, ctx, stack),
        _ => Seq::empty(),
    }
}

/// What rules `t[i..]` render to against `stack`, with `depth` more levels
/// of partials allowed.
pub open spec fn render_from(
    t: Seq<Mustache>,
    i: int,
    parts: PartialsView,
    stack: Seq<Json>,
    depth: nat,
) -> Result<Seq<char>, RenderError>
    decreases depth, t.len() - i, 0int, 0int,
{
    if i < 0 || i >= t.len() {
        Ok(Seq::empty())
    } else {
        let rule = t[i];
        let scope = chosen_scope(rule, stack, parts);
        if is_opener(rule) {
            match matching_close(t, rule.lookup_key().unwrap(), i + 1) {
                None => Err(RenderError::IncompleteTemplate),
                Some(j) => if j <= i || j >= t.len() {
                    Ok(Seq::empty())
                } else {
                    then_append(
                        match scope {
                            None => Ok(Seq::empty()),
                            Some(s) => render_each(
                                t.subrange(i + 1, j),
                                parts,
                                block_stacks(rule, stack[s], stack),
                                0,
                                depth,
                            ),
                        },
                        render_from(t, j + 1, parts, stack, depth),
                    )
                },
            }
        } else {
            then_append(
                match scope {
                    None => Ok(Seq::empty()),
                    Some(s) => match rule {
                        Mustache::Interpolation(k) => Ok(interpolated(k@, stack[s]).unwrap()),
                        Mustache::EscapedInterpolation(k) => Ok(
                            escaped(interpolated(k@, stack[s]).unwrap()),
                        ),
                        Mustache::Partial(n) => if depth == 0 {
                            Err(RenderError::PartialDepthExceeded)
                        } else {
                            render_from(
                                find_partial(parts, n@).unwrap(),
                                0,
                                parts,
                                seq![stack.last()],
                                (depth - 1) as nat,
                            )
                        },
                        Mustache::Literal(x) => Ok(x@),
                        _ => Ok(Seq::empty()),
                    },
                },
                render_from(t, i + 1, parts, stack, depth),
            )
        }
    }
}

/// The block rendered against `stacks[n..]` in turn, concatenated.
pub open spec fn render_each(
    block: Seq<Mustache>,
    parts: PartialsView,
    stacks: Seq<Seq<Json>>,
    n: int,
    depth: nat,
) -> Result<Seq<char>, RenderError>
    decreases depth, block.len(), 1int, stacks.len() - n,
{
    if n < 0 || n >= stacks.len() {
        Ok(Seq::empty())
    } else {
        then_append(
            render_from(block, 0, parts, stacks[n], depth),
            render_each(block, parts, stacks, n + 1, depth),
        )
    }
}

/// What rendering `template` against `contexts` gives.
pub open spec fn rendered(
    template: Seq<Mustache>,
    parts: PartialsView,
    contexts: Seq<Json>,
) -> Result<Seq<char>, RenderError> {
    render_from(template, 0, parts, contexts, MAX_PARTIAL_DEPTH as nat)
}

/// An executable result agrees with a spec result.
pub open spec fn agrees(r: Result<String, RenderError>, s: Result<Seq<char>, RenderError>) -> bool {
    match r {
        Ok(x) => s == Ok::<Seq<char>, RenderError>(x@),
        Err(e) => s == Err::<Seq<char>, RenderError>(e),
    }
}

proof fn lemma_scope_writes(rule: Mustache, stack: Seq<Json>, parts: PartialsView, k: int)
    ensures
        scope_from(rule, stack, parts, k) matches Some(s) ==> 0 <= s <= k && s < stack.len()
            && writes(rule, stack[s], stack, parts),
    decreases k + 1,
{
    if 0 <= k < stack.len() && !writes(rule, stack[k], stack, parts) && !rule.spec_is_dotted() {
        lemma_scope_writes(rule, stack, parts, k - 1);
    }
}

proof fn lemma_then_append_assoc(a: Seq<char>, b: Seq<char>, r: Result<Seq<char>, RenderError>)
    ensures
        then_append(Ok(a), then_append(Ok(b), r)) == then_append(Ok(a + b), r),
{
    if let Ok(y) = r {
        assert(a + (b + y) =~= (a + b) + y);
    }
}

proof fn lemma_then_append_empty(r: Result<Seq<char>, RenderError>)
    ensures
        then_append(r, Ok(Seq::empty())) == r,
        then_append(Ok(Seq::empty()), r) == r,
{
    if let Ok(y) = r {
        assert(y + Seq::<char>::empty() =~= y);
        assert(Seq::<char>::empty() + y =~= y);
    }
}

/// Whether trying `rule` in scope `ctx` writes anything.
fn rule_writes(rule: &Mustache, ctx: &Json, stack: &Vec<&Json>, parts: &Partials) -> (r: bool)
    ensures
        r == writes(*rule, *ctx, scopes(stack@), parts@),
{
    match rule {
        Mustache::Interpolation(k) | Mustache::EscapedInterpolation(k) => match lookup_key(k, ctx) {
            Some(v) => match v {
                Json::Bool(_) | Json::Number(_) | Json::Str(_) => true,
                _ => false,
            },
            None => false,
        },
        Mustache::Section(k) => !falsy(lookup_key(k, ctx)),
        Mustache::InvertedSection(k) => falsy(lookup_key(k, ctx)),
        Mustache::Partial(n) => parts.get(n).is_some(),
        Mustache::Literal(_) => true,
        _ => false,
    }
}

/// The scope, innermost first, that `rule` is rendered in.
fn choose_scope(rule: &Mustache, stack: &Vec<&Json>, parts: &Partials) -> (r: Option<usize>)
    ensures
        match r {
            Some(s) => chosen_scope(*rule, scopes(stack@), parts@) == Some(s as int) && s
                < stack@.len(),
            None => chosen_scope(*rule, scopes(stack@), parts@) is None,
        },
{
    let dotted = rule.is_dotted();
    let mut k = stack.len();
    while k > 0
        invariant
            k <= stack@.len(),
            dotted == rule.spec_is_dotted(),
            chosen_scope(*rule, scopes(stack@), parts@) == scope_from(
                *rule,
                scopes(stack@),
                parts@,
                k - 1,
            ),
        decreases k,
    {
        if rule_writes(rule, stack[k - 1], stack, parts) {
            return Some(k - 1);
        }
        if dotted {
            return None;
        }
        k = k - 1;
    }
    None
}

/// Renders the block of an opener tried in scope `ctx`, once per stack of
/// `block_stacks`.
fn render_block<'a>(
    block: &[Mustache],
    parts: &Partials,
    rule: &Mustache,
    ctx: &'a Json,
    stack: &Vec<&'a Json>,
    depth: u64,
) -> (r: Result<String, RenderError>)
    requires
        stack@.len() > 0,
    ensures
        agrees(r, render_each(block@, parts@, block_stacks(*rule, *ctx, scopes(stack@)), 0, depth as nat)),
    decreases depth, block@.len(), 1int, 0int,
{
    let ghost stacks = block_stacks(*rule, *ctx, scopes(stack@));
    let each: Vec<Vec<&Json>> = match rule {
        Mustache::Section(k) => interpolate_section(k, ctx, stack),
        Mustache::InvertedSection(k) => interpolate_inverted(k, ctx, stack),
        _ => Vec::new(),
    };
    let mut out = String::new();
    let mut j: usize = 0;
    while j < each.len()
        invariant
            j <= each@.len(),
            stacks == block_stacks(*rule, *ctx, scopes(stack@)),
            each@.len() == stacks.len(),
            forall|m: int| 0 <= m < each@.len() ==> scopes(#[trigger] each@[m]@) == stacks[m],
            forall|m: int| 0 <= m < each@.len() ==> (#[trigger] each@[m])@.len() > 0,
            render_each(block@, parts@, stacks, 0, depth as nat) == then_append(
                Ok(out@),
                render_each(block@, parts@, stacks, j as int, depth as nat),
            ),
        decreases each@.len() - j,
    {
        let r = render_rules(block, parts, &each[j], depth);
        let ghost rest = render_each(block@, parts@, stacks, j + 1, depth as nat);
        assert(render_each(block@, parts@, stacks, j as int, depth as nat) == then_append(
            render_from(block@, 0, parts@, stacks[j as int], depth as nat),
            rest,
        ));
        match r {
            Err(e) => {
                return Err(e);
            },
            Ok(x) => {
                proof {
                    lemma_then_append_assoc(out@, x@, rest);
                }
                out.append(x.as_str());
            },
        }
        j = j + 1;
    }
    proof {
        lemma_then_append_empty(Ok(out@));
    }
    Ok(out)
}

/// Renders `t` against `stack`, with `depth` more levels of partials allowed.
fn render_rules(t: &[Mustache], parts: &Partials, stack: &Vec<&Json>, depth: u64) -> (r: Result<
    String,
    RenderError,
>)
    requires
        stack@.len() > 0,
    ensures
        agrees(r, render_from(t@, 0, parts@, scopes(stack@), depth as nat)),
    decreases depth, t@.len(), 0int, 0int,
{
    let ghost st = scopes(stack@);
    let mut out = String::new();
    let mut i: usize = 0;
    while i < t.len()
        invariant
            i <= t@.len(),
            stack@.len() > 0,
            st == scopes(stack@),
            render_from(t@, 0, parts@, st, depth as nat) == then_append(
                Ok(out@),
                render_from(t@, i as int, parts@, st, depth as nat),
            ),
        decreases t@.len() - i,
    {
        let rule = &t[i];
        let scope = choose_scope(rule, stack, parts);
        proof {
            lemma_scope_writes(*rule, st, parts@, st.len() - 1);
        }
        let ghost before = out@;
        match rule {
            Mustache::Section(k) | Mustache::InvertedSection(k) => {
                let j = match find_close(t, k, i + 1) {
                    Some(j) => j,
                    None => {
                        return Err(RenderError::IncompleteTemplate);
                    },
                };
                let block = &t[i + 1..j];
                assert(block@ == t@.subrange(i + 1, j as int));
                let ghost rest = render_from(t@, j + 1, parts@, st, depth as nat);
                match scope {
                    Some(s) => {
                        let head = render_block(block, parts, rule, stack[s], stack, depth);
                        match head {
                            Err(e) => {
                                return Err(e);
                            },
                            Ok(h) => {
                                proof {
                                    lemma_then_append_assoc(out@, h@, rest);
                                }
                                out.append(h.as_str());
                            },
                        }
                    },
                    None => {
                        proof {
                            lemma_then_append_empty(rest);
                        }
                    },
                }
                i = j + 1;
            },
            _ => {
                let ghost rest = render_from(t@, i + 1, parts@, st, depth as nat);
                let ghost mut h: Seq<char> = Seq::empty();
                match scope {
                    None => {},
                    Some(s) => match rule {
                        Mustache::Interpolation(k) => {
                            if let Some(v) = lookup_key(k, stack[s]) {
                                write_scalar(&mut out, v, false);
                                proof {
                                    h = scalar_text(*v).unwrap();
                                }
                            }
                        },
                        Mustache::EscapedInterpolation(k) => {
                            if let Some(v) = lookup_key(k, stack[s]) {
                                write_scalar(&mut out, v, true);
                                proof {
                                    h = escaped(scalar_text(*v).unwrap());
                                }
                            }
                        },
                        Mustache::Partial(n) => {
                            if depth == 0 {
                                return Err(RenderError::PartialDepthExceeded);
                            }
                            if let Some(p) = parts.get(n) {
                                let mut inner: Vec<&Json> = Vec::new();
                                inner.push(stack[stack.len() - 1]);
                                assert(scopes(inner@) =~= seq![st.last()]);
                                match render_rules(p.as_slice(), parts, &inner, depth - 1) {
                                    Err(e) => {
                                        return Err(e);
                                    },
                                    Ok(x) => {
                                        out.append(x.as_str());
                                        proof {
                                            h = x@;
                                        }
                                    },
                                }
                            }
                        },
                        Mustache::Literal(x) => {
                            out.append(x.as_str());
                            proof {
                                h = x@;
                            }
                        },
                        _ => {},
                    },
                }
                proof {
                    assert(out@ =~= before + h);
                    assert(render_from(t@, i as int, parts@, st, depth as nat) == then_append(
                        Ok(h),
                        rest,
                    ));
                    lemma_then_append_assoc(before, h, rest);
                }
                i = i + 1;
            },
        }
    }
    proof {
        lemma_then_append_empty(Ok(out@));
    }
    Ok(out)
}

impl Mustache {
    /// Renders `template` against `contexts`, outermost scope first, with
    /// `partials` available for inclusion.
    pub fn render(template: Vec<Mustache>, partials: Partials, contexts: Vec<Json>) -> (r: Result<
        String,
        RenderError,
    >)
        requires
            contexts@.len() > 0,
        ensures
            agrees(r, rendered(template@, partials@, contexts@)),
    {
        let mut stack: Vec<&Json> = Vec::new();
        let mut i: usize = 0;
        while i < contexts.len()
            invariant
                i <= contexts@.len(),
                stack@.len() == i,
                forall|m: int| 0 <= m < i ==> *stack@[m] == contexts@[m],
            decreases contexts@.len() - i,
        {
            let ghost old_stack = stack@;
            stack.push(&contexts[i]);
            assert(stack@ == old_stack.push(&contexts@[i as int]));
            i = i + 1;
        }
        assert(scopes(stack@) =~= contexts@);
        render_rules(template.as_slice(), &partials, &stack, MAX_PARTIAL_DEPTH)
    }
}

} // verus!
