use vstd::prelude::*;
use crate::context::{Json, interpolated, escaped, lookup_key, write_scalar};
use crate::processor::{Engine, ExecutionError, NextRule, TemplateEngine};
use crate::rule::Mustache;

verus! {

/// An engine for flat templates: literals, interpolations against a single
/// context, and comments. Sections, closes and partials are rejected.
pub struct FlatEngine {
    pub context: Json,
    pub buffer: String,
}

/// What an interpolation of `k` writes into a flat engine's buffer.
pub open spec fn flat_text(k: Seq<char>, ctx: Json, escape: bool) -> Seq<char> {
    match interpolated(k, ctx) {
        Some(x) => if escape {
            escaped(x)
        } else {
            x
        },
        None => Seq::empty(),
    }
}

impl TemplateEngine<Json, String> for FlatEngine {
    open spec fn steps(&self, rule: Mustache, next: Self, r: Result<NextRule, ExecutionError>) -> bool {
        &&& next.context == self.context
        &&& match rule {
            Mustache::Literal(x) => r == Ok::<NextRule, ExecutionError>(None) && next.buffer@
                == self.buffer@ + x@,
            Mustache::Interpolation(k) => r == Ok::<NextRule, ExecutionError>(None)
                && next.buffer@ == self.buffer@ + flat_text(k@, self.context, false),
            Mustache::EscapedInterpolation(k) => r == Ok::<NextRule, ExecutionError>(None)
                && next.buffer@ == self.buffer@ + flat_text(k@, self.context, true),
            Mustache::Comment(_) => r == Ok::<NextRule, ExecutionError>(None) && next.buffer@
                == self.buffer@,
            _ => r is Err && next.buffer@ == self.buffer@,
        }
    }

    open spec fn gives(&self, out: String) -> bool {
        out@ == self.buffer@
    }

    open spec fn configured(input: Json, e: Self) -> bool {
        e.context == input && e.buffer@.len() == 0
    }

    fn configure(input: Json) -> (r: Self) {
        FlatEngine { context: input, buffer: String::new() }
    }

    fn execute(&mut self, rule: &Mustache) -> (r: Result<NextRule, ExecutionError>) {
        match rule {
            Mustache::Literal(x) => {
                self.buffer.append(x.as_str());
                Ok(None)
            },
            Mustache::Interpolation(k) | Mustache::EscapedInterpolation(k) => {
                let escape = matches!(rule, Mustache::EscapedInterpolation(_));
                let ghost before = self.buffer@;
                if let Some(v) = lookup_key(k, &self.context) {
                    write_scalar(&mut self.buffer, v, escape);
                } else {
                    assert(self.buffer@ =~= before + Seq::<char>::empty());
                }
                Ok(None)
            },
            Mustache::Comment(_) => Ok(None),
            _ => Err(ExecutionError::InvalidStatement(String::from_str("block rule in a flat template"))),
        }
    }

    fn output(&self) -> (r: String) {
        self.buffer.clone()
    }
}

impl Engine<Json, String> for FlatEngine {}

} // verus!
