use vstd::prelude::*;
use crate::rule::Mustache;

verus! {

/// Why an engine could not execute a rule.
#[derive(Clone, Debug, PartialEq)]
pub enum ExecutionError {
    InvalidStatement(String),
}

/// A hint for the rule to execute next.
pub type NextRule = Option<Mustache>;

/// An engine that executes compiled rules one at a time. Each implementation
/// states, as spec functions, what one step may do and what output it gives.
pub trait TemplateEngine<Input, Output>: Sized {
    /// Executing `rule` may take this engine to `next` and return `r`.
    spec fn steps(&self, rule: Mustache, next: Self, r: Result<NextRule, ExecutionError>) -> bool;

    /// `out` is an output of the engine in this state.
    spec fn gives(&self, out: Output) -> bool;

    /// `e` is an engine as configured from `input`.
    spec fn configured(input: Input, e: Self) -> bool;

    fn configure(input: Input) -> (r: Self)
        ensures
            Self::configured(input, r),
    ;

    fn execute(&mut self, rule: &Mustache) -> (r: Result<NextRule, ExecutionError>)
        ensures
            old(self).steps(*rule, *final(self), r),
    ;

    fn output(&self) -> (r: Output)
        ensures
            self.gives(r),
    ;
}

/// `states` and `results` record a run of `e` over a prefix of `t` in which
/// every step but possibly the last succeeded.
pub open spec fn is_run<Input, Output, E: TemplateEngine<Input, Output>>(
    e: E,
    t: Seq<Mustache>,
    states: Seq<E>,
    results: Seq<Result<NextRule, ExecutionError>>,
) -> bool {
    &&& states.len() == results.len() + 1
    &&& results.len() <= t.len()
    &&& states[0] == e
    &&& forall|i: int|
        0 <= i < results.len() ==> #[trigger] states[i].steps(t[i], states[i + 1], results[i])
    &&& forall|i: int| 0 <= i < results.len() - 1 ==> #[trigger] results[i] is Ok
}

/// A cursor over a template.
struct Processor {
    template: Vec<Mustache>,
    current: usize,
}

impl Processor {
    fn new(tmpl: Vec<Mustache>) -> (r: Self)
        ensures
            r.template@ == tmpl@,
            r.current == 0,
    {
        Processor { template: tmpl, current: 0 }
    }

    /// Moves past the current rule; the hint is not consulted.
    fn update_to_next(&mut self, _next: NextRule)
        requires
            old(self).current < usize::MAX,
        ensures
            final(self).template@ == old(self).template@,
            final(self).current == old(self).current + 1,
    {
        self.current = self.current + 1;
    }

    /// The current rule, if the template is not exhausted.
    fn next(&self) -> (r: Option<&Mustache>)
        ensures
            self.template@.len() <= usize::MAX,
            match r {
                Some(rule) => self.current < self.template@.len() && *rule
                    == self.template@[self.current as int],
                None => self.current >= self.template@.len(),
            },
    {
        if self.current < self.template.len() {
            Some(&self.template[self.current])
        } else {
            None
        }
    }
}

/// Drives a `TemplateEngine` over a whole template in a single pass.
pub trait Engine<Input, Output>: TemplateEngine<Input, Output> {
    /// Executes each rule of `tmpl` in order, stopping at the first error;
    /// otherwise returns the engine's output after the last rule.
    fn process(&mut self, tmpl: Vec<Mustache>) -> (r: Result<Output, ExecutionError>)
        ensures
            exists|states: Seq<Self>, results: Seq<Result<NextRule, ExecutionError>>|
                {
                    &&& is_run::<Input, Output, Self>(*old(self), tmpl@, states, results)
                    &&& *final(self) == states.last()
                    &&& match r {
                        Ok(out) => results.len() == tmpl@.len() && (results.len() == 0
                            || results.last() is Ok) && final(self).gives(out),
                        Err(e) => results.len() > 0 && results.last() == Err::<
                            NextRule,
                            ExecutionError,
                        >(e),
                    }
                },
    {
        let ghost mut states: Seq<Self> = seq![*self];
        let ghost mut results: Seq<Result<NextRule, ExecutionError>> = Seq::empty();
        let mut p = Processor::new(tmpl);
        loop
            invariant
                p.template@ == tmpl@,
                p.current <= tmpl@.len(),
                results.len() == p.current,
                is_run::<Input, Output, Self>(*old(self), tmpl@, states, results),
                results.len() == 0 || results.last() is Ok,
                states.last() == *self,
            ensures
                p.current == tmpl@.len(),
                is_run::<Input, Output, Self>(*old(self), tmpl@, states, results),
                results.len() == p.current,
                results.len() == 0 || results.last() is Ok,
                states.last() == *self,
            decreases tmpl@.len() - p.current,
        {
            match p.next() {
                None => {
                    break ;
                },
                Some(rule) => {
                    let ghost before = *self;
                    let r = self.execute(rule);
                    proof {
                        let n = results.len() as int;
                        states = states.push(*self);
                        results = results.push(r);
                        assert(states[n] == before);
                        assert(states[n].steps(tmpl@[n], states[n + 1], results[n]));
                        assert forall|i: int| 0 <= i < results.len() implies #[trigger] states[i].steps(
                            tmpl@[i],
                            states[i + 1],
                            results[i],
                        ) by {
                            if i < n {
                                assert(states[i] == states.drop_last()[i]);
                            }
                        }
                        assert forall|i: int| 0 <= i < results.len() - 1 implies #[trigger] results[i] is Ok by {
                            if i < n - 1 {
                                assert(results[i] == results.drop_last()[i]);
                            }
                        }
                    }
                    match r {
                        Err(err) => {
                            assert(is_run::<Input, Output, Self>(*old(self), tmpl@, states, results));
                            assert(results.last() == Err::<NextRule, ExecutionError>(err));
                            return Err(err);
                        },
                        Ok(next) => p.update_to_next(next),
                    }
                },
            }
        }
        let out = self.output();
        assert(is_run::<Input, Output, Self>(*old(self), tmpl@, states, results));
        Ok(out)
    }
}

} // verus!
