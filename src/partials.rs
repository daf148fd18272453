use vstd::prelude::*;
use crate::rule::Mustache;

verus! {

/// Named templates that a template can include.
pub struct Partials {
    entries: Vec<(String, Vec<Mustache>)>,
}

/// Among the first `n` entries, the template of the last one named `name`.
pub open spec fn partial_in(ps: Seq<(Seq<char>, Seq<Mustache>)>, name: Seq<char>, n: int) -> Option<Seq<Mustache>>
    decreases n,
{
    if n <= 0 || n > ps.len() {
        None
    } else if ps[n - 1].0 == name {
        Some(ps[n - 1].1)
    } else {
        partial_in(ps, name, n - 1)
    }
}

/// The template registered under `name`: the one inserted last.
pub open spec fn find_partial(ps: Seq<(Seq<char>, Seq<Mustache>)>, name: Seq<char>) -> Option<Seq<Mustache>> {
    partial_in(ps, name, ps.len() as int)
}

proof fn lemma_partial_in_push(
    ps: Seq<(Seq<char>, Seq<Mustache>)>,
    x: (Seq<char>, Seq<Mustache>),
    name: Seq<char>,
    n: int,
)
    requires
        0 <= n <= ps.len(),
    ensures
        partial_in(ps.push(x), name, n) == partial_in(ps, name, n),
    decreases n,
{
    if n > 0 {
        lemma_partial_in_push(ps, x, name, n - 1);
    }
}

impl View for Partials {
    type V = Seq<(Seq<char>, Seq<Mustache>)>;

    closed spec fn view(&self) -> Seq<(Seq<char>, Seq<Mustache>)> {
        self.entries@.map_values(|e: (String, Vec<Mustache>)| (e.0@, e.1@))
    }
}

impl Partials {
    /// No partials.
    pub fn new() -> (r: Partials)
        ensures
            forall|name: Seq<char>| find_partial(r@, name) is None,
    {
        let r = Partials { entries: Vec::new() };
        assert(r@.len() == 0);
        r
    }

    /// Registers `template` under `name`, replacing any earlier one.
    pub fn insert(&mut self, name: String, template: Vec<Mustache>)
        ensures
            find_partial(final(self)@, name@) == Some(template@),
            forall|other: Seq<char>|
                other != name@ ==> find_partial(final(self)@, other) == find_partial(
                    old(self)@,
                    other,
                ),
    {
        let ghost x = (name@, template@);
        self.entries.push((name, template));
        proof {
            assert(self@ =~= old(self)@.push(x));
            assert forall|other: Seq<char>| other != x.0 implies find_partial(self@, other)
                == find_partial(old(self)@, other) by {
                lemma_partial_in_push(old(self)@, x, other, old(self)@.len() as int);
            }
        }
    }

    /// The template registered under `name`; a missing name is no error.
    pub fn get(&self, name: &String) -> (r: Option<&Vec<Mustache>>)
        ensures
            match r {
                Some(t) => find_partial(self@, name@) == Some(t@),
                None => find_partial(self@, name@) is None,
            },
    {
        let mut n = self.entries.len();
        while n > 0
            invariant
                n <= self.entries@.len(),
                self@.len() == self.entries@.len(),
                find_partial(self@, name@) == partial_in(self@, name@, n as int),
            decreases n,
        {
            let e = &self.entries[n - 1];
            assert(self@[n - 1] == (e.0@, e.1@));
            if e.0 == *name {
                return Some(&e.1);
            }
            n = n - 1;
        }
        None
    }
}

} // verus!
