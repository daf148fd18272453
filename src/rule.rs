use vstd::prelude::*;

verus! {

broadcast use vstd::string::group_string_axioms;

/// True iff the character sequence holds a '.'.
pub open spec fn has_dot(k: Seq<char>) -> bool {
    exists|i: int| 0 <= i < k.len() && k[i] == '.'
}

/// Whether `s` contains the character '.'.
pub fn contains_dot(s: &str) -> (r: bool)
    ensures
        r == has_dot(s@),
{
    let mut found = false;
    for c in it: s.chars()
        invariant
            it.seq() == s@,
            found == (exists|i: int| 0 <= i < it.index() && s@[i] == '.'),
    {
        if c == '.' {
            found = true;
        }
    }
    found
}

/// One compiled template instruction.
#[derive(Clone, Debug, PartialEq)]
pub enum Mustache {
    /// `{{{key}}}`: the key's value, written as it is.
    Interpolation(String),
    /// `{{key}}`: the key's value, HTML-escaped.
    EscapedInterpolation(String),
    /// `{{#key}}`: opens a block rendered once per truthy value.
    Section(String),
    /// `{{^key}}`: opens a block rendered only for a falsy value.
    InvertedSection(String),
    /// `{{/key}}`: closes the block opened with the same key.
    Close(String),
    /// `{{>name}}`: includes a named partial template.
    Partial(String),
    /// `{{!text}}`: writes nothing.
    Comment(String),
    /// Text written verbatim.
    Literal(String),
}

impl Mustache {
    /// The key of a rule whose lookups may fall back to outer scopes, if any.
    pub open spec fn lookup_key(&self) -> Option<Seq<char>> {
        match self {
            Mustache::Interpolation(k) => Some(k@),
            Mustache::EscapedInterpolation(k) => Some(k@),
            Mustache::Section(k) => Some(k@),
            Mustache::InvertedSection(k) => Some(k@),
            _ => None,
        }
    }

    pub open spec fn spec_is_dotted(&self) -> bool {
        match self.lookup_key() {
            Some(k) => has_dot(k),
            None => false,
        }
    }

    /// A dotted rule is an interpolation or a section whose key holds a '.';
    /// its lookup never falls back past the innermost scope.
    #[verifier::when_used_as_spec(spec_is_dotted)]
    pub fn is_dotted(&self) -> (r: bool)
        ensures
            r == self.spec_is_dotted(),
    {
        match self {
            Mustache::Interpolation(k) => contains_dot(k.as_str()),
            Mustache::EscapedInterpolation(k) => contains_dot(k.as_str()),
            Mustache::Section(k) => contains_dot(k.as_str()),
            Mustache::InvertedSection(k) => contains_dot(k.as_str()),
            _ => false,
        }
    }
}

impl Default for Mustache {
    /// The empty rule: a literal with no text.
    fn default() -> (r: Self)
        ensures
            r matches Mustache::Literal(t) && t@.len() == 0,
    {
        Mustache::Literal(String::new())
    }
}

} // verus!
