use vstd::prelude::*;
use crate::rule::Mustache;

verus! {

/// A section or inverted section opened with `key`.
pub open spec fn opens(r: Mustache, key: Seq<char>) -> bool {
    match r {
        Mustache::Section(k) => k@ == key,
        Mustache::InvertedSection(k) => k@ == key,
        _ => false,
    }
}

/// A close of `key`.
pub open spec fn closes(r: Mustache, key: Seq<char>) -> bool {
    match r {
        Mustache::Close(k) => k@ == key,
        _ => false,
    }
}

/// From position `i`, with `depth` nested sections of `key` still open, the
/// position of the close that balances the section being scanned.
pub open spec fn close_from(t: Seq<Mustache>, key: Seq<char>, i: int, depth: nat) -> Option<int>
    decreases t.len() - i,
{
    if i < 0 || i >= t.len() {
        None
    } else if closes(t[i], key) {
        if depth == 0 {
            Some(i)
        } else {
            close_from(t, key, i + 1, (depth - 1) as nat)
        }
    } else if opens(t[i], key) {
        close_from(t, key, i + 1, depth + 1)
    } else {
        close_from(t, key, i + 1, depth)
    }
}

/// The position of the close balancing a section of `key` whose block
/// starts at `start`.
pub open spec fn matching_close(t: Seq<Mustache>, key: Seq<char>, start: int) -> Option<int> {
    close_from(t, key, start, 0)
}

pub proof fn lemma_close_in_bounds(t: Seq<Mustache>, key: Seq<char>, i: int, depth: nat)
    requires
        0 <= i,
    ensures
        close_from(t, key, i, depth) matches Some(j) ==> i <= j < t.len(),
    decreases t.len() - i,
{
    if i < t.len() {
        if closes(t[i], key) {
            if depth > 0 {
                lemma_close_in_bounds(t, key, i + 1, (depth - 1) as nat);
            }
        } else if opens(t[i], key) {
            lemma_close_in_bounds(t, key, i + 1, depth + 1);
        } else {
            lemma_close_in_bounds(t, key, i + 1, depth);
        }
    }
}

/// Scans from `start` for the close that balances a section of `key`,
/// counting nested sections of the same key.
pub fn find_close(t: &[Mustache], key: &String, start: usize) -> (r: Option<usize>)
    requires
        start <= t@.len(),
    ensures
        match r {
            Some(j) => matching_close(t@, key@, start as int) == Some(j as int) && start <= j
                < t@.len(),
            None => matching_close(t@, key@, start as int) is None,
        },
{
    let mut i = start;
    let mut depth: usize = 0;
    proof {
        lemma_close_in_bounds(t@, key@, start as int, 0);
    }
    while i < t.len()
        invariant
            start <= i <= t@.len(),
            depth <= i - start,
            matching_close(t@, key@, start as int) == close_from(t@, key@, i as int, depth as nat),
            matching_close(t@, key@, start as int) matches Some(j) ==> start <= j < t@.len(),
        decreases t@.len() - i,
    {
        match &t[i] {
            Mustache::Close(k) => {
                if *k == *key {
                    if depth == 0 {
                        return Some(i);
                    }
                    depth = depth - 1;
                }
            },
            Mustache::Section(k) => {
                if *k == *key {
                    depth = depth + 1;
                }
            },
            Mustache::InvertedSection(k) => {
                if *k == *key {
                    depth = depth + 1;
                }
            },
            _ => {},
        }
        i = i + 1;
    }
    None
}

} // verus!
