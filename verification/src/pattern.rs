//! Glob patterns, through the `glob` crate: validity of a whole pattern,
//! matching of one path component against one name, and the split of a
//! pattern into its path components.
//!
//! A pattern is resolved the way `glob::glob` resolves it under a directory:
//! the pattern text is split at `/` into components, one trailing empty
//! component is dropped, and a pattern ending in `/` matches directories
//! only. Inner empty components (from `//`) are kept and match no name. Each
//! component is matched against one entry name per level. A recursive
//! wildcard component is matched at its own single level, like `*`; a leading
//! `/` does not escape the directory the pattern is resolved under.

use vstd::prelude::*;
use vstd::std_specs::iter::IteratorSpec;

verus! {

/// Whether a pattern string is valid glob syntax: the result of
/// `glob::Pattern::new` succeeding on it.
pub uninterp spec fn is_valid_pattern(p: Seq<char>) -> bool;

/// Whether a valid glob pattern matches a name; the result of
/// `glob::Pattern::matches`, a function of the two strings alone (the
/// separator set it consults is fixed per platform at compile time, so
/// within any one program two calls always agree).
pub uninterp spec fn glob_match(p: Seq<char>, name: Seq<char>) -> bool;

/// A pattern component hits a name when it is valid glob syntax and matches
/// the name. An invalid component hits nothing: it is skipped silently.
pub open spec fn pattern_hits(p: Seq<char>, name: Seq<char>) -> bool {
    is_valid_pattern(p) && glob_match(p, name)
}

/// Relies on `glob::Pattern::new`, which returns `Ok` exactly on valid glob
/// syntax, and `glob::Pattern::matches`, whose result under the default match
/// options depends on the pattern and the name alone. Returns `None` on an
/// invalid pattern, and otherwise whether the pattern matches the name.
#[verifier::external_body]
pub fn pattern_matches(p: &str, name: &str) -> (r: Option<bool>)
    ensures
        r is Some <==> is_valid_pattern(p@),
        r is Some ==> r->0 == glob_match(p@, name@),
{
    match glob::Pattern::new(p) {
        Ok(q) => Some(q.matches(name)),
        Err(_) => None,
    }
}

/// Relies on `glob::Pattern::new`: `Ok` exactly on valid glob syntax. The
/// whole pattern, separators included, is validated before it is split, as
/// `glob::glob` validates it.
#[verifier::external_body]
pub fn pattern_valid(p: &str) -> (r: bool)
    ensures
        r == is_valid_pattern(p@),
{
    glob::Pattern::new(p).is_ok()
}

/// The raw split of a pattern at `/`, with `cur` the piece read so far: one
/// piece per stretch between separators, empty pieces included, always at
/// least one piece.
pub open spec fn split_rec(s: Seq<char>, cur: Seq<char>) -> Seq<Seq<char>>
    decreases s.len(),
{
    if s.len() == 0 {
        seq![cur]
    } else if s[0] == '/' {
        seq![cur] + split_rec(s.drop_first(), Seq::empty())
    } else {
        split_rec(s.drop_first(), cur.push(s[0]))
    }
}

/// The path components of a pattern: the raw split, with one trailing empty
/// piece dropped, as `split_terminator` drops it.
pub open spec fn pattern_components(p: Seq<char>) -> Seq<Seq<char>> {
    let raw = split_rec(p, Seq::empty());
    if raw.last().len() == 0 {
        raw.drop_last()
    } else {
        raw
    }
}

/// A pattern ending in a separator matches directories only.
pub open spec fn dir_only(p: Seq<char>) -> bool {
    p.len() > 0 && p.last() == '/'
}

/// Split a pattern into its path components, and say whether it asks for
/// directories only.
pub fn split_pattern(p: &str) -> (r: (Vec<String>, bool))
    ensures
        crate::config::pats_view(r.0@) == pattern_components(p@),
        r.1 == dir_only(p@),
{
    broadcast use vstd::string::axiom_spec_iter, vstd::string::next_postcondition;

    let mut it = p.chars();
    let mut cur = String::new();
    let mut out: Vec<String> = Vec::new();
    let mut last_sep = false;
    let ghost mut done: Seq<char> = Seq::empty();
    loop
        invariant
            it.obeys_prophetic_iter_laws(),
            done + it.remaining() == p@,
            last_sep == (done.len() > 0 && done.last() == '/'),
            split_rec(p@, Seq::empty()) == crate::config::pats_view(out@) + split_rec(
                it.remaining(),
                cur@,
            ),
            it.decrease() is Some,
        ensures
            it.remaining().len() == 0,
            done == p@,
            last_sep == dir_only(p@),
            split_rec(p@, Seq::empty()) == crate::config::pats_view(out@) + seq![cur@],
        decreases it.decrease()->0,
    {
        let ghost prev = it;
        let c = it.next();
        match c {
            Some(ch) => {
                assert(prev.remaining().len() > 0);
                proof {
                    done = done.push(ch);
                    assert(done + it.remaining() =~= p@);
                }
                last_sep = ch == '/';
                if ch == '/' {
                    let ghost out0 = out@;
                    let ghost piece = cur@;
                    out.push(cur);
                    cur = String::new();
                    proof {
                        crate::config::lemma_pats_view_push(out0, out@.last());
                        assert(crate::config::pats_view(out@) =~= crate::config::pats_view(out0)
                            + seq![piece]);
                    }
                } else {
                    cur.push(ch);
                }
            },
            None => {
                assert(prev.remaining().len() == 0);
                proof {
                    assert(done + it.remaining() =~= done);
                }
                break ;
            },
        }
    }
    let rd = last_sep;
    let ghost raw = split_rec(p@, Seq::empty());
    if !cur.as_str().is_empty() {
        let ghost out0 = out@;
        out.push(cur);
        proof {
            crate::config::lemma_pats_view_push(out0, out@.last());
            assert(raw.last().len() > 0);
            assert(pattern_components(p@) =~= crate::config::pats_view(out@));
        }
    } else {
        proof {
            assert(raw.last().len() == 0);
            assert(raw.drop_last() =~= crate::config::pats_view(out@));
        }
    }
    (out, rd)
}

} // verus!
