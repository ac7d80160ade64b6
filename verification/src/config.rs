//! Configuration files: one glob pattern per line, with empty lines and
//! comment lines (first character `#`) discarded. Lines are split at `\n`,
//! and a carriage return standing right before the `\n` belongs to the line
//! ending, not to the pattern.

use vstd::prelude::*;
use vstd::std_specs::iter::IteratorSpec;

verus! {

/// Relies on `String::push`: appends one character.
pub assume_specification[ String::push ](s: &mut String, c: char)
    ensures
        final (s)@ == old(s)@.push(c),
;

/// Relies on `String::pop`: removes and returns the last character, or
/// returns `None` on an empty string.
pub assume_specification[ String::pop ](s: &mut String) -> (r: Option<char>)
    ensures
        old(s)@.len() == 0 ==> final (s)@ == old(s)@ && r is None,
        old(s)@.len() > 0 ==> r == Some(old(s)@.last()) && final (s)@ == old(s)@.drop_last(),
;

/// A line names a pattern when it is non-empty and no comment.
pub open spec fn line_kept(l: Seq<char>) -> bool {
    l.len() > 0 && l[0] != '#'
}

/// A carriage return standing at the end of a line is part of the `\r\n`
/// line ending and is dropped.
pub open spec fn strip_cr(l: Seq<char>) -> Seq<char> {
    if l.len() > 0 && l.last() == '\r' {
        l.drop_last()
    } else {
        l
    }
}

/// The patterns of the text `s`, with `cur` the part of the current line
/// already read: the text is consumed character by character, a `\n` closes
/// the current line, and the last line needs no closing `\n`.
pub open spec fn parse_rec(s: Seq<char>, cur: Seq<char>) -> Seq<Seq<char>>
    decreases s.len(),
{
    if s.len() == 0 {
        if line_kept(cur) {
            seq![cur]
        } else {
            Seq::empty()
        }
    } else if s[0] == '\n' {
        let l = strip_cr(cur);
        (if line_kept(l) {
            seq![l]
        } else {
            Seq::empty()
        }) + parse_rec(s.drop_first(), Seq::empty())
    } else {
        parse_rec(s.drop_first(), cur.push(s[0]))
    }
}

/// The pattern list a configuration file with text `s` declares.
pub open spec fn config_patterns(s: Seq<char>) -> Seq<Seq<char>> {
    parse_rec(s, Seq::empty())
}

/// The texts of a pattern list.
pub open spec fn pats_view(ps: Seq<String>) -> Seq<Seq<char>>
    decreases ps,
{
    if ps.len() == 0 {
        Seq::empty()
    } else {
        seq![ps[0]@] + pats_view(ps.drop_first())
    }
}

/// `pats_view` mirrors a pattern list elementwise.
pub broadcast proof fn lemma_pats_view(ps: Seq<String>)
    ensures
        (#[trigger] pats_view(ps)).len() == ps.len(),
        forall|i: int| 0 <= i < ps.len() ==> pats_view(ps)[i] == ps[i]@,
    decreases ps,
{
    if ps.len() > 0 {
        lemma_pats_view(ps.drop_first());
    }
}

pub proof fn lemma_pats_view_push(ps: Seq<String>, p: String)
    ensures
        pats_view(ps.push(p)) == pats_view(ps) + seq![p@],
{
    broadcast use lemma_pats_view;

    assert(pats_view(ps.push(p)) =~= pats_view(ps) + seq![p@]);
}

/// Parse the text of a configuration file into its pattern list: one pattern
/// per line, empty lines and lines opening with `#` discarded, every kept
/// line taken verbatim.
pub fn parse_config(s: &str) -> (r: Vec<String>)
    ensures
        pats_view(r@) == config_patterns(s@),
{
    broadcast use vstd::string::axiom_spec_iter, vstd::string::next_postcondition;

    let mut it = s.chars();
    let mut cur = String::new();
    let mut out: Vec<String> = Vec::new();
    // Whether the line read so far opens with the comment marker, and whether
    // it ends with a carriage return.
    let mut starts_hash = false;
    let mut ends_cr = false;
    loop
        invariant
            it.obeys_prophetic_iter_laws(),
            starts_hash == (cur@.len() > 0 && cur@[0] == '#'),
            ends_cr == (cur@.len() > 0 && cur@.last() == '\r'),
            pats_view(out@) + parse_rec(it.remaining(), cur@) == config_patterns(s@),
            it.decrease() is Some,
        ensures
            it.remaining().len() == 0,
            starts_hash == (cur@.len() > 0 && cur@[0] == '#'),
            pats_view(out@) + parse_rec(it.remaining(), cur@) == config_patterns(s@),
        decreases it.decrease()->0,
    {
        let ghost prev = it;
        let c = it.next();
        match c {
            Some(ch) => {
                assert(prev.remaining().len() > 0);
                if ch == '\n' {
                    let ghost cur0 = cur@;
                    if ends_cr {
                        cur.pop();
                    }
                    assert(cur@ == strip_cr(cur0));
                    let keep = !cur.as_str().is_empty() && !starts_hash;
                    assert(keep == line_kept(cur@)) by {
                        if cur@.len() > 0 && cur0.len() > cur@.len() {
                            assert(cur@[0] == cur0[0]);
                        }
                    }
                    if keep {
                        let ghost out0 = out@;
                        let ghost line = cur@;
                        out.push(cur);
                        proof {
                            lemma_pats_view_push(out0, out@.last());
                        }
                    }
                    cur = String::new();
                    starts_hash = false;
                    ends_cr = false;
                    proof {
                        assert(pats_view(out@) + parse_rec(it.remaining(), cur@)
                            == config_patterns(s@)) by {
                            assert(prev.remaining()[0] == '\n');
                            assert(it.remaining() == prev.remaining().drop_first());
                        }
                    }
                } else {
                    let was_empty = cur.as_str().is_empty();
                    cur.push(ch);
                    if was_empty {
                        starts_hash = ch == '#';
                    }
                    ends_cr = ch == '\r';
                    proof {
                        assert(it.remaining() == prev.remaining().drop_first());
                        if cur@.len() > 1 {
                            assert(cur@[0] == cur@.drop_last()[0]);
                        }
                    }
                }
            },
            None => {
                assert(prev.remaining().len() == 0);
                break ;
            },
        }
    }
    let keep = !cur.as_str().is_empty() && !starts_hash;
    if keep {
        let ghost out0 = out@;
        out.push(cur);
        proof {
            lemma_pats_view_push(out0, out@.last());
        }
    }
    out
}

} // verus!
