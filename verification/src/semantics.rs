//! The mathematical meaning of matching.
//!
//! `spec_match(t, s)` is what testing the pattern text `t` against the
//! subject `s` yields: `None` when `t` does not compile, otherwise
//! `Some((matched, consumed))`.  The definitions mirror the engine: an outer
//! scan over start offsets, an inner walk of the node sequence with a table
//! of captures, and per-node match rules.  Group branches and backreference
//! captures are recompiled and matched as fresh patterns, so the functions
//! recurse on a strictly smaller sum of pattern length and subject length.

use vstd::prelude::*;

use crate::ast::{
    atom_ok, branches_ok, node_ok, nodes_ok, refs_ok, rest_optional, SpecAtom, SpecNode,
};
use crate::parse::{spec_anchored, spec_compile};
use crate::text::{is_digit_char, is_word_char};

verus! {

/// The result of testing pattern text `t` against subject `s`: `None` when
/// `t` does not compile; otherwise whether some start offset matched, and how
/// many characters that first successful attempt consumed.
pub open spec fn spec_match(t: Seq<char>, s: Seq<char>) -> Option<(bool, nat)>
    decreases t.len() + s.len(), 6int, 0int,
{
    match spec_compile(t) {
        Err(_) => None,
        Ok(ns) => if ns.len() == 0 {
            Some((true, 0))
        } else {
            Some(spec_scan(t.len() as int, spec_anchored(t), ns, s, 0))
        },
    }
}

/// The outer scan from start offset `off` on: the first offset whose attempt
/// succeeds wins; an anchored pattern stops after its first attempt.  Offsets
/// `0, 1, ...` up to the subject's last character are tried, and offset `0`
/// alone when the subject is empty.
pub open spec fn spec_scan(
    tlen: int,
    anchored: bool,
    ns: Seq<SpecNode>,
    s: Seq<char>,
    off: int,
) -> (bool, nat)
    decreases tlen + s.len(), 5int, s.len() - off,
    when 0 <= off <= s.len() && tlen >= 1
{
    let attempt = spec_attempt(
        tlen,
        ns,
        s.subrange(off, s.len() as int),
        0,
        0,
        Seq::<Seq<char>>::empty(),
    );
    if attempt.0 {
        (true, attempt.1)
    } else if anchored {
        (false, 0)
    } else if off + 1 < s.len() {
        spec_scan(tlen, anchored, ns, s, off + 1)
    } else {
        (false, 0)
    }
}

/// One attempt at a fixed offset: `s` is the subject's suffix there, the
/// nodes from `k` on are matched with the cursor at `pos` and the captures
/// `refs` recorded so far.  When a group node succeeds, the text it consumed
/// is recorded as the next capture.  When the subject is exhausted first, the
/// attempt still succeeds if every remaining node is zero-width or optional.
pub open spec fn spec_attempt(
    tlen: int,
    ns: Seq<SpecNode>,
    s: Seq<char>,
    k: int,
    pos: int,
    refs: Seq<Seq<char>>,
) -> (bool, nat)
    decreases tlen + s.len(), 4int, ns.len() - k,
    when 0 <= k <= ns.len() && 0 <= pos <= s.len() && tlen >= 1 && nodes_ok(tlen, ns) && refs_ok(
        refs,
        pos,
    )
{
    if k >= ns.len() {
        (true, pos as nat)
    } else if pos >= s.len() {
        if rest_optional(ns, k) {
            (true, pos as nat)
        } else {
            (false, 0)
        }
    } else {
        match spec_node_match(tlen, ns[k], s, pos, refs) {
            None => (false, 0),
            Some(adv) => {
                let refs2 = if ns[k] matches SpecNode::Atom(SpecAtom::Group(_)) {
                    refs.push(s.subrange(pos, pos + adv))
                } else {
                    refs
                };
                spec_attempt(tlen, ns, s, k + 1, pos + adv, refs2)
            },
        }
    }
}

/// One node's match rule at cursor `pos`: `None` when the node does not
/// match, otherwise how far the cursor advances.
pub open spec fn spec_node_match(
    tlen: int,
    n: SpecNode,
    s: Seq<char>,
    pos: int,
    refs: Seq<Seq<char>>,
) -> Option<nat>
    decreases tlen + s.len(), 3int, 0int,
    when 0 <= pos <= s.len() && tlen >= 1 && node_ok(tlen, n) && refs_ok(refs, pos)
{
    match n {
        SpecNode::Atom(a) => spec_atom_match(tlen, a, s, pos, refs),
        SpecNode::OneOrMore(a) => if pos >= s.len() {
            None
        } else {
            match spec_atom_match(tlen, a, s, pos, refs) {
                None => None,
                Some(adv) => if adv == 0 {
                    Some(0)
                } else {
                    let np = if pos + adv <= s.len() {
                        pos + adv
                    } else {
                        s.len() as int
                    };
                    Some(adv + spec_greedy(tlen, a, s, np, refs))
                },
            }
        },
        SpecNode::ZeroOrOne(a) => if pos >= s.len() {
            Some(0)
        } else {
            match spec_atom_match(tlen, a, s, pos, refs) {
                Some(adv) => Some(adv),
                None => Some(0),
            }
        },
    }
}

/// The greedy tail of a `+` quantifier: how much more the atom consumes when
/// repeated from `pos` for as long as it keeps succeeding and advancing,
/// stopping at the subject's end.  There is no backtracking: characters taken
/// here are never given back.
pub open spec fn spec_greedy(
    tlen: int,
    a: SpecAtom,
    s: Seq<char>,
    pos: int,
    refs: Seq<Seq<char>>,
) -> nat
    decreases tlen + s.len(), 2int, s.len() - pos,
    when 0 <= pos <= s.len() && tlen >= 1 && atom_ok(tlen, a) && refs_ok(refs, pos)
{
    if pos >= s.len() {
        0
    } else {
        match spec_atom_match(tlen, a, s, pos, refs) {
            None => 0,
            Some(adv) => if adv == 0 {
                0
            } else {
                let np = if pos + adv <= s.len() {
                    pos + adv
                } else {
                    s.len() as int
                };
                adv + spec_greedy(tlen, a, s, np, refs)
            },
        }
    }
}

/// One atom's match rule at cursor `pos`.
pub open spec fn spec_atom_match(
    tlen: int,
    a: SpecAtom,
    s: Seq<char>,
    pos: int,
    refs: Seq<Seq<char>>,
) -> Option<nat>
    decreases tlen + s.len(), 1int, 0int,
    when 0 <= pos <= s.len() && tlen >= 1 && atom_ok(tlen, a) && refs_ok(refs, pos)
{
    match a {
        SpecAtom::Literal(c) => if pos < s.len() && s[pos] == c {
            Some(1)
        } else {
            None
        },
        SpecAtom::Digit => if pos < s.len() && is_digit_char(s[pos]) {
            Some(1)
        } else {
            None
        },
        SpecAtom::Word => if pos < s.len() && is_word_char(s[pos]) {
            Some(1)
        } else {
            None
        },
        SpecAtom::CharClass(members, negated) => if pos < s.len() && (members.contains(s[pos])
            != negated) {
            Some(1)
        } else {
            None
        },
        SpecAtom::Wildcard => if pos < s.len() {
            Some(1)
        } else {
            None
        },
        SpecAtom::StartAnchor => if pos == 0 {
            Some(0)
        } else {
            None
        },
        SpecAtom::EndAnchor => if pos >= s.len() {
            Some(0)
        } else {
            None
        },
        SpecAtom::Skip => Some(0),
        SpecAtom::Group(branches) => spec_group(tlen, branches, 0, s, pos),
        SpecAtom::Backref(ix) => if 1 <= ix && ix <= refs.len() {
            match spec_match(refs[ix as int - 1], s.subrange(pos, s.len() as int)) {
                None => None,
                Some((true, adv)) => Some(adv),
                Some((false, _)) => None,
            }
        } else {
            None
        },
    }
}

/// A group node's match rule: each branch text, in declared order, is
/// recompiled and tested as a fresh pattern against the subject's suffix at
/// the cursor; the first branch that matches wins, contributing its consumed
/// length.  A branch that fails to compile fails the whole node.
pub open spec fn spec_group(
    tlen: int,
    branches: Seq<Seq<char>>,
    j: int,
    s: Seq<char>,
    pos: int,
) -> Option<nat>
    decreases tlen + s.len(), 0int, branches.len() - j,
    when 0 <= j <= branches.len() && 0 <= pos <= s.len() && tlen >= 1 && branches_ok(
        tlen,
        branches,
    )
{
    if j >= branches.len() {
        None
    } else {
        match spec_match(branches[j], s.subrange(pos, s.len() as int)) {
            None => None,
            Some((true, adv)) => Some(adv),
            Some((false, _)) => spec_group(tlen, branches, j + 1, s, pos),
        }
    }
}

} // verus!
