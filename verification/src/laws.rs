//! Laws of the engine, proved from the semantics: how the outer scan relates
//! to single attempts, that alternation respects branch order, that the
//! compiler is a pure function of the pattern text, and how trivial patterns
//! behave.

use vstd::prelude::*;

use crate::ast::{branches_ok, nodes_ok, rest_optional, CompileError, SpecNode};
use crate::parse::{
    lemma_nodes_from_nonempty, lemma_nodes_from_ok, spec_anchored, spec_compile, spec_nodes_from,
};
use crate::pattern::Pattern;
use crate::semantics::{spec_attempt, spec_group, spec_match, spec_scan};

verus! {

/// One attempt of the compiled pattern `t` against the suffix of `s` that
/// starts at `off`, with a fresh capture table.
pub open spec fn spec_attempt_at(t: Seq<char>, s: Seq<char>, off: int) -> (bool, nat)
    recommends
        spec_compile(t) is Ok,
        0 <= off <= s.len(),
{
    spec_attempt(
        t.len() as int,
        spec_compile(t)->Ok_0,
        s.subrange(off, s.len() as int),
        0,
        0,
        Seq::<Seq<char>>::empty(),
    )
}

/// The offsets the outer scan attempts: `0, 1, ...` up to the subject's last
/// character, and offset `0` alone when the subject is empty.
pub open spec fn attempted_offset(s: Seq<char>, off: int) -> bool {
    0 <= off && (off == 0 || off < s.len())
}

proof fn lemma_scan_iff_from(tlen: int, ns: Seq<SpecNode>, s: Seq<char>, off: int)
    requires
        tlen >= 1,
        nodes_ok(tlen, ns),
        0 <= off <= s.len(),
        off == 0 || off < s.len(),
    ensures
        spec_scan(tlen, false, ns, s, off).0 <==> exists|o: int|
            off <= o && (o == 0 || o < s.len()) && (#[trigger] spec_attempt(
                tlen,
                ns,
                s.subrange(o, s.len() as int),
                0,
                0,
                Seq::<Seq<char>>::empty(),
            )).0,
    decreases s.len() - off,
{
    let here = spec_attempt(
        tlen,
        ns,
        s.subrange(off, s.len() as int),
        0,
        0,
        Seq::<Seq<char>>::empty(),
    );
    if here.0 {
        assert(off <= off && (off == 0 || off < s.len()) && spec_attempt(
            tlen,
            ns,
            s.subrange(off, s.len() as int),
            0,
            0,
            Seq::<Seq<char>>::empty(),
        ).0);
    } else if off + 1 < s.len() {
        lemma_scan_iff_from(tlen, ns, s, off + 1);
        assert forall|o: int|
            off <= o && (o == 0 || o < s.len()) && (#[trigger] spec_attempt(
                tlen,
                ns,
                s.subrange(o, s.len() as int),
                0,
                0,
                Seq::<Seq<char>>::empty(),
            )).0 implies spec_scan(tlen, false, ns, s, off).0 by {
            if o == off {
                assert(false);
            } else {
                assert(off + 1 <= o && (o == 0 || o < s.len()));
            }
        }
    } else {
        // No offset past `off` is attempted: `off` was the last one.
        assert forall|o: int| off <= o && (o == 0 || o < s.len()) implies !(
        #[trigger] spec_attempt(
            tlen,
            ns,
            s.subrange(o, s.len() as int),
            0,
            0,
            Seq::<Seq<char>>::empty(),
        )).0 by {
            assert(o == off);
        }
    }
}

/// A pattern with no `^` matches the subject exactly when its node sequence
/// matches at some attempted start offset.
pub proof fn lemma_unanchored_iff_some_offset(t: Seq<char>, s: Seq<char>)
    requires
        spec_compile(t) is Ok,
        spec_compile(t)->Ok_0.len() > 0,
        !spec_anchored(t),
    ensures
        spec_match(t, s) is Some,
        spec_match(t, s)->Some_0.0 <==> exists|off: int|
            #[trigger] attempted_offset(s, off) && spec_attempt_at(t, s, off).0,
{
    let ns = spec_compile(t)->Ok_0;
    let from: int = if spec_anchored(t) {
        1
    } else {
        0
    };
    lemma_nodes_from_ok(t, from);
    lemma_nodes_from_nonempty(t, from);
    lemma_scan_iff_from(t.len() as int, ns, s, 0);
    assert(spec_match(t, s)->Some_0 == spec_scan(t.len() as int, false, ns, s, 0));
    if spec_match(t, s)->Some_0.0 {
        let o = choose|o: int|
            0 <= o && (o == 0 || o < s.len()) && (#[trigger] spec_attempt(
                t.len() as int,
                ns,
                s.subrange(o, s.len() as int),
                0,
                0,
                Seq::<Seq<char>>::empty(),
            )).0;
        assert(attempted_offset(s, o) && spec_attempt_at(t, s, o).0);
    }
    assert forall|off: int|
        attempted_offset(s, off) && spec_attempt_at(t, s, off).0 implies exists|o: int|
        0 <= o && (o == 0 || o < s.len()) && (#[trigger] spec_attempt(
            t.len() as int,
            ns,
            s.subrange(o, s.len() as int),
            0,
            0,
            Seq::<Seq<char>>::empty(),
        )).0 by {
        assert(spec_attempt(
            t.len() as int,
            ns,
            s.subrange(off, s.len() as int),
            0,
            0,
            Seq::<Seq<char>>::empty(),
        ).0);
    }
}

/// An anchored pattern makes exactly one attempt: the match result is that of
/// the attempt at offset 0.
pub proof fn lemma_anchored_single_attempt(t: Seq<char>, s: Seq<char>)
    requires
        spec_compile(t) is Ok,
        spec_compile(t)->Ok_0.len() > 0,
        spec_anchored(t),
    ensures
        spec_match(t, s) is Some,
        spec_match(t, s)->Some_0.0 == spec_attempt_at(t, s, 0).0,
        spec_attempt_at(t, s, 0).0 ==> spec_match(t, s)->Some_0 == spec_attempt_at(t, s, 0),
{
    let from: int = if spec_anchored(t) {
        1
    } else {
        0
    };
    lemma_nodes_from_ok(t, from);
    lemma_nodes_from_nonempty(t, from);
}

proof fn lemma_group_order_from(
    tlen: int,
    branches: Seq<Seq<char>>,
    i: int,
    j: int,
    s: Seq<char>,
    pos: int,
)
    requires
        tlen >= 1,
        branches_ok(tlen, branches),
        0 <= pos <= s.len(),
        0 <= i <= j < branches.len(),
        forall|x: int|
            i <= x < j ==> {
                &&& #[trigger] spec_match(branches[x], s.subrange(pos, s.len() as int)) is Some
                &&& !spec_match(branches[x], s.subrange(pos, s.len() as int))->Some_0.0
            },
        spec_match(branches[j], s.subrange(pos, s.len() as int)) is Some,
        spec_match(branches[j], s.subrange(pos, s.len() as int))->Some_0.0,
    ensures
        spec_group(tlen, branches, i, s, pos) == Some(
            spec_match(branches[j], s.subrange(pos, s.len() as int))->Some_0.1,
        ),
    decreases j - i,
{
    let suffix = s.subrange(pos, s.len() as int);
    if i < j {
        lemma_group_order_from(tlen, branches, i + 1, j, s, pos);
        assert(spec_match(branches[i], suffix) is Some && !spec_match(
            branches[i],
            suffix,
        )->Some_0.0);
        assert(spec_match(branches[i], suffix) matches Some(p) && !p.0);
    } else {
        assert(spec_match(branches[j], suffix) matches Some(p) && p.0);
    }
}

/// Alternation respects declared order: when the branches before `j` compile
/// and fail, and branch `j` matches, the group matches with exactly branch
/// `j`'s consumed length.
pub proof fn lemma_group_first_success(
    tlen: int,
    branches: Seq<Seq<char>>,
    j: int,
    s: Seq<char>,
    pos: int,
)
    requires
        tlen >= 1,
        branches_ok(tlen, branches),
        0 <= pos <= s.len(),
        0 <= j < branches.len(),
        forall|x: int|
            0 <= x < j ==> {
                &&& #[trigger] spec_match(branches[x], s.subrange(pos, s.len() as int)) is Some
                &&& !spec_match(branches[x], s.subrange(pos, s.len() as int))->Some_0.0
            },
        spec_match(branches[j], s.subrange(pos, s.len() as int)) is Some,
        spec_match(branches[j], s.subrange(pos, s.len() as int))->Some_0.0,
    ensures
        spec_group(tlen, branches, 0, s, pos) == Some(
            spec_match(branches[j], s.subrange(pos, s.len() as int))->Some_0.1,
        ),
{
    lemma_group_order_from(tlen, branches, 0, j, s, pos);
}

/// Compiling is a pure function of the pattern text: two patterns compiled
/// from the same text have the same compiled form and produce identical test
/// results on every subject.
pub proof fn lemma_compile_idempotent(p1: Pattern, p2: Pattern, s: Seq<char>)
    requires
        p1.wf(),
        p2.wf(),
        p1.source() == p2.source(),
    ensures
        p1.nodes() == p2.nodes(),
        p1.is_anchored() == p2.is_anchored(),
        spec_match(p1.source(), s) == spec_match(p2.source(), s),
{
    // Well-formedness pins both patterns to `spec_compile` of the shared
    // text, and `spec_match` is a function of the text and the subject.
}

/// The empty pattern matches any subject, consuming nothing.
pub proof fn lemma_empty_pattern_matches(s: Seq<char>)
    ensures
        spec_match(Seq::<char>::empty(), s) == Some::<(bool, nat)>((true, 0)),
{
    assert(spec_nodes_from(Seq::<char>::empty(), 0) == Ok::<Seq<SpecNode>, CompileError>(
        Seq::empty(),
    ));
}

/// A pattern whose nodes are all zero-width or optional matches the empty
/// subject, consuming nothing.
pub proof fn lemma_optional_pattern_matches_empty(t: Seq<char>)
    requires
        spec_compile(t) is Ok,
        rest_optional(spec_compile(t)->Ok_0, 0),
    ensures
        spec_match(t, Seq::<char>::empty()) == Some::<(bool, nat)>((true, 0)),
{
    let ns = spec_compile(t)->Ok_0;
    let s = Seq::<char>::empty();
    if ns.len() > 0 {
        let from: int = if spec_anchored(t) {
            1
        } else {
            0
        };
        lemma_nodes_from_ok(t, from);
        lemma_nodes_from_nonempty(t, from);
        assert(s.subrange(0, s.len() as int) =~= s);
        assert(spec_attempt(t.len() as int, ns, s, 0, 0, Seq::<Seq<char>>::empty()) == (
        true,
        0nat,
        ));
    }
}

} // verus!
