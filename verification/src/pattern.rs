//! The compiled pattern and the matching engine.
//!
//! `Pattern::new` compiles a pattern string once; `Pattern::test` scans a
//! subject string for a match.  Every function here is proved to return
//! exactly what the mathematical semantics (`spec_compile`, `spec_match`)
//! prescribe.

use vstd::prelude::*;

use crate::ast::{
    atom_ok, node_ok, nodes_ok, refs_ok, rest_optional, Atom, CompileError, Matcher, SpecAtom,
    SpecNode,
};
use crate::parse::{
    lemma_nodes_from_nonempty, lemma_nodes_from_ok, spec_anchored, spec_compile, spec_node_at,
    spec_nodes_from,
};
use crate::semantics::{
    spec_atom_match, spec_attempt, spec_greedy, spec_group, spec_match, spec_node_match, spec_scan,
};
use crate::text::{
    char_is_alphabetic, char_is_digit, contains_char, copy_range, lemma_char_vec_deep_view,
    to_char_vec,
};

verus! {

/// A compiled pattern: the ordered node sequence and the anchored-at-start
/// flag.  Immutable after construction; one `Pattern` may serve any number of
/// `test` calls.
pub struct Pattern {
    matchers: Vec<Matcher>,
    anchored: bool,
    source: Ghost<Seq<char>>,
}

impl Pattern {
    /// The pattern text this value was compiled from.
    pub closed spec fn source(&self) -> Seq<char> {
        self.source@
    }

    /// The views of the compiled matcher nodes, in order.
    pub closed spec fn nodes(&self) -> Seq<SpecNode> {
        self.matchers.deep_view()
    }

    /// Whether the pattern demands a match starting at offset 0.
    pub closed spec fn is_anchored(&self) -> bool {
        self.anchored
    }

    /// A well-formed pattern is exactly the compiled form of its source text.
    pub open spec fn wf(&self) -> bool {
        &&& spec_compile(self.source()) == Ok::<Seq<SpecNode>, CompileError>(self.nodes())
        &&& self.is_anchored() == spec_anchored(self.source())
    }

    /// Compiles `input` into a pattern: `Ok` exactly when the text is
    /// structurally valid, `Err` with the error `spec_compile` assigns
    /// otherwise.
    pub fn new(input: &str) -> (r: Result<Pattern, CompileError>)
        ensures
            match r {
                Ok(p) => p.wf() && p.source() == input@,
                Err(e) => spec_compile(input@) == Err::<Seq<SpecNode>, CompileError>(e),
            },
    {
        let chars = to_char_vec(input);
        Pattern::compile_chars(&chars)
    }

    /// Compiles an already decomposed pattern text.
    #[verifier::loop_isolation(false)]
    fn compile_chars(chars: &Vec<char>) -> (r: Result<Pattern, CompileError>)
        ensures
            match r {
                Ok(p) => p.wf() && p.source() == chars@,
                Err(e) => spec_compile(chars@) == Err::<Seq<SpecNode>, CompileError>(e),
            },
    {
        let ghost t = chars@;
        let anchored: bool = chars.len() > 0 && chars[0] == '^';
        let mut matchers: Vec<Matcher> = Vec::new();
        let mut i: usize = if anchored {
            1
        } else {
            0
        };
        let ghost i0 = i as int;
        while i < chars.len()
            invariant
                i0 <= i,
                match spec_nodes_from(t, i as int) {
                    Ok(rest) => spec_nodes_from(t, i0) == Ok::<Seq<SpecNode>, CompileError>(
                        matchers.deep_view() + rest,
                    ),
                    Err(e) => spec_nodes_from(t, i0) == Err::<Seq<SpecNode>, CompileError>(e),
                },
            decreases chars.len() - i,
        {
            match Matcher::new(chars, i) {
                Err(e) => {
                    return Err(e);
                },
                Ok((m, extra)) => {
                    let ghost before = matchers.deep_view();
                    let ghost rest_after = match spec_nodes_from(t, i + extra + 1) {
                        Ok(rest) => rest,
                        Err(_) => Seq::empty(),
                    };
                    let is_skip = matches!(m, Matcher::Atom(Atom::Skip));
                    proof {
                        assert(is_skip <==> m@ == SpecNode::Atom(SpecAtom::Skip));
                    }
                    if !is_skip {
                        let ghost mv = m@;
                        matchers.push(m);
                        proof {
                            assert(matchers.deep_view() =~= before.push(mv));
                            if spec_nodes_from(t, i + extra + 1) is Ok {
                                assert(before + (seq![mv] + rest_after) =~= before.push(mv)
                                    + rest_after);
                            }
                        }
                    }
                    i = i + extra + 1;
                },
            }
        }
        proof {
            assert(spec_nodes_from(t, i as int) == Ok::<Seq<SpecNode>, CompileError>(
                Seq::empty(),
            ));
            assert(matchers.deep_view() + Seq::<SpecNode>::empty() =~= matchers.deep_view());
        }
        Ok(Pattern { matchers, anchored, source: Ghost(t) })
    }

    /// Tests the subject: whether some start offset matches, and how many
    /// characters the first successful attempt consumed.  The result is
    /// exactly `spec_match` of the pattern's source text and the subject.
    pub fn test(&self, input: &str) -> (r: (bool, usize))
        requires
            self.wf(),
        ensures
            spec_match(self.source(), input@) == Some::<(bool, nat)>((r.0, r.1 as nat)),
            r.1 <= input@.len(),
    {
        let chars = to_char_vec(input);
        self.test_chars(&chars)
    }

    /// The outer scan over start offsets, on a decomposed subject.
    #[verifier::loop_isolation(false)]
    fn test_chars(&self, input: &Vec<char>) -> (r: (bool, usize))
        requires
            self.wf(),
        ensures
            spec_match(self.source(), input@) == Some::<(bool, nat)>((r.0, r.1 as nat)),
            r.1 <= input.len(),
        decreases self.source@.len() + input.len(), 3int,
    {
        let ghost tlen = self.source@.len() as int;
        if self.matchers.len() == 0 {
            proof {
                assert(self.nodes().len() == 0);
            }
            return (true, 0);
        }
        proof {
            lemma_nodes_from_nonempty(
                self.source@,
                if spec_anchored(self.source@) {
                    1int
                } else {
                    0int
                },
            );
            lemma_nodes_from_ok(
                self.source@,
                if spec_anchored(self.source@) {
                    1int
                } else {
                    0int
                },
            );
        }
        let mut off: usize = 0;
        loop
            invariant
                off <= input.len(),
                off == 0 || off < input.len(),
                spec_scan(tlen, self.anchored, self.nodes(), input@, 0) == spec_scan(
                    tlen,
                    self.anchored,
                    self.nodes(),
                    input@,
                    off as int,
                ),
            decreases input.len() - off,
        {
            let suffix = copy_range(input, off, input.len());
            let (res, n) = self.do_test(&suffix);
            proof {
                assert(suffix@ == input@.subrange(off as int, input@.len() as int));
                assert(spec_match(self.source@, input@) == Some::<(bool, nat)>(
                    spec_scan(tlen, self.anchored, self.nodes(), input@, 0),
                ));
            }
            if res {
                proof {
                    assert(spec_scan(tlen, self.anchored, self.nodes(), input@, off as int) == (
                    true,
                    n as nat,
                ));
                }
                return (true, n);
            }
            if self.anchored {
                proof {
                    assert(spec_scan(tlen, self.anchored, self.nodes(), input@, off as int) == (
                    false,
                    0nat,
                ));
                }
                return (false, 0);
            }
            if off + 1 < input.len() {
                off = off + 1;
            } else {
                proof {
                    assert(spec_scan(tlen, self.anchored, self.nodes(), input@, off as int) == (
                    false,
                    0nat,
                ));
                }
                return (false, 0);
            }
        }
    }

    /// One attempt: walks the node sequence against the subject suffix
    /// `input`, recording each group node's consumed text as the next
    /// capture.
    #[verifier::loop_isolation(false)]
    fn do_test(&self, input: &Vec<char>) -> (r: (bool, usize))
        requires
            self.wf(),
            self.matchers.len() > 0,
        ensures
            (r.0, r.1 as nat) == spec_attempt(
                self.source@.len() as int,
                self.nodes(),
                input@,
                0,
                0,
                Seq::<Seq<char>>::empty(),
            ),
            r.1 <= input.len(),
        decreases self.source@.len() + input.len(), 2int,
    {
        let ghost tlen = self.source@.len() as int;
        proof {
            lemma_nodes_from_ok(
                self.source@,
                if spec_anchored(self.source@) {
                    1int
                } else {
                    0int
                },
            );
            lemma_nodes_from_nonempty(
                self.source@,
                if spec_anchored(self.source@) {
                    1int
                } else {
                    0int
                },
            );
        }
        let mut k: usize = 0;
        let mut pos: usize = 0;
        let mut refs: Vec<Vec<char>> = Vec::new();
        proof {
            assert(refs.deep_view() =~= Seq::<Seq<char>>::empty());
        }
        while pos < input.len() && k < self.matchers.len()
            invariant
                k <= self.matchers.len(),
                pos <= input.len(),
                refs_ok(refs.deep_view(), pos as int),
                spec_attempt(tlen, self.nodes(), input@, 0, 0, Seq::<Seq<char>>::empty())
                    == spec_attempt(
                    tlen,
                    self.nodes(),
                    input@,
                    k as int,
                    pos as int,
                    refs.deep_view(),
                ),
            decreases self.matchers.len() - k,
        {
            let m = &self.matchers[k];
            proof {
                assert(self.nodes()[k as int] == m@);
            }
            let (res, adv) = m.test(input, pos, &refs, Ghost(tlen));
            if !res {
                return (false, 0);
            }
            let ghost refs_before = refs.deep_view();
            let is_group = matches!(m, Matcher::Atom(Atom::Group(_)));
            proof {
                assert(is_group <==> m@ matches SpecNode::Atom(SpecAtom::Group(_)));
            }
            if is_group {
                let cap = copy_range(input, pos, pos + adv);
                proof {
                    lemma_char_vec_deep_view(cap);
                }
                let ghost cap_seq = cap@;
                refs.push(cap);
                proof {
                    assert(refs.deep_view() =~= refs_before.push(cap_seq));
                }
            }
            pos = pos + adv;
            k = k + 1;
        }
        if k < self.matchers.len() {
            // The subject is exhausted with nodes left: the attempt still
            // succeeds if everything remaining is zero-width or optional.
            let mut j: usize = k;
            while j < self.matchers.len()
                invariant
                    k <= j <= self.matchers.len(),
                    forall|x: int|
                        k <= x < j ==> {
                            ||| #[trigger] self.nodes()[x] is ZeroOrOne
                            ||| self.nodes()[x] == SpecNode::Atom(SpecAtom::EndAnchor)
                            ||| self.nodes()[x] == SpecNode::Atom(SpecAtom::Skip)
                        },
                decreases self.matchers.len() - j,
            {
                let mj = &self.matchers[j];
                proof {
                    assert(self.nodes()[j as int] == mj@);
                }
                let optional = matches!(
                    mj,
                    Matcher::ZeroOrOne(_) | Matcher::Atom(Atom::EndAnchor) | Matcher::Atom(
                        Atom::Skip,
                    )
                );
                if !optional {
                    proof {
                        assert(!rest_optional(self.nodes(), k as int));
                    }
                    return (false, 0);
                }
                j = j + 1;
            }
            proof {
                assert(rest_optional(self.nodes(), k as int));
            }
            return (true, pos);
        }
        (true, pos)
    }
}

impl Matcher {
    /// One node's match rule: reports no match, or how far the cursor
    /// advances.  `tlen` is the length of the pattern text the node was
    /// compiled from.
    #[verifier::loop_isolation(false)]
    fn test(
        &self,
        input: &Vec<char>,
        pos: usize,
        refs: &Vec<Vec<char>>,
        Ghost(tlen): Ghost<int>,
    ) -> (r: (bool, usize))
        requires
            pos < input.len(),
            tlen >= 1,
            node_ok(tlen, self@),
            refs_ok(refs.deep_view(), pos as int),
        ensures
            match spec_node_match(tlen, self@, input@, pos as int, refs.deep_view()) {
                Some(n) => r.0 && r.1 == n && pos + r.1 <= input.len(),
                None => !r.0,
            },
        decreases tlen + input.len(), 1int,
    {
        match self {
            Matcher::Atom(a) => a.test(input, pos, refs, Ghost(tlen)),
            Matcher::OneOrMore(a) => {
                let (first, adv) = a.test(input, pos, refs, Ghost(tlen));
                if !first {
                    (false, 0)
                } else if adv == 0 {
                    (true, 0)
                } else {
                    let mut matched: usize = adv;
                    let mut done: bool = false;
                    while !done && pos + matched < input.len()
                        invariant
                            1 <= matched,
                            pos + matched <= input.len(),
                            spec_node_match(tlen, self@, input@, pos as int, refs.deep_view())
                                == Some((matched + spec_greedy(
                                tlen,
                                a@,
                                input@,
                                pos + matched,
                                refs.deep_view(),
                            )) as nat),
                            done ==> spec_greedy(tlen, a@, input@, pos + matched, refs.deep_view())
                                == 0,
                        decreases
                                (if done {
                                    0int
                                } else {
                                    input.len() - pos - matched + 1
                                }),
                    {
                        let (again, step) = a.test(input, pos + matched, refs, Ghost(tlen));
                        if again && step > 0 {
                            matched = matched + step;
                        } else {
                            done = true;
                        }
                    }
                    (true, matched)
                }
            },
            Matcher::ZeroOrOne(a) => {
                let (res, adv) = a.test(input, pos, refs, Ghost(tlen));
                if res {
                    (true, adv)
                } else {
                    (true, 0)
                }
            },
        }
    }
}

impl Atom {
    /// One atom's match rule at cursor `pos`.
    #[verifier::loop_isolation(false)]
    fn test(
        &self,
        input: &Vec<char>,
        pos: usize,
        refs: &Vec<Vec<char>>,
        Ghost(tlen): Ghost<int>,
    ) -> (r: (bool, usize))
        requires
            pos < input.len(),
            tlen >= 1,
            atom_ok(tlen, self@),
            refs_ok(refs.deep_view(), pos as int),
        ensures
            match spec_atom_match(tlen, self@, input@, pos as int, refs.deep_view()) {
                Some(n) => r.0 && r.1 == n && pos + r.1 <= input.len(),
                None => !r.0,
            },
        decreases tlen + input.len(), 0int,
    {
        match self {
            Atom::Literal(expected) => {
                let c = input[pos];
                (c == *expected, 1)
            },
            Atom::Digit => {
                let c = input[pos];
                (char_is_digit(c), 1)
            },
            Atom::Word => {
                let c = input[pos];
                (char_is_alphabetic(c) || char_is_digit(c), 1)
            },
            Atom::CharClass(members, negated) => {
                let c = input[pos];
                let inside = contains_char(members, c);
                (inside != *negated, 1)
            },
            Atom::Wildcard => (true, 1),
            Atom::StartAnchor => (pos == 0, 0),
            Atom::EndAnchor => (pos >= input.len(), 0),
            Atom::Skip => (true, 0),
            Atom::Group(branches) => {
                let ghost branch_views = branches.deep_view();
                let mut j: usize = 0;
                while j < branches.len()
                    invariant
                        j <= branches.len(),
                        spec_group(tlen, branch_views, 0, input@, pos as int) == spec_group(
                            tlen,
                            branch_views,
                            j as int,
                            input@,
                            pos as int,
                        ),
                    decreases branches.len() - j,
                {
                    let branch = &branches[j];
                    proof {
                        lemma_char_vec_deep_view(*branch);
                        assert(branch_views[j as int] == branch@);
                    }
                    match Pattern::compile_chars(branch) {
                        Err(_) => {
                            proof {
                                assert(spec_match(
                                    branch_views[j as int],
                                    input@.subrange(pos as int, input@.len() as int),
                                ) is None);
                                assert(spec_group(tlen, branch_views, j as int, input@, pos as int)
                                    is None);
                            }
                            return (false, 0);
                        },
                        Ok(sub) => {
                            let suffix = copy_range(input, pos, input.len());
                            let (res, adv) = sub.test_chars(&suffix);
                            proof {
                                assert(suffix@ == input@.subrange(pos as int, input@.len() as int));
                            }
                            if res {
                                proof {
                                    assert(spec_group(
                                        tlen,
                                        branch_views,
                                        j as int,
                                        input@,
                                        pos as int,
                                    ) == Some(adv as nat));
                                }
                                return (true, adv);
                            }
                        },
                    }
                    j = j + 1;
                }
                (false, 0)
            },
            Atom::Backref(index) => {
                let ix = *index;
                if ix >= 1 && (ix as usize) <= refs.len() {
                    let cap = &refs[(ix as usize) - 1];
                    proof {
                        lemma_char_vec_deep_view(*cap);
                        assert(refs.deep_view()[ix as int - 1] == cap@);
                    }
                    match Pattern::compile_chars(cap) {
                        Err(_) => (false, 0),
                        Ok(sub) => {
                            let suffix = copy_range(input, pos, input.len());
                            let (res, adv) = sub.test_chars(&suffix);
                            if res {
                                (true, adv)
                            } else {
                                (false, 0)
                            }
                        },
                    }
                } else {
                    (false, 0)
                }
            },
        }
    }
}

} // verus!
