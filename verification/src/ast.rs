//! The compiled form of a pattern: matcher nodes, their mathematical views,
//! and the errors that compilation can raise.

use vstd::prelude::*;

verus! {

/// Why a pattern text failed to compile.
#[derive(Debug, Clone, Copy, PartialEq, Eq)]
pub enum CompileError {
    /// The pattern ends with a bare `\`.
    UnterminatedEscape,
    /// `\` is followed by a letter that is not `d` or `w`.
    UnrecognizedEscape,
    /// A `[` has no closing `]` after it.
    UnterminatedClass,
    /// A `(` has no closing `)` after it.
    UnterminatedGroup,
    /// The digits after `\` name a backreference larger than `u32::MAX`.
    BackrefTooLarge,
}

/// The mathematical view of a single unquantified atom.
pub ghost enum SpecAtom {
    /// Matches exactly this character.
    Literal(char),
    /// Matches one decimal digit.
    Digit,
    /// Matches one letter or digit.
    Word,
    /// Matches one character whose membership in the set equals `!negated`:
    /// the members, and the negation flag.
    CharClass(Seq<char>, bool),
    /// Matches any one character.
    Wildcard,
    /// Zero-width: holds only while the cursor has not advanced.
    StartAnchor,
    /// Zero-width: holds only at or past the subject's end.
    EndAnchor,
    /// An alternation: the raw text of each branch, tried in order.
    Group(Seq<Seq<char>>),
    /// The n-th group captured so far in this attempt, replayed literally.
    Backref(u32),
    /// A placeholder for stray punctuation; consumes nothing.
    Skip,
}

/// The mathematical view of one matcher node: an atom, possibly under a
/// quantifier.  A quantifier always wraps exactly one atom.
pub ghost enum SpecNode {
    Atom(SpecAtom),
    OneOrMore(SpecAtom),
    ZeroOrOne(SpecAtom),
}

/// One unquantified atom, in executable form.
pub enum Atom {
    Literal(char),
    Digit,
    Word,
    CharClass(Vec<char>, bool),
    Wildcard,
    StartAnchor,
    EndAnchor,
    Group(Vec<Vec<char>>),
    Backref(u32),
    Skip,
}

/// One compiled matcher node: an atom, possibly under a quantifier.
pub enum Matcher {
    Atom(Atom),
    OneOrMore(Atom),
    ZeroOrOne(Atom),
}

impl View for Atom {
    type V = SpecAtom;

    open spec fn view(&self) -> SpecAtom {
        match self {
            Atom::Literal(c) => SpecAtom::Literal(*c),
            Atom::Digit => SpecAtom::Digit,
            Atom::Word => SpecAtom::Word,
            Atom::CharClass(members, negated) => SpecAtom::CharClass(members@, *negated),
            Atom::Wildcard => SpecAtom::Wildcard,
            Atom::StartAnchor => SpecAtom::StartAnchor,
            Atom::EndAnchor => SpecAtom::EndAnchor,
            Atom::Group(branches) => SpecAtom::Group(branches.deep_view()),
            Atom::Backref(n) => SpecAtom::Backref(*n),
            Atom::Skip => SpecAtom::Skip,
        }
    }
}

impl DeepView for Atom {
    type V = SpecAtom;

    open spec fn deep_view(&self) -> SpecAtom {
        self.view()
    }
}

impl View for Matcher {
    type V = SpecNode;

    open spec fn view(&self) -> SpecNode {
        match self {
            Matcher::Atom(a) => SpecNode::Atom(a@),
            Matcher::OneOrMore(a) => SpecNode::OneOrMore(a@),
            Matcher::ZeroOrOne(a) => SpecNode::ZeroOrOne(a@),
        }
    }
}

impl DeepView for Matcher {
    type V = SpecNode;

    open spec fn deep_view(&self) -> SpecNode {
        self.view()
    }
}

/// The atom under a node, quantified or not.
pub open spec fn atom_of(n: SpecNode) -> SpecAtom {
    match n {
        SpecNode::Atom(a) => a,
        SpecNode::OneOrMore(a) => a,
        SpecNode::ZeroOrOne(a) => a,
    }
}

/// Every branch text of a group is shorter, by at least the two parentheses,
/// than a pattern text of length `tlen`.
pub open spec fn branches_ok(tlen: int, branches: Seq<Seq<char>>) -> bool {
    forall|j: int| 0 <= j < branches.len() ==> (#[trigger] branches[j]).len() + 2 <= tlen
}

/// `atom_ok(tlen, a)`: the atom came from a pattern text of length `tlen`.
pub open spec fn atom_ok(tlen: int, a: SpecAtom) -> bool {
    match a {
        SpecAtom::Group(branches) => branches_ok(tlen, branches),
        _ => true,
    }
}

/// `node_ok(tlen, n)`: the node came from a pattern text of length `tlen`.
pub open spec fn node_ok(tlen: int, n: SpecNode) -> bool {
    atom_ok(tlen, atom_of(n))
}

/// All nodes of a compiled sequence came from a pattern text of length `tlen`.
pub open spec fn nodes_ok(tlen: int, ns: Seq<SpecNode>) -> bool {
    forall|k: int| 0 <= k < ns.len() ==> node_ok(tlen, #[trigger] ns[k])
}

/// Every capture recorded so far is a substring of the part of the subject
/// already walked, so no longer than the cursor position.
pub open spec fn refs_ok(refs: Seq<Seq<char>>, pos: int) -> bool {
    forall|j: int| 0 <= j < refs.len() ==> (#[trigger] refs[j]).len() <= pos
}

/// The nodes from `k` on are all zero-width or optional: the attempt may end
/// here even though the subject is exhausted.
pub open spec fn rest_optional(ns: Seq<SpecNode>, k: int) -> bool {
    forall|j: int|
        k <= j < ns.len() ==> {
            ||| #[trigger] ns[j] is ZeroOrOne
            ||| ns[j] == SpecNode::Atom(SpecAtom::EndAnchor)
            ||| ns[j] == SpecNode::Atom(SpecAtom::Skip)
        }
}

} // verus!
