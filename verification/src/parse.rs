//! Compiling a pattern text into matcher nodes.
//!
//! `spec_compile` is the mathematical compiler: it reads the pattern text
//! left to right and yields the node sequence, or the error that aborts
//! compilation.  `Matcher::new` is the executable single-node compiler and is
//! proved to agree with `spec_node_at`.

use vstd::prelude::*;

use crate::ast::{atom_ok, node_ok, nodes_ok, Atom, CompileError, Matcher, SpecAtom, SpecNode};
use crate::text::{
    char_is_digit, copy_range, digit_run_end, digit_val, digits_value, find_char, find_in,
    is_digit_char, lemma_char_vec_deep_view, lemma_digit_run_end, lemma_digits_value_monotone,
    lemma_find_in, lemma_split_range_piece_len, split_range,
};

verus! {

/// The first index strictly after `after` holding `element`, if any.
pub open spec fn spec_find_closing(t: Seq<char>, element: char, after: int) -> Option<int> {
    find_in(t, element, after + 1, t.len() as int)
}

/// The atom starting at `pos`, before the quantifier lookahead, with the
/// number of extra characters it consumed beyond the first.
pub open spec fn spec_atom_at(t: Seq<char>, pos: int) -> Result<(SpecAtom, nat), CompileError>
    recommends
        0 <= pos < t.len(),
{
    let c = t[pos];
    if c == '^' {
        Ok((SpecAtom::StartAnchor, 0))
    } else if c == '$' {
        Ok((SpecAtom::EndAnchor, 0))
    } else if c == '\\' {
        if pos + 1 >= t.len() {
            Err(CompileError::UnterminatedEscape)
        } else {
            let d = t[pos + 1];
            if d == 'd' {
                Ok((SpecAtom::Digit, 1))
            } else if d == 'w' {
                Ok((SpecAtom::Word, 1))
            } else if d == '\\' {
                Ok((SpecAtom::Literal('\\'), 1))
            } else if is_digit_char(d) {
                let run_end = digit_run_end(t, pos + 1, t.len() as int);
                let value = digits_value(t, pos + 1, run_end);
                if value > u32::MAX {
                    Err(CompileError::BackrefTooLarge)
                } else {
                    Ok((SpecAtom::Backref(value as u32), (run_end - pos - 1) as nat))
                }
            } else {
                Err(CompileError::UnrecognizedEscape)
            }
        }
    } else if c == '+' || c == '?' || c == ']' || c == ')' {
        Ok((SpecAtom::Skip, 0))
    } else if c == '.' {
        Ok((SpecAtom::Wildcard, 0))
    } else if c == '[' {
        match spec_find_closing(t, ']', pos) {
            None => Err(CompileError::UnterminatedClass),
            Some(close) => if t[pos + 1] == '^' {
                Ok((SpecAtom::CharClass(t.subrange(pos + 2, close), true), (close - pos) as nat))
            } else {
                Ok((SpecAtom::CharClass(t.subrange(pos + 1, close), false), (close - pos) as nat))
            },
        }
    } else if c == '(' {
        match spec_find_closing(t, ')', pos) {
            None => Err(CompileError::UnterminatedGroup),
            Some(close) => Ok(
                (SpecAtom::Group(split_range(t, pos + 1, close)), (close - pos) as nat),
            ),
        }
    } else {
        Ok((SpecAtom::Literal(c), 0))
    }
}

/// The node starting at `pos`: the atom, wrapped by a `+` or `?` standing
/// just after it, with the total number of extra characters consumed.
pub open spec fn spec_node_at(t: Seq<char>, pos: int) -> Result<(SpecNode, nat), CompileError>
    recommends
        0 <= pos < t.len(),
{
    match spec_atom_at(t, pos) {
        Err(e) => Err(e),
        Ok((a, extra)) => {
            let la = pos + extra + 1;
            if la < t.len() && t[la] == '+' {
                Ok((SpecNode::OneOrMore(a), extra + 1))
            } else if la < t.len() && t[la] == '?' {
                Ok((SpecNode::ZeroOrOne(a), extra + 1))
            } else {
                Ok((SpecNode::Atom(a), extra))
            }
        },
    }
}

/// The nodes compiled from `t[from..]`, skipping `Skip` placeholders; or the
/// first error met.
pub open spec fn spec_nodes_from(t: Seq<char>, from: int) -> Result<Seq<SpecNode>, CompileError>
    decreases t.len() - from,
    when 0 <= from
{
    if from >= t.len() {
        Ok(Seq::empty())
    } else {
        match spec_node_at(t, from) {
            Err(e) => Err(e),
            Ok((n, extra)) => {
                proof {
                    lemma_node_at_ok(t, from);
                }
                match spec_nodes_from(t, from + extra + 1) {
                    Err(e) => Err(e),
                    Ok(rest) => Ok(
                        if n == SpecNode::Atom(SpecAtom::Skip) {
                            rest
                        } else {
                            seq![n] + rest
                        },
                    ),
                }
            },
        }
    }
}

/// Whether the pattern text asks to be anchored at the subject's start.
pub open spec fn spec_anchored(t: Seq<char>) -> bool {
    t.len() > 0 && t[0] == '^'
}

/// The compiled node sequence of the whole pattern text: a leading `^` only
/// sets the anchor flag and emits no node.
pub open spec fn spec_compile(t: Seq<char>) -> Result<Seq<SpecNode>, CompileError> {
    spec_nodes_from(t, if spec_anchored(t) { 1 } else { 0 })
}

/// A successfully compiled atom consumed characters that all lie inside the
/// text, and its branch texts are bounded by the text's length.
pub proof fn lemma_atom_at_ok(t: Seq<char>, pos: int)
    requires
        0 <= pos < t.len(),
        spec_atom_at(t, pos) is Ok,
    ensures
        ({
            let (a, extra) = spec_atom_at(t, pos)->Ok_0;
            &&& pos + 1 + extra <= t.len()
            &&& atom_ok(t.len() as int, a)
        }),
{
    let c = t[pos];
    if c == '\\' && pos + 1 < t.len() && is_digit_char(t[pos + 1]) {
        lemma_digit_run_end(t, pos + 1, t.len() as int);
    } else if c == '[' {
        lemma_find_in(t, ']', pos + 1, t.len() as int);
    } else if c == '(' {
        lemma_find_in(t, ')', pos + 1, t.len() as int);
        match spec_find_closing(t, ')', pos) {
            None => {},
            Some(close) => {
                lemma_split_range_piece_len(t, pos + 1, close);
            },
        }
    }
}

/// A successfully compiled node consumed characters that all lie inside the
/// text, and is `node_ok` for the text's length.
pub proof fn lemma_node_at_ok(t: Seq<char>, pos: int)
    requires
        0 <= pos < t.len(),
        spec_node_at(t, pos) is Ok,
    ensures
        ({
            let (n, extra) = spec_node_at(t, pos)->Ok_0;
            &&& pos + 1 + extra <= t.len()
            &&& node_ok(t.len() as int, n)
        }),
{
    lemma_atom_at_ok(t, pos);
}

/// Every node of a compiled sequence is `node_ok` for the text's length.
pub proof fn lemma_nodes_from_ok(t: Seq<char>, from: int)
    requires
        0 <= from,
        spec_nodes_from(t, from) is Ok,
    ensures
        nodes_ok(t.len() as int, spec_nodes_from(t, from)->Ok_0),
    decreases t.len() - from,
{
    if from < t.len() {
        match spec_node_at(t, from) {
            Err(_) => {},
            Ok((n, extra)) => {
                lemma_node_at_ok(t, from);
                lemma_nodes_from_ok(t, from + extra + 1);
                let rest = spec_nodes_from(t, from + extra + 1)->Ok_0;
                let ns = spec_nodes_from(t, from)->Ok_0;
                assert forall|k: int| 0 <= k < ns.len() implies node_ok(
                    t.len() as int,
                    #[trigger] ns[k],
                ) by {
                    if n != SpecNode::Atom(SpecAtom::Skip) && k > 0 {
                        assert(ns[k] == rest[k - 1]);
                    }
                }
            },
        }
    }
}

/// A nonempty compiled sequence can only come from a nonempty text.
pub proof fn lemma_nodes_from_nonempty(t: Seq<char>, from: int)
    requires
        0 <= from,
        spec_nodes_from(t, from) is Ok,
        spec_nodes_from(t, from)->Ok_0.len() > 0,
    ensures
        t.len() >= 1,
{
    // With `from` at or past the text's end the sequence is empty, so a
    // nonempty sequence forces `from < t.len()`.
}

impl Matcher {
    /// Compiles the single node starting at `pos` of the pattern text: the
    /// node together with the number of extra characters consumed beyond the
    /// first, or the error that aborts compilation.
    pub fn new(input: &Vec<char>, pos: usize) -> (r: Result<(Matcher, usize), CompileError>)
        requires
            pos < input.len(),
        ensures
            match r {
                Ok((m, extra)) => {
                    &&& spec_node_at(input@, pos as int) == Ok::<_, CompileError>(
                        (m@, extra as nat),
                    )
                    &&& pos + 1 + extra <= input.len()
                },
                Err(e) => spec_node_at(input@, pos as int) == Err::<(SpecNode, nat), _>(e),
            },
    {
        let atom: Atom;
        let extra: usize;
        let c = input[pos];
        if c == '^' {
            atom = Atom::StartAnchor;
            extra = 0;
        } else if c == '$' {
            atom = Atom::EndAnchor;
            extra = 0;
        } else if c == '\\' {
            if pos + 1 >= input.len() {
                return Err(CompileError::UnterminatedEscape);
            }
            let d = input[pos + 1];
            if d == 'd' {
                atom = Atom::Digit;
                extra = 1;
            } else if d == 'w' {
                atom = Atom::Word;
                extra = 1;
            } else if d == '\\' {
                atom = Atom::Literal('\\');
                extra = 1;
            } else if char_is_digit(d) {
                match parse_backref(input, pos) {
                    Ok((index, consumed)) => {
                        atom = Atom::Backref(index);
                        extra = consumed;
                    },
                    Err(e) => {
                        return Err(e);
                    },
                }
            } else {
                return Err(CompileError::UnrecognizedEscape);
            }
        } else if c == '+' || c == '?' || c == ']' || c == ')' {
            atom = Atom::Skip;
            extra = 0;
        } else if c == '.' {
            atom = Atom::Wildcard;
            extra = 0;
        } else if c == '[' {
            match find_closing(input, ']', pos) {
                None => {
                    return Err(CompileError::UnterminatedClass);
                },
                Some(close) => {
                    proof {
                        lemma_find_in(input@, ']', pos + 1, input@.len() as int);
                    }
                    if input[pos + 1] == '^' {
                        atom = Atom::CharClass(copy_range(input, pos + 2, close), true);
                    } else {
                        atom = Atom::CharClass(copy_range(input, pos + 1, close), false);
                    }
                    extra = close - pos;
                },
            }
        } else if c == '(' {
            match find_closing(input, ')', pos) {
                None => {
                    return Err(CompileError::UnterminatedGroup);
                },
                Some(close) => {
                    proof {
                        lemma_find_in(input@, ')', pos + 1, input@.len() as int);
                    }
                    atom = Atom::Group(split_alternatives(input, pos + 1, close));
                    extra = close - pos;
                },
            }
        } else {
            atom = Atom::Literal(c);
            extra = 0;
        }
        proof {
            lemma_atom_at_ok(input@, pos as int);
        }
        // Quantifier lookahead: a `+` or `?` just after the atom wraps it.
        let la = pos + extra + 1;
        if la < input.len() && input[la] == '+' {
            Ok((Matcher::OneOrMore(atom), extra + 1))
        } else if la < input.len() && input[la] == '?' {
            Ok((Matcher::ZeroOrOne(atom), extra + 1))
        } else {
            Ok((Matcher::Atom(atom), extra))
        }
    }
}

/// The first index strictly after `after` where `input` holds `element`.
fn find_closing(input: &Vec<char>, element: char, after: usize) -> (r: Option<usize>)
    requires
        after < input.len(),
    ensures
        match r {
            Some(i) => spec_find_closing(input@, element, after as int) == Some(i as int) && after
                < i < input.len(),
            None => spec_find_closing(input@, element, after as int) is None,
        },
{
    proof {
        lemma_find_in(input@, element, after + 1, input@.len() as int);
    }
    find_char(input, element, after + 1, input.len())
}

/// The digits after the `\` at `pos`, read as a backreference index: the
/// index and the number of characters consumed beyond the `\`, or an error
/// when the index does not fit in `u32`.
#[verifier::loop_isolation(false)]
fn parse_backref(input: &Vec<char>, pos: usize) -> (r: Result<(u32, usize), CompileError>)
    requires
        pos < input.len(),
        input@[pos as int] == '\\',
        pos + 1 < input.len(),
        is_digit_char(input@[pos + 1]),
    ensures
        ({
            let run_end = digit_run_end(input@, pos + 1, input@.len() as int);
            let value = digits_value(input@, pos + 1, run_end);
            match r {
                Ok((index, consumed)) => {
                    &&& value <= u32::MAX
                    &&& index == value
                    &&& consumed == run_end - pos - 1
                },
                Err(e) => value > u32::MAX && e == CompileError::BackrefTooLarge,
            }
        }),
{
    let ghost t = input@;
    let ghost run_end = digit_run_end(t, pos + 1, t.len() as int);
    proof {
        lemma_digit_run_end(t, pos + 1, t.len() as int);
    }
    let mut i: usize = pos + 1;
    let mut acc: u64 = 0;
    loop
        invariant
            pos + 1 <= i <= run_end,
            acc == digits_value(t, pos + 1, i as int),
            acc <= u32::MAX,
        decreases input.len() - i,
    {
        if i == input.len() {
            proof {
                assert(i == run_end);
            }
            return Ok((acc as u32, i - pos - 1));
        }
        let c = input[i];
        if !char_is_digit(c) {
            proof {
                assert(i == run_end);
            }
            return Ok((acc as u32, i - pos - 1));
        }
        proof {
            // `t[i]` is a digit, so the run has not ended at `i`.
            assert(i < run_end);
        }
        let d = (c as u32) - 48;
        let next = acc * 10 + (d as u64);
        if next > (u32::MAX as u64) {
            proof {
                assert(digits_value(t, pos + 1, i + 1) == acc * 10 + digit_val(t[i as int]));
                lemma_digits_value_monotone(t, pos + 1, i + 1, run_end);
            }
            return Err(CompileError::BackrefTooLarge);
        }
        acc = next;
        i = i + 1;
    }
}

/// The branch texts of the alternation `input[from..to)`, split on `|`.
#[verifier::loop_isolation(false)]
fn split_alternatives(input: &Vec<char>, from: usize, to: usize) -> (r: Vec<Vec<char>>)
    requires
        from <= to <= input.len(),
    ensures
        r.deep_view() == split_range(input@, from as int, to as int),
{
    let ghost t = input@;
    let mut parts: Vec<Vec<char>> = Vec::new();
    let mut start: usize = from;
    loop
        invariant
            from <= start <= to,
            split_range(t, from as int, to as int) == parts.deep_view() + split_range(
                t,
                start as int,
                to as int,
            ),
        decreases to - start,
    {
        proof {
            lemma_find_in(t, '|', start as int, to as int);
        }
        let ghost before = parts.deep_view();
        match find_char(input, '|', start, to) {
            Some(m) => {
                let piece = copy_range(input, start, m);
                proof {
                    lemma_char_vec_deep_view(piece);
                }
                let ghost piece_seq = piece@;
                parts.push(piece);
                proof {
                    assert(parts.deep_view() =~= before.push(piece_seq));
                    assert(before + (seq![piece_seq] + split_range(t, m + 1, to as int)) =~= (
                    before.push(piece_seq)) + split_range(t, m + 1, to as int));
                }
                start = m + 1;
            },
            None => {
                let piece = copy_range(input, start, to);
                proof {
                    lemma_char_vec_deep_view(piece);
                }
                let ghost piece_seq = piece@;
                parts.push(piece);
                proof {
                    assert(parts.deep_view() =~= before.push(piece_seq));
                    assert(before + seq![piece_seq] =~= before.push(piece_seq));
                }
                return parts;
            },
        }
    }
}

} // verus!
