//! Erlang terms, as far as the pipeline handles them: it carries terms from
//! the application data to the parser and adds one atom of its own.

use vstd::prelude::*;

verus! {

#[verifier::external_type_specification]
#[verifier::external_body]
pub struct ExTerm(eetf::Term);

/// The term that is the atom of the given name.
pub uninterp spec fn atom_term(name: Seq<char>) -> eetf::Term;

/// The atom of the given name, as a term.
///
/// Wraps `eetf::Atom::from` on a string slice and the conversion of the atom
/// into `eetf::Term`: an atom holds its name and nothing else, so the result
/// is a function of the name.
#[verifier::external_body]
pub(crate) fn atom(name: &str) -> (term: eetf::Term)
    ensures
        term == atom_term(name@),
{
    eetf::Term::from(eetf::Atom::from(name))
}

/// A copy of a term.
///
/// Wraps the `Clone` that `eetf::Term` derives: the copy equals the original.
#[verifier::external_body]
pub(crate) fn copy_term(term: &eetf::Term) -> (copy: eetf::Term)
    ensures
        copy == *term,
{
    term.clone()
}

/// Copies of the terms of a list, in order.
pub fn copy_terms(terms: &Vec<eetf::Term>) -> (copies: Vec<eetf::Term>)
    ensures
        copies@ == terms@,
{
    let mut copies: Vec<eetf::Term> = Vec::new();
    let mut i: usize = 0;
    while i < terms.len()
        invariant
            i <= terms.len(),
            copies@ == terms@.take(i as int),
        decreases terms.len() - i,
    {
        copies.push(copy_term(&terms[i]));
        proof {
            assert(copies@ =~= terms@.take(i + 1));
        }
        i = i + 1;
    }
    proof {
        assert(terms@.take(terms.len() as int) =~= terms@);
    }
    copies
}

} // verus!
