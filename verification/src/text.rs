//! Names that carry a module: `module:name`.

use crate::seqs::first_where;
use crate::seqs::lemma_first_where;
use crate::seqs::lemma_first_where_at;
use crate::seqs::lemma_first_where_none;
use vstd::prelude::*;
use vstd::string::StrSliceExecFns;
use vstd::string::StringExecFns;

verus! {

/// Position of the first colon of a name.
pub open spec fn colon_position(name: Seq<char>) -> Option<int> {
    first_where(name, |c: char| c == ':')
}

pub open spec fn has_colon(name: Seq<char>) -> bool {
    colon_position(name).is_some()
}

/// What stands before the first colon.
pub open spec fn module_part(name: Seq<char>) -> Seq<char>
    recommends
        has_colon(name),
{
    name.take(colon_position(name).unwrap())
}

/// What stands after the first colon.
pub open spec fn name_part(name: Seq<char>) -> Seq<char>
    recommends
        has_colon(name),
{
    name.skip(colon_position(name).unwrap() + 1)
}

/// A module's name, a colon and a name.
pub open spec fn qualified(module: Seq<char>, name: Seq<char>) -> Seq<char> {
    module + seq![':'] + name
}

/// The two parts of a name with a colon give the name back.
pub proof fn lemma_split_joins(name: Seq<char>)
    requires
        has_colon(name),
    ensures
        qualified(module_part(name), name_part(name)) == name,
        !has_colon(module_part(name)),
{
    let p = |c: char| c == ':';
    lemma_first_where(name, p);
    let i = colon_position(name).unwrap();
    assert(qualified(module_part(name), name_part(name)) =~= name);
    assert forall|j: int| 0 <= j < module_part(name).len() implies !p(module_part(name)[j]) by {
        assert(module_part(name)[j] == name[j]);
    }
    lemma_first_where_none(module_part(name), p);
}

/// A qualified name splits into the parts it was made of, where the module's
/// name holds no colon.
pub proof fn lemma_qualified_splits(module: Seq<char>, name: Seq<char>)
    requires
        !has_colon(module),
    ensures
        has_colon(qualified(module, name)),
        module_part(qualified(module, name)) == module,
        name_part(qualified(module, name)) == name,
{
    let p = |c: char| c == ':';
    let q = qualified(module, name);
    lemma_first_where(module, p);
    assert forall|j: int| 0 <= j < module.len() implies !p(q[j]) by {
        assert(q[j] == module[j]);
    }
    assert(q[module.len() as int] == ':');
    lemma_first_where_at(q, p, module.len() as int);
    assert(module_part(q) =~= module);
    assert(name_part(q) =~= name);
}

/// Two names with a colon that split into the same parts are the same name.
pub proof fn lemma_split_injective(a: Seq<char>, b: Seq<char>)
    requires
        has_colon(a),
        has_colon(b),
        module_part(a) == module_part(b),
        name_part(a) == name_part(b),
    ensures
        a == b,
{
    lemma_split_joins(a);
    lemma_split_joins(b);
}

/// Splits a name at its first colon.
pub fn split_once_colon(name: &String) -> (parts: Option<(String, String)>)
    ensures
        match parts {
            Some((module, rest)) => has_colon(name@) && module@ == module_part(name@) && rest@
                == name_part(name@),
            None => !has_colon(name@),
        },
{
    let s = name.as_str();
    let len = s.unicode_len();
    let ghost p = |c: char| c == ':';
    let mut i: usize = 0;
    while i < len
        invariant
            i <= len,
            len == s@.len(),
            s@ == name@,
            forall|j: int| 0 <= j < i ==> !p(#[trigger] s@[j]),
            p == (|c: char| c == ':'),
        decreases len - i,
    {
        if s.get_char(i) == ':' {
            proof {
                lemma_first_where_at(s@, p, i as int);
            }
            let module = String::from_str(s.substring_char(0, i));
            let rest = String::from_str(s.substring_char(i + 1, len));
            proof {
                assert(module@ =~= module_part(name@));
                assert(rest@ =~= name_part(name@));
            }
            return Some((module, rest));
        }
        i = i + 1;
    }
    proof {
        lemma_first_where_none(s@, p);
    }
    None
}

} // verus!
