//! Names: what may name a constant, and how the generated functions are
//! named.

use vstd::prelude::*;
use vstd::string::*;
use crate::syntax::Direction;
use crate::text::{decimal, lemma_decimal_injective, to_decimal};

verus! {

/// Whether a character has the Unicode property XID_Start: whether an
/// identifier may begin with it.
pub uninterp spec fn xid_start(c: char) -> bool;

/// Whether a character has the Unicode property XID_Continue: whether it
/// may stand in an identifier after the first character.
pub uninterp spec fn xid_continue(c: char) -> bool;

/// `unicode_ident::is_xid_start`, a lookup in that crate's table of the
/// property XID_Start. The contract gives the answer its name and claims
/// nothing else of it.
#[verifier::external_body]
fn is_xid_start(c: char) -> (yes: bool)
    ensures
        yes == xid_start(c),
{
    unicode_ident::is_xid_start(c)
}

/// `unicode_ident::is_xid_continue`, a lookup in that crate's table of the
/// property XID_Continue. The contract gives the answer its name and claims
/// nothing else of it.
#[verifier::external_body]
fn is_xid_continue(c: char) -> (yes: bool)
    ensures
        yes == xid_continue(c),
{
    unicode_ident::is_xid_continue(c)
}

/// Whether `c` may stand at `position` of an identifier, given what the
/// tables say of it: an underscore or a start character at the beginning, a
/// continue character after it.
pub open spec fn fits(position: int, c: char, start: bool, cont: bool) -> bool {
    if position == 0 {
        c == '_' || start
    } else {
        cont
    }
}

/// Decides whether `c` may stand at `position` of an identifier, given
/// what the tables say of it.
pub fn character_fits(position: usize, c: char, start: bool, cont: bool) -> (ok: bool)
    ensures
        ok == fits(position as int, c, start, cont),
{
    if position == 0 {
        c == '_' || start
    } else {
        cont
    }
}

/// Whether `name` can stand for a constant: it is an identifier, that is,
/// it is not empty and each of its characters fits its position.
pub open spec fn is_constant_name(name: Seq<char>) -> bool {
    &&& name.len() > 0
    &&& forall|i: int|
        0 <= i < name.len() ==> fits(
            i,
            #[trigger] name[i],
            xid_start(name[i]),
            xid_continue(name[i]),
        )
}

/// Decides whether `name` can stand for a constant.
pub fn check_constant_name(name: &str) -> (ok: bool)
    ensures
        ok == is_constant_name(name@),
{
    let n = name.unicode_len();
    if n == 0 {
        return false;
    }
    let mut i: usize = 0;
    while i < n
        invariant
            i <= n,
            n == name@.len(),
            forall|k: int|
                0 <= k < i ==> fits(
                    k,
                    #[trigger] name@[k],
                    xid_start(name@[k]),
                    xid_continue(name@[k]),
                ),
        decreases n - i,
    {
        let c = name.get_char(i);
        if !character_fits(i, c, is_xid_start(c), is_xid_continue(c)) {
            return false;
        }
        i += 1;
    }
    true
}

/// The parts of the names of the generated functions.
pub const SERIALIZE_PREFIX: &'static str = "serbia_serialize_";

pub const DESERIALIZE_PREFIX: &'static str = "serbia_deserialize_";

pub const INDEX_INFIX: &'static str = "_arr_";

/// What the names of the functions of one direction begin with.
pub open spec fn prefix(direction: Direction) -> Seq<char> {
    match direction {
        Direction::Serialize => SERIALIZE_PREFIX@,
        Direction::Deserialize => DESERIALIZE_PREFIX@,
    }
}

/// The name of the function that is generated for the field at position
/// `index` of the definition `type_ident`, for one direction.
pub open spec fn fn_name(direction: Direction, type_ident: Seq<char>, index: nat) -> Seq<char> {
    prefix(direction) + type_ident + INDEX_INFIX@ + decimal(index)
}

/// Writes the name of a generated function.
pub fn function_name(direction: Direction, type_ident: &str, index: usize) -> (name: String)
    ensures
        name@ == fn_name(direction, type_ident@, index as nat),
{
    let head = match direction {
        Direction::Serialize => SERIALIZE_PREFIX,
        Direction::Deserialize => DESERIALIZE_PREFIX,
    };
    let digits = to_decimal(index);
    String::from_str(head).concat(type_ident).concat(INDEX_INFIX).concat(digits.as_str())
}

/// Within one definition no two generated functions share a name: the name
/// tells the direction and the index of the field.
pub proof fn lemma_fn_names_differ(
    type_ident: Seq<char>,
    first: Direction,
    i: nat,
    second: Direction,
    j: nat,
)
    requires
        fn_name(first, type_ident, i) == fn_name(second, type_ident, j),
    ensures
        first == second,
        i == j,
{
    reveal_strlit("serbia_serialize_");
    reveal_strlit("serbia_deserialize_");
    let a = fn_name(first, type_ident, i);
    let b = fn_name(second, type_ident, j);
    assert(a[7] == prefix(first)[7]);
    assert(b[7] == prefix(second)[7]);
    assert(first == second);
    let head = prefix(first) + type_ident + INDEX_INFIX@;
    assert(a.skip(head.len() as int) =~= decimal(i));
    assert(b.skip(head.len() as int) =~= decimal(j));
    lemma_decimal_injective(i, j);
}

} // verus!
