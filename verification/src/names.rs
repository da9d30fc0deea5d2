//! Identifiers and the textual conventions the library builds them with.

use vstd::prelude::*;

verus! {

/// The prefix that marks the identifier of an identity morphism.
pub open spec fn id_prefix() -> Seq<char> {
    seq!['i', 'd', '_']
}

/// The identifier of the identity morphism of object `obj`: `"id_"` followed by `obj`.
pub open spec fn identity_name(obj: Seq<char>) -> Seq<char> {
    id_prefix() + obj
}

/// Whether `id` starts with `"id_"`.
pub open spec fn is_identity_name(id: Seq<char>) -> bool {
    id.len() >= 3 && id.subrange(0, 3) == id_prefix()
}

/// Concatenates two strings.
pub fn join_text(a: &str, b: &str) -> (r: String)
    ensures
        r@ == a@ + b@,
{
    let mut r = a.to_owned();
    r.append(b);
    r
}

/// Builds `"id_"` followed by `obj`.
pub fn make_identity_name(obj: &str) -> (r: String)
    ensures
        r@ == identity_name(obj@),
{
    proof {
        reveal_strlit("id_");
    }
    join_text("id_", obj)
}

/// Whether `s` starts with `"id_"`.
pub fn has_identity_prefix(s: &str) -> (b: bool)
    ensures
        b == is_identity_name(s@),
{
    let n = s.unicode_len();
    if n < 3 {
        return false;
    }
    let c0 = s.get_char(0);
    let c1 = s.get_char(1);
    let c2 = s.get_char(2);
    let b = c0 == 'i' && c1 == 'd' && c2 == '_';
    proof {
        if b {
            assert(s@.subrange(0, 3) =~= id_prefix());
        } else {
            if s@.subrange(0, 3) == id_prefix() {
                assert(s@.subrange(0, 3)[0] == s@[0]);
                assert(s@.subrange(0, 3)[1] == s@[1]);
                assert(s@.subrange(0, 3)[2] == s@[2]);
            }
        }
    }
    b
}

} // verus!
