//! Identifiers of jobs, instances and requests: a caller-chosen tag, a hyphen
//! and a random part.

use vstd::prelude::*;
use vstd::string::*;

verus! {

/// The length of an identifier's random part.
pub const SUFFIX_LEN: usize = 10;

/// The characters that the random part is drawn from: `_`, `-`, digits and
/// ASCII letters.
pub open spec fn is_id_char(c: char) -> bool {
    let u = c as u32;
    c == '_' || c == '-' || (0x30 <= u <= 0x39) || (0x61 <= u <= 0x7a) || (0x41 <= u <= 0x5a)
}

/// `s` could be the random part of an identifier.
pub open spec fn is_suffix(s: Seq<char>) -> bool {
    s.len() == SUFFIX_LEN && forall|i: int| 0 <= i < s.len() ==> is_id_char(#[trigger] s[i])
}

/// The identifier made of `prefix` and `suffix`.
pub open spec fn tagged(prefix: Seq<char>, suffix: Seq<char>) -> Seq<char> {
    prefix + seq!['-'] + suffix
}

/// Calls `nanoid::format` with that crate's default random source and its
/// URL-safe alphabet of 64 characters. The characters are random; whatever
/// they are, there are `size` of them and each is of that alphabet. The call
/// does not return for `size` 0, and computes `8 * size`.
#[verifier::external_body]
fn random_part(size: usize) -> (s: String)
    requires
        0 < size,
        8 * size <= usize::MAX,
    ensures
        s@.len() == size,
        forall|i: int| 0 <= i < s@.len() ==> is_id_char(#[trigger] s@[i]),
{
    nanoid::format(nanoid::rngs::default, &nanoid::alphabet::SAFE, size)
}

/// Joins a tag and a random part with a hyphen.
pub fn tagged_id(prefix: &str, suffix: &str) -> (id: String)
    ensures
        id@ == tagged(prefix@, suffix@),
{
    let mut id = String::from_str(prefix);
    id.append("-");
    proof {
        reveal_strlit("-");
        assert("-"@ =~= seq!['-']);
    }
    id.append(suffix);
    id
}

/// A fresh identifier `<prefix>-<random part>`.
pub fn get_nanid(prefix: &str) -> (id: String)
    ensures
        id@.len() == prefix@.len() + 1 + SUFFIX_LEN,
        is_suffix(id@.subrange(prefix@.len() as int + 1, id@.len() as int)),
        id@ == tagged(prefix@, id@.subrange(prefix@.len() as int + 1, id@.len() as int)),
{
    let suffix = random_part(SUFFIX_LEN);
    let id = tagged_id(prefix, suffix.as_str());
    assert(id@.subrange(prefix@.len() as int + 1, id@.len() as int) =~= suffix@);
    id
}

} // verus!
