//! Display names. The relay gives each connection a name made of a fixed
//! prefix and six random letters or digits. Names are cosmetic: nothing
//! checks that a name is not in use already.

use crate::text::string_push;
use vstd::prelude::*;
use vstd::string::*;

verus! {

/// The number of random characters in a name.
pub const NAME_SUFFIX_LEN: usize = 6;

/// The text that every assigned name starts with.
pub open spec fn name_prefix() -> Seq<char> {
    "user-"@
}

/// An ASCII letter or digit.
pub open spec fn is_alphanumeric(b: u8) -> bool {
    ||| 0x30 <= b <= 0x39
    ||| 0x41 <= b <= 0x5A
    ||| 0x61 <= b <= 0x7A
}

/// The characters whose code points are the given bytes.
pub open spec fn byte_chars(bytes: Seq<u8>) -> Seq<char> {
    Seq::new(bytes.len(), |i: int| bytes[i] as char)
}

/// The name with the given suffix.
pub open spec fn name_with_suffix(suffix: Seq<u8>) -> Seq<char> {
    name_prefix() + byte_chars(suffix)
}

/// A name as the relay assigns it: the prefix, then six letters or digits.
pub open spec fn is_assigned_name(name: Seq<char>) -> bool {
    exists|suffix: Seq<u8>|
        #![trigger name_with_suffix(suffix)]
        suffix.len() == NAME_SUFFIX_LEN && (forall|i: int|
            0 <= i < suffix.len() ==> is_alphanumeric(#[trigger] suffix[i])) && name
            == name_with_suffix(suffix)
}

/// `Rng::sample` of rand, on the generator of the current thread and with
/// the distribution `Alphanumeric`: one byte out of `A` to `Z`, `a` to `z`
/// and `0` to `9`. Which one is left open.
#[verifier::external_body]
fn sample_alphanumeric() -> (b: u8)
    ensures
        is_alphanumeric(b),
{
    rand::Rng::sample(&mut rand::thread_rng(), rand::distributions::Alphanumeric)
}

/// The name made of the prefix and the given bytes, each taken as the
/// character of that code point.
pub fn name_from_suffix(suffix: &[u8]) -> (name: String)
    ensures
        name@ == name_with_suffix(suffix@),
{
    let mut name = String::from_str("user-");
    let mut i: usize = 0;
    while i < suffix.len()
        invariant
            i <= suffix@.len(),
            name@ == name_prefix() + byte_chars(suffix@.take(i as int)),
        decreases suffix@.len() - i,
    {
        string_push(&mut name, suffix[i] as char);
        assert(byte_chars(suffix@.take(i + 1)) =~= byte_chars(suffix@.take(i as int)).push(
            suffix@[i as int] as char,
        ));
        assert(name@ =~= name_prefix() + byte_chars(suffix@.take(i + 1)));
        i += 1;
    }
    assert(suffix@.take(i as int) =~= suffix@);
    name
}

/// A fresh name: the prefix, then six letters or digits drawn at random.
pub fn random_name() -> (name: String)
    ensures
        is_assigned_name(name@),
{
    let mut suffix: Vec<u8> = Vec::new();
    while suffix.len() < NAME_SUFFIX_LEN
        invariant
            suffix@.len() <= NAME_SUFFIX_LEN,
            forall|i: int| 0 <= i < suffix@.len() ==> is_alphanumeric(#[trigger] suffix@[i]),
        decreases NAME_SUFFIX_LEN - suffix@.len(),
    {
        suffix.push(sample_alphanumeric());
    }
    name_from_suffix(suffix.as_slice())
}

} // verus!
