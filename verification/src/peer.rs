//! The identity under which this client announces itself.

use vstd::prelude::*;
use vstd::string::StringSliceAdditionalSpecFns;
use vstd::utf8::encode_utf8;

verus! {

/// The number of bytes of a peer identity.
pub const PEER_ID_LEN: usize = 20;

/// True for a letter of the English alphabet or a decimal digit.
pub open spec fn is_alphanumeric(c: char) -> bool {
    ||| 'A' <= c <= 'Z'
    ||| 'a' <= c <= 'z'
    ||| '0' <= c <= '9'
}

/// The start of an identity where the caller gives none: the mark of this
/// client and its version between two dashes.
pub open spec fn default_prefix() -> Seq<char> {
    "-B010-"@
}

/// `rand::Rng::sample_iter` on `rand::thread_rng()` with the distribution
/// `rand::distributions::Alphanumeric`: `count` characters drawn at random
/// from the letters `A` to `Z` and `a` to `z` and the digits.
#[verifier::external_body]
fn random_alphanumeric(count: usize) -> (text: String)
    ensures
        text@.len() == count,
        forall|i: int| 0 <= i < count ==> is_alphanumeric(#[trigger] text@[i]),
{
    rand::Rng::sample_iter(rand::thread_rng(), &rand::distributions::Alphanumeric)
        .take(count)
        .map(char::from)
        .collect()
}

/// The identity made of a start and of what was drawn to follow it.
pub fn peer_id_with(prefix: &str, drawn: &str) -> (id: String)
    ensures
        id@ == prefix@ + drawn@,
{
    let mut id = String::new();
    id.append(prefix);
    id.append(drawn);
    assert(id@ =~= prefix@ + drawn@);
    id
}

/// Makes a peer identity: the prefix, or the default one where none is
/// given, followed by letters and digits drawn at random, as many as bring
/// the identity to 20 bytes. The prefix must not be longer than that.
pub fn gen_peer_id(prefix: Option<String>) -> (id: String)
    requires
        prefix matches Some(given) ==> encode_utf8(given@).len() <= PEER_ID_LEN,
    ensures
        ({
            let start = match prefix {
                Some(given) => given@,
                None => default_prefix(),
            };
            &&& id@.len() == start.len() + (PEER_ID_LEN - encode_utf8(start).len())
            &&& id@.subrange(0, start.len() as int) == start
            &&& forall|i: int| start.len() <= i < id@.len() ==> is_alphanumeric(#[trigger] id@[i])
        }),
{
    let start = match prefix {
        Some(given) => given,
        None => {
            let mut start = String::new();
            start.append("-B010-");
            proof {
                reveal_strlit("-B010-");
                assert(start@ =~= default_prefix());
                assert(vstd::utf8::is_ascii_chars(start@));
                vstd::utf8::is_ascii_chars_encode_utf8(start@);
            }
            start
        },
    };
    let drawn = random_alphanumeric(PEER_ID_LEN - start.as_str().len());
    let id = peer_id_with(start.as_str(), drawn.as_str());
    assert(id@.subrange(0, start@.len() as int) =~= start@);
    assert forall|i: int| start@.len() <= i < id@.len() implies is_alphanumeric(
        #[trigger] id@[i],
    ) by {
        assert(id@[i] == drawn@[i - start@.len()]);
    }
    id
}

} // verus!
