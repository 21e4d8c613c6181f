use crate::text::{join, texts};
use crypto::digest::Digest;
use crypto::sha1::Sha1;
use vstd::prelude::*;
use vstd::utf8::encode_utf8;

verus! {

/// The SHA-1 digest of these bytes, in hexadecimal notation.
pub uninterp spec fn sha1_hex(message: Seq<u8>) -> Seq<char>;

/// The digest that `crypto::sha1::Sha1` gives of some bytes: a new `Sha1` is fed the bytes by
/// `input` and asked for its digest by `result_str`. That digest is named by `sha1_hex`: it
/// depends on the bytes alone. The digest counts the bits of its message in a 64-bit number and
/// panics when they do not fit.
#[verifier::external_body]
fn sha1_digest(message: &[u8]) -> (digest: String)
    requires
        message@.len() < 0x2000_0000_0000_0000,
    ensures
        digest@ == sha1_hex(message@),
{
    let mut hasher = Sha1::new();
    hasher.input(message);
    hasher.result_str()
}

/// The checksum of the contents of a file.
pub fn contents_checksum(contents: &[u8]) -> (checksum: String)
    requires
        contents@.len() < 0x2000_0000_0000_0000,
    ensures
        checksum@ == sha1_hex(contents@),
{
    sha1_digest(contents)
}

/// The texts one after the other.
pub open spec fn concatenated(parts: Seq<Seq<char>>) -> Seq<char> {
    join(parts, Seq::empty())
}

/// The checksum of these texts can be calculated: the number of their bits fits in 64 bits.
pub open spec fn can_digest(parts: Seq<Seq<char>>) -> bool {
    encode_utf8(concatenated(parts)).len() < 0x2000_0000_0000_0000
}

/// The digest of these texts, one after the other.
pub open spec fn joint_digest(parts: Seq<Seq<char>>) -> Seq<char> {
    sha1_hex(encode_utf8(concatenated(parts)))
}

/// The checksum of a target, made of the checksums of its watched paths.
pub fn watch_checksum(checksums: &Vec<String>) -> (checksum: String)
    requires
        can_digest(texts(checksums@)),
    ensures
        checksum@ == joint_digest(texts(checksums@)),
{
    let mut message = String::new();
    for i in 0..checksums.len()
        invariant
            message@ == concatenated(texts(checksums@).take(i as int)),
    {
        message.append(checksums[i].as_str());
        proof {
            let parts = texts(checksums@).take(i + 1);
            assert(parts.drop_last() == texts(checksums@).take(i as int));
            assert(i == 0 ==> parts[0] == message@);
        }
    }
    assert(texts(checksums@).take(checksums.len() as int) == texts(checksums@));
    sha1_digest(message.as_str().as_bytes())
}

} // verus!
