//! What is signed of a firmware image.

use vstd::prelude::*;

use crate::outside::crypto;
use crate::proto::DeviceUpdate;

verus! {

/// Length in bytes of the hash of an image.
pub const HASH_LEN: usize = 32;

/// A number as four bytes, the lowest first.
pub open spec fn le32(x: u32) -> Seq<u8> {
    seq![
        (x as int % 0x100) as u8,
        (x as int / 0x100 % 0x100) as u8,
        (x as int / 0x10000 % 0x100) as u8,
        (x as int / 0x1000000) as u8,
    ]
}

/// The message that is signed: the version, the size and the hash of the image, and the product that
/// it is for.
pub open spec fn message_of(
    major: u32,
    minor: u32,
    patch: u32,
    size_bytes: u32,
    sha256_hash: Seq<u8>,
    product: Seq<char>,
) -> Seq<u8> {
    le32(major) + le32(minor) + le32(patch) + le32(size_bytes) + sha256_hash
        + vstd::utf8::encode_utf8(product)
}

fn append_le32(message: &mut Vec<u8>, x: u32)
    ensures
        final(message)@ == old(message)@ + le32(x),
{
    message.push((x % 0x100) as u8);
    message.push((x / 0x100 % 0x100) as u8);
    message.push((x / 0x10000 % 0x100) as u8);
    message.push((x / 0x1000000) as u8);
    assert(message@ =~= old(message)@ + le32(x));
}

fn append_bytes(message: &mut Vec<u8>, bytes: &[u8])
    ensures
        final(message)@ == old(message)@ + bytes@,
{
    let mut i: usize = 0;
    assert(message@ =~= old(message)@ + bytes@.take(0));
    while i < bytes.len()
        invariant
            i <= bytes@.len(),
            message@ == old(message)@ + bytes@.take(i as int),
        decreases bytes@.len() - i,
    {
        message.push(bytes[i]);
        i = i + 1;
        assert(bytes@.take(i as int) =~= bytes@.take(i - 1).push(bytes@[i - 1]));
        assert(message@ =~= old(message)@ + bytes@.take(i as int));
    }
    assert(bytes@.take(i as int) =~= bytes@);
}

/// The message that is signed.
pub fn signed_message(
    major: u32,
    minor: u32,
    patch: u32,
    size_bytes: u32,
    sha256_hash: &[u8],
    product: &str,
) -> (message: Vec<u8>)
    ensures
        message@ == message_of(major, minor, patch, size_bytes, sha256_hash@, product@),
{
    let mut message: Vec<u8> = Vec::new();
    append_le32(&mut message, major);
    append_le32(&mut message, minor);
    append_le32(&mut message, patch);
    append_le32(&mut message, size_bytes);
    append_bytes(&mut message, sha256_hash);
    append_bytes(&mut message, product.as_bytes());
    assert(message@ =~= message_of(major, minor, patch, size_bytes, sha256_hash@, product@));
    message
}

proof fn lemma_le32_tells_apart(a: u32, b: u32)
    requires
        le32(a) == le32(b),
    ensures
        a == b,
{
    let (x, y) = (le32(a), le32(b));
    assert(x[0] == y[0] && x[1] == y[1] && x[2] == y[2] && x[3] == y[3]);
}

/// No two images are signed alike: a signed message stands for one version, size, hash and product
/// only.
pub proof fn lemma_message_says_what_is_signed(
    a: (u32, u32, u32, u32),
    hash_a: Seq<u8>,
    product_a: Seq<char>,
    b: (u32, u32, u32, u32),
    hash_b: Seq<u8>,
    product_b: Seq<char>,
)
    requires
        hash_a.len() == HASH_LEN,
        hash_b.len() == HASH_LEN,
        ({
            let (major_a, minor_a, patch_a, size_a) = a;
            let (major_b, minor_b, patch_b, size_b) = b;
            message_of(major_a, minor_a, patch_a, size_a, hash_a, product_a) == message_of(
                major_b,
                minor_b,
                patch_b,
                size_b,
                hash_b,
                product_b,
            )
        }),
    ensures
        a == b,
        hash_a == hash_b,
        product_a == product_b,
{
    let (major_a, minor_a, patch_a, size_a) = a;
    let (major_b, minor_b, patch_b, size_b) = b;
    let ma = message_of(major_a, minor_a, patch_a, size_a, hash_a, product_a);
    let mb = message_of(major_b, minor_b, patch_b, size_b, hash_b, product_b);
    assert(ma.subrange(0, 4) =~= le32(major_a));
    assert(mb.subrange(0, 4) =~= le32(major_b));
    assert(ma.subrange(4, 8) =~= le32(minor_a));
    assert(mb.subrange(4, 8) =~= le32(minor_b));
    assert(ma.subrange(8, 12) =~= le32(patch_a));
    assert(mb.subrange(8, 12) =~= le32(patch_b));
    assert(ma.subrange(12, 16) =~= le32(size_a));
    assert(mb.subrange(12, 16) =~= le32(size_b));
    lemma_le32_tells_apart(major_a, major_b);
    lemma_le32_tells_apart(minor_a, minor_b);
    lemma_le32_tells_apart(patch_a, patch_b);
    lemma_le32_tells_apart(size_a, size_b);
    assert(ma.subrange(16, 48) =~= hash_a);
    assert(mb.subrange(16, 48) =~= hash_b);
    let (ea, eb) = (vstd::utf8::encode_utf8(product_a), vstd::utf8::encode_utf8(product_b));
    assert(ma.skip(48) =~= ea);
    assert(mb.skip(48) =~= eb);
    vstd::utf8::encode_utf8_decode_utf8(product_a);
    vstd::utf8::encode_utf8_decode_utf8(product_b);
}

// ---------------------------------------------------------------------------------------------
// Verification
// ---------------------------------------------------------------------------------------------

/// What the signature of an update is worth.
#[derive(Debug, Copy, Clone, PartialEq, Eq, Structural)]
pub enum Verdict {
    /// The public key cannot be read.
    KeyInvalid,
    /// The signature cannot be read.
    Malformed,
    /// The signature was not made for this update.
    Mismatch,
    Valid,
}

/// What a signature is worth.
pub open spec fn verdict_of(key_ok: bool, signature_ok: bool, verified: bool) -> Verdict {
    if !key_ok {
        Verdict::KeyInvalid
    } else if !signature_ok {
        Verdict::Malformed
    } else if !verified {
        Verdict::Mismatch
    } else {
        Verdict::Valid
    }
}

/// Judges a signature by what was found out about it.
pub fn judge(key_ok: bool, signature_ok: bool, verified: bool) -> (v: Verdict)
    ensures
        v == verdict_of(key_ok, signature_ok, verified),
{
    if !key_ok {
        Verdict::KeyInvalid
    } else if !signature_ok {
        Verdict::Malformed
    } else if !verified {
        Verdict::Mismatch
    } else {
        Verdict::Valid
    }
}

/// The message that the signature of an update is for.
pub open spec fn update_message(update: DeviceUpdate, product: Seq<char>) -> Seq<u8> {
    message_of(
        update.firmware_version_major,
        update.firmware_version_minor,
        update.firmware_version_patch,
        update.size_bytes,
        update.sha256_hash@,
        product,
    )
}

/// What the signature of an update for a product is worth.
pub open spec fn update_verdict(
    update: DeviceUpdate,
    product: Seq<char>,
    public_key: Seq<u8>,
) -> Verdict {
    verdict_of(
        crypto::is_public_key(public_key),
        crypto::is_signature(update.p256_signature@),
        crypto::verifies(
            public_key,
            update_message(update, product),
            update.p256_signature@,
        ),
    )
}

/// Judges the signature of an update for a product.
pub fn verify_update(update: &DeviceUpdate, product: &str, public_key: &[u8]) -> (v: Verdict)
    ensures
        v == update_verdict(*update, product@, public_key@),
        v == Verdict::Valid ==> update.p256_signature@.len() == 64,
{
    let message = signed_message(
        update.firmware_version_major,
        update.firmware_version_minor,
        update.firmware_version_patch,
        update.size_bytes,
        &update.sha256_hash,
        product,
    );
    let key_ok = crypto::public_key_parses(public_key);
    let signature_ok = crypto::signature_parses(&update.p256_signature);
    let verified = crypto::verify(public_key, &message, &update.p256_signature);
    judge(key_ok, signature_ok, verified)
}

/// The four bytes of a number, the lowest first, add up to it.
pub proof fn lemma_le32(x: u32)
    ensures
        le32(x).len() == 4,
        le32(x)[0] + le32(x)[1] * 0x100 + le32(x)[2] * 0x10000 + le32(x)[3] * 0x1000000 == x,
{
}

/// What is signed begins with the three numbers of the version and the size, four bytes each; then
/// follow the hash and the product, to the end.
pub proof fn lemma_message_layout(
    major: u32,
    minor: u32,
    patch: u32,
    size_bytes: u32,
    sha256_hash: Seq<u8>,
    product: Seq<char>,
)
    ensures
        ({
            let message = message_of(major, minor, patch, size_bytes, sha256_hash, product);
            let n = sha256_hash.len() as int;
            &&& message.take(4) == le32(major)
            &&& message.subrange(4, 8) == le32(minor)
            &&& message.subrange(8, 12) == le32(patch)
            &&& message.subrange(12, 16) == le32(size_bytes)
            &&& message.subrange(16, 16 + n) == sha256_hash
            &&& message.skip(16 + n) == vstd::utf8::encode_utf8(product)
        }),
{
    let message = message_of(major, minor, patch, size_bytes, sha256_hash, product);
    let n = sha256_hash.len() as int;
    assert(message.take(4) =~= le32(major));
    assert(message.subrange(4, 8) =~= le32(minor));
    assert(message.subrange(8, 12) =~= le32(patch));
    assert(message.subrange(12, 16) =~= le32(size_bytes));
    assert(message.subrange(16, 16 + n) =~= sha256_hash);
    assert(message.skip(16 + n) =~= vstd::utf8::encode_utf8(product));
}

/// An update is valid exactly if the key and the signature can be read and the signature verifies,
/// with that key, for the version, the size and the hash of the update and for the product.
pub proof fn lemma_valid_update(update: DeviceUpdate, product: Seq<char>, public_key: Seq<u8>)
    ensures
        ({
            let verdict = update_verdict(update, product, public_key);
            &&& verdict == Verdict::Valid <==> {
                &&& crypto::is_public_key(public_key)
                &&& crypto::is_signature(update.p256_signature@)
                &&& crypto::verifies(
                    public_key,
                    message_of(
                        update.firmware_version_major,
                        update.firmware_version_minor,
                        update.firmware_version_patch,
                        update.size_bytes,
                        update.sha256_hash@,
                        product,
                    ),
                    update.p256_signature@,
                )
            }
            &&& verdict == Verdict::KeyInvalid <==> !crypto::is_public_key(public_key)
            &&& verdict == Verdict::Malformed <==> crypto::is_public_key(public_key)
                && !crypto::is_signature(update.p256_signature@)
        }),
{
}

} // verus!
