//! What holds of generation and validation together.
use vstd::prelude::*;

use crate::adler32::lemma_single_byte_change_detected;
use crate::license_byte_check::byte_checks_hold;
use crate::license_checksum::{Adler32, HashOperator};
use crate::license_error::LicenseError;
use crate::license_key::{deserialize_view, LicenseKeyStatus, LicenseKeyView};
use crate::license_magic::total_len;
use crate::license_operator::{payload_of, LicenseOperator};
use crate::license_serializer::LicenseKeySerializer;

verus! {

/// A generated key deserializes into its own fields.
proof fn lemma_generated_deserializes<S: LicenseKeySerializer, H: HashOperator>(
    op: LicenseOperator<S, H>,
    seed: Seq<u8>,
)
    requires
        op.spec_generate(seed) is Ok,
    ensures
        ({
            let k = op.spec_generate(seed)->Ok_0;
            &&& deserialize_view(k) == Some(k)
            &&& k.key == op.spec_key_fragment(seed)
            &&& k.payload == payload_of(op.spec_serializer(), k.key, op.spec_magic())
            &&& op.spec_checksum().spec_generate(k.key + k.payload) == Ok::<
                Seq<u8>,
                LicenseError,
            >(k.checksum)
        }),
{
    let k = op.spec_generate(seed)->Ok_0;
    op.lemma_magic_len_bound();
    let key = op.spec_key_fragment(seed);
    let payload = payload_of(op.spec_serializer(), key, op.spec_magic());
    op.spec_checksum().spec_operator().lemma_checksum_len(key + payload, op.spec_checksum().spec_magic());
    let s = k.serialized_key;
    let kl = k.key.len() as int;
    let pl = k.payload.len() as int;
    assert(s.subrange(0, kl) =~= k.key);
    assert(s.subrange(kl, kl + pl) =~= k.payload);
    assert(s.subrange(kl + pl, s.len() as int) =~= k.checksum);
}

/// Round trip: a key generated from any seed validates as `Valid`, where its
/// key fragment is not revoked and every byte-check position lies inside the
/// magic table.
pub proof fn lemma_generate_then_validate<S: LicenseKeySerializer, H: HashOperator>(
    op: LicenseOperator<S, H>,
    seed: Seq<u8>,
)
    requires
        op.spec_generate(seed) is Ok,
        !op.spec_blacklist().contains(op.spec_key_fragment(seed)),
        forall|i: int|
            0 <= i < op.spec_byte_check().len() ==> #[trigger] op.spec_byte_check()[i]
                < op.spec_magic().len(),
    ensures
        op.spec_validate(op.spec_generate(seed)->Ok_0) == LicenseKeyStatus::Valid,
{
    lemma_generated_deserializes(op, seed);
    let k = op.spec_generate(seed)->Ok_0;
    assert(byte_checks_hold(
        op.spec_byte_check(),
        k.payload,
        op.spec_serializer(),
        k.key,
        op.spec_magic(),
    ));
}

/// Tamper detection under Adler-32: replacing any single byte of a generated
/// token's serialized form with another value makes it validate as `Invalid`.
/// A change in the key or payload moves the checksum's `a` accumulator; a
/// change in the checksum field leaves the recomputed checksum as it was.
pub proof fn lemma_tampered_key_invalid<S: LicenseKeySerializer>(
    op: LicenseOperator<S, Adler32>,
    seed: Seq<u8>,
    i: int,
    v: u8,
)
    requires
        op.spec_generate(seed) is Ok,
        0 <= i < op.spec_generate(seed)->Ok_0.serialized_key.len(),
        v != op.spec_generate(seed)->Ok_0.serialized_key[i],
    ensures
        ({
            let k = op.spec_generate(seed)->Ok_0;
            op.spec_validate(
                LicenseKeyView {
                    properties: k.properties,
                    key: k.key,
                    payload: k.payload,
                    checksum: k.checksum,
                    serialized_key: k.serialized_key.update(i, v),
                },
            ) == LicenseKeyStatus::Invalid
        }),
{
    lemma_generated_deserializes(op, seed);
    let k = op.spec_generate(seed)->Ok_0;
    let t = LicenseKeyView {
        properties: k.properties,
        key: k.key,
        payload: k.payload,
        checksum: k.checksum,
        serialized_key: k.serialized_key.update(i, v),
    };
    let s = t.serialized_key;
    let kl = k.key.len() as int;
    let pl = k.payload.len() as int;
    let data = k.key + k.payload;
    let d = deserialize_view(t)->Some_0;
    let init = op.spec_checksum().spec_magic();
    assert(init.len() == 8);
    if i < kl + pl {
        assert(d.key + d.payload =~= data.update(i, v));
        assert(d.checksum =~= k.checksum);
        lemma_single_byte_change_detected(data, init, i, v);
    } else {
        assert(d.key + d.payload =~= data);
        assert(d.checksum[i - kl - pl] == v);
        assert(k.checksum[i - kl - pl] == k.serialized_key[i]);
    }
}

/// Revocation: once the key fragment of `seed` is blacklisted, the key
/// generated from `seed` validates as `Blacklisted`, never `Valid`.
pub proof fn lemma_blacklisted_seed<S: LicenseKeySerializer, H: HashOperator>(
    before: LicenseOperator<S, H>,
    after: LicenseOperator<S, H>,
    seed: Seq<u8>,
)
    requires
        after.spec_blacklisted_from(before, seed),
        after.spec_generate(seed) is Ok,
    ensures
        after.spec_validate(after.spec_generate(seed)->Ok_0) == LicenseKeyStatus::Blacklisted,
{
    lemma_generated_deserializes(after, seed);
    let k = after.spec_generate(seed)->Ok_0;
    assert(after.spec_blacklist().last() == k.key);
}

/// Size boundary: a configured key size no larger than 8 seed bytes, the
/// payload width and 4 checksum bytes always fails with `KeyTooSmall`.
pub proof fn lemma_key_too_small<S: LicenseKeySerializer, H: HashOperator>(
    op: LicenseOperator<S, H>,
    seed: Seq<u8>,
)
    requires
        op.spec_properties().key_size <= 8 + total_len(op.spec_magic()) + 4,
    ensures
        op.spec_generate(seed) matches Err(LicenseError::KeyTooSmall { .. }),
{
}

/// Deserialization boundary: a token shorter than the sizes its properties
/// declare does not deserialize, and so validates as `Invalid`.
pub proof fn lemma_short_token_invalid<S: LicenseKeySerializer, H: HashOperator>(
    op: LicenseOperator<S, H>,
    k: LicenseKeyView,
)
    requires
        k.serialized_key.len() < k.properties.spec_size(),
    ensures
        deserialize_view(k) is None,
        op.spec_validate(k) == LicenseKeyStatus::Invalid,
{
}

} // verus!
