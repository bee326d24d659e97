//! The homomorphic capability boundary. The encryption scheme itself is an
//! outside collaborator (the `tfhe` crate); this module declares the key and
//! ciphertext types, and wraps the handful of operations the protocol needs:
//! key generation, encryption, the homomorphic equality test and OR, and
//! decryption. Every ciphertext handle carries, as ghost state, the plaintext
//! it stands for and the key context it belongs to, so that contracts can
//! speak of results without inspecting ciphertexts, and so that values of
//! different key contexts can never be combined. Handles are constructed
//! only inside this module, by the wrappers below, so the ghost plaintext is
//! always what the ciphertext really encrypts, as long as the wrapped
//! `tfhe` operations compute what their documentation says.
use vstd::prelude::*;

verus! {

#[verifier::external_type_specification]
#[verifier::external_body]
pub struct ExClientKey(tfhe::integer::ClientKey);

#[verifier::external_type_specification]
#[verifier::external_body]
pub struct ExServerKey(tfhe::integer::ServerKey);

#[verifier::external_type_specification]
#[verifier::external_body]
pub struct ExShortintCiphertext(tfhe::shortint::Ciphertext);

#[verifier::external_type_specification]
#[verifier::external_body]
#[verifier::reject_recursive_types(Block)]
pub struct ExBaseRadixCiphertext<Block>(tfhe::integer::ciphertext::BaseRadixCiphertext<Block>);

#[verifier::external_type_specification]
#[verifier::external_body]
pub struct ExBooleanBlock(tfhe::integer::BooleanBlock);

/// A session's key pair: the decryption capability (the client key, which
/// also encrypts) and the evaluation capability (the server key, which runs
/// homomorphic operations and cannot decrypt). Constructed only by
/// `KeyContext::generate`, so the two are always of one pair.
pub struct KeyContext {
    client: tfhe::integer::ClientKey,
    server: tfhe::integer::ServerKey,
}

/// Relies on `tfhe::integer::ClientKey::new`: generates a fresh client key
/// with 2-bit message blocks (`PARAM_MESSAGE_2_CARRY_2_KS_PBS`).
#[verifier::external_body]
fn new_client_key() -> tfhe::integer::ClientKey {
    tfhe::integer::ClientKey::new(tfhe::shortint::parameters::PARAM_MESSAGE_2_CARRY_2_KS_PBS)
}

/// Relies on `tfhe::integer::ServerKey::new_radix_server_key`: derives the
/// evaluation key of the given client key.
#[verifier::external_body]
fn new_server_key(ck: &tfhe::integer::ClientKey) -> tfhe::integer::ServerKey {
    tfhe::integer::ServerKey::new_radix_server_key(ck)
}

impl KeyContext {
    /// Creates a fresh session context: a client key and the matching
    /// evaluation key.
    pub fn generate() -> KeyContext {
        let client = new_client_key();
        let server = new_server_key(&client);
        KeyContext { client, server }
    }
}

/// An encrypted integer. Opaque: it is only ever handed to the capability's
/// comparison and decryption operations. The ghost fields record the
/// plaintext it encrypts and the context whose keys made it.
pub struct EncryptedValue {
    ct: tfhe::integer::RadixCiphertext,
    pt: Ghost<u64>,
    kc: Ghost<KeyContext>,
}

impl EncryptedValue {
    /// The plaintext this value encrypts.
    pub closed spec fn plain(self) -> u64 {
        self.pt@
    }

    /// The key context this value belongs to.
    pub closed spec fn context(self) -> KeyContext {
        self.kc@
    }
}

/// An encrypted boolean: the result of a homomorphic equality test or OR.
pub struct EncryptedBool {
    ct: tfhe::integer::BooleanBlock,
    pt: Ghost<bool>,
    kc: Ghost<KeyContext>,
}

impl EncryptedBool {
    /// The truth value this boolean encrypts.
    pub closed spec fn plain(self) -> bool {
        self.pt@
    }

    /// The key context this boolean belongs to.
    pub closed spec fn context(self) -> KeyContext {
        self.kc@
    }
}

/// Relies on `tfhe::integer::ClientKey::encrypt_radix`: encrypting `x` over
/// 8 two-bit blocks (16 bits) gives a ciphertext that decrypts to `x` under
/// the same key.
#[verifier::external_body]
pub(crate) fn encrypt_u16(ctx: &KeyContext, x: u16) -> (r: EncryptedValue)
    ensures
        r.plain() == x as u64,
        r.context() == *ctx,
{
    EncryptedValue { ct: ctx.client.encrypt_radix(x as u64, 8), pt: Ghost(x as u64), kc: Ghost(*ctx) }
}

/// Relies on `tfhe::integer::ClientKey::encrypt_radix`: encrypting `x` over
/// 16 two-bit blocks (32 bits) gives a ciphertext that decrypts to `x` under
/// the same key.
#[verifier::external_body]
pub(crate) fn encrypt_u32(ctx: &KeyContext, x: u32) -> (r: EncryptedValue)
    ensures
        r.plain() == x as u64,
        r.context() == *ctx,
{
    EncryptedValue {
        ct: ctx.client.encrypt_radix(x as u64, 16),
        pt: Ghost(x as u64),
        kc: Ghost(*ctx),
    }
}

/// Relies on `tfhe::integer::ServerKey::scalar_eq_parallelized`: the result
/// encrypts whether the ciphertext's plaintext equals the scalar (a scalar
/// beyond the ciphertext's range equals none of its values).
#[verifier::external_body]
pub(crate) fn eq_scalar(ctx: &KeyContext, v: &EncryptedValue, x: u64) -> (r: EncryptedBool)
    requires
        v.context() == *ctx,
    ensures
        r.plain() == (v.plain() == x),
        r.context() == *ctx,
{
    EncryptedBool {
        ct: ctx.server.scalar_eq_parallelized(&v.ct, x),
        pt: Ghost(v.plain() == x),
        kc: Ghost(*ctx),
    }
}

/// Relies on `tfhe::integer::ServerKey::boolean_bitor`: the result encrypts
/// the logical OR of the two encrypted booleans.
#[verifier::external_body]
pub(crate) fn or_bool(ctx: &KeyContext, a: &EncryptedBool, b: &EncryptedBool) -> (r: EncryptedBool)
    requires
        a.context() == *ctx,
        b.context() == *ctx,
    ensures
        r.plain() == (a.plain() || b.plain()),
        r.context() == *ctx,
{
    EncryptedBool {
        ct: ctx.server.boolean_bitor(&a.ct, &b.ct),
        pt: Ghost(a.plain() || b.plain()),
        kc: Ghost(*ctx),
    }
}

/// Relies on `tfhe::integer::ServerKey::create_trivial_boolean_block`: a
/// trivial encryption of `v`, decryptable like any other encrypted boolean.
#[verifier::external_body]
pub(crate) fn trivial_bool(ctx: &KeyContext, v: bool) -> (r: EncryptedBool)
    ensures
        r.plain() == v,
        r.context() == *ctx,
{
    EncryptedBool { ct: ctx.server.create_trivial_boolean_block(v), pt: Ghost(v), kc: Ghost(*ctx) }
}

/// Relies on `tfhe::integer::ClientKey::decrypt_bool`: decrypting with the
/// key of the context that produced the boolean recovers its truth value.
#[verifier::external_body]
pub(crate) fn decrypt_bool(ctx: &KeyContext, b: &EncryptedBool) -> (r: bool)
    requires
        b.context() == *ctx,
    ensures
        r == b.plain(),
{
    ctx.client.decrypt_bool(&b.ct)
}

} // verus!
