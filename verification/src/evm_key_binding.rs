use vstd::prelude::*;

verus! {

/// The claim of a log author to an external account: the account's address
/// and a signature of the author's identifier by the account's key.
#[derive(Clone, Debug, PartialEq, Eq, Hash)]
pub struct EvmKeyBinding {
    pub evm_key: Vec<u8>,
    pub signature_bytes: Vec<u8>,
}

/// The verdict of a validation.
#[derive(Clone, Debug, PartialEq, Eq)]
pub enum ValidateCallbackResult {
    Valid,
    Invalid(String),
}

/// A link to a binding points at an action without an entry.
#[derive(Clone, Copy, Debug, PartialEq, Eq, Structural)]
pub struct MissingEntry;

/// Bytes in an account's address.
pub const ADDRESS_BYTES: usize = 20;

/// Bytes in a signature: `r`, `s` and the recovery byte.
pub const SIGNATURE_BYTES: usize = 65;

/// Whether, to the `ethers_core` crate, the 65-byte signature is one of the
/// message by the key of the 20-byte address.
pub uninterp spec fn signature_verifies(
    signature: Seq<u8>,
    message: Seq<u8>,
    address: Seq<u8>,
) -> bool;

/// `Signature::try_from` on the 65 bytes, `H160::from_slice` on the 20
/// bytes, then `Signature::verify` of the message taken as data: whether it
/// returned `Ok`. The first two panic on other lengths, which `requires`
/// leaves out.
#[verifier::external_body]
fn verify_signature(signature: &Vec<u8>, message: &Vec<u8>, address: &Vec<u8>) -> (ok: bool)
    requires
        signature@.len() == SIGNATURE_BYTES,
        address@.len() == ADDRESS_BYTES,
    ensures
        ok == signature_verifies(signature@, message@, address@),
{
    let signature = ethers_core::types::Signature::try_from(signature.as_slice()).unwrap();
    let address = ethers_core::types::H160::from_slice(address.as_slice());
    signature.verify(message.as_slice(), address).is_ok()
}

/// The verdict on a new binding.
pub open spec fn create_verdict(author: Seq<u8>, evm_key: Seq<u8>, signature: Seq<u8>) -> (
    bool,
    Seq<char>,
) {
    if signature_verifies(signature, author, evm_key) {
        (true, Seq::empty())
    } else {
        (false, "EVM pubkey binding signature is invalid"@)
    }
}

/// Valid, or invalid with the message.
pub open spec fn verdict_of(result: ValidateCallbackResult) -> (bool, Seq<char>) {
    match result {
        ValidateCallbackResult::Valid => (true, Seq::empty()),
        ValidateCallbackResult::Invalid(message) => (false, message@),
    }
}

/// A binding has the lengths of an address and of a signature.
pub fn well_formed(binding: &EvmKeyBinding) -> (r: bool)
    ensures
        r == (binding.evm_key@.len() == ADDRESS_BYTES && binding.signature_bytes@.len()
            == SIGNATURE_BYTES),
{
    binding.evm_key.len() == ADDRESS_BYTES && binding.signature_bytes.len() == SIGNATURE_BYTES
}

/// Decides on a new binding: it is valid where its signature is one of the
/// author's identifier by the key of the account it names.
pub fn validate_create_evm_key_binding(author: &Vec<u8>, evm_key_binding: &EvmKeyBinding) -> (r:
    ValidateCallbackResult)
    requires
        evm_key_binding.evm_key@.len() == ADDRESS_BYTES,
        evm_key_binding.signature_bytes@.len() == SIGNATURE_BYTES,
    ensures
        verdict_of(r) == create_verdict(
            author@,
            evm_key_binding.evm_key@,
            evm_key_binding.signature_bytes@,
        ),
{
    let verified = verify_signature(
        &evm_key_binding.signature_bytes,
        author,
        &evm_key_binding.evm_key,
    );
    if !verified {
        return ValidateCallbackResult::Invalid("EVM pubkey binding signature is invalid".to_owned());
    }
    ValidateCallbackResult::Valid
}

/// Bindings are never updated.
pub fn validate_update_evm_key_binding(
    evm_key_binding: &EvmKeyBinding,
    previous_evm_key_binding: &EvmKeyBinding,
) -> (r: ValidateCallbackResult)
    ensures
        verdict_of(r) == (false, "Evm Key Bindings cannot be updated"@),
{
    ValidateCallbackResult::Invalid("Evm Key Bindings cannot be updated".to_owned())
}

/// Bindings are never deleted.
pub fn validate_delete_evm_key_binding(previous_evm_key_binding: &EvmKeyBinding) -> (r:
    ValidateCallbackResult)
    ensures
        verdict_of(r) == (false, "Evm Key Bindings cannot be deleted"@),
{
    ValidateCallbackResult::Invalid("Evm Key Bindings cannot be deleted".to_owned())
}

/// A link from an author to a binding is valid where what it points at
/// holds a binding.
pub fn validate_create_link_agent_to_evm_key_binding(linked: Option<&EvmKeyBinding>) -> (r: Result<
    ValidateCallbackResult,
    MissingEntry,
>)
    ensures
        match r {
            Ok(verdict) => linked is Some && verdict == ValidateCallbackResult::Valid,
            Err(_) => linked is None,
        },
{
    match linked {
        Some(_) => Ok(ValidateCallbackResult::Valid),
        None => Err(MissingEntry),
    }
}

/// Links from an author to a binding are never deleted.
pub fn validate_delete_link_agent_to_evm_key_binding() -> (r: ValidateCallbackResult)
    ensures
        verdict_of(r) == (false, "All game moves links cannot be deleted"@),
{
    ValidateCallbackResult::Invalid("All game moves links cannot be deleted".to_owned())
}

} // verus!
