use ethers_core::k256::ecdsa::SigningKey;
use ethers_core::utils::{hash_message, secret_key_to_address};
use fractal_tribute::evm_key_binding::{
    validate_create_evm_key_binding, validate_create_link_agent_to_evm_key_binding,
    validate_delete_evm_key_binding, validate_delete_link_agent_to_evm_key_binding,
    validate_update_evm_key_binding, well_formed, EvmKeyBinding, MissingEntry,
    ValidateCallbackResult,
};

fn invalid(message: &str) -> ValidateCallbackResult {
    ValidateCallbackResult::Invalid(message.to_string())
}

fn signer(seed: u8) -> SigningKey {
    SigningKey::from_slice(&[seed; 32]).unwrap()
}

fn binding_by(key: &SigningKey, author: &[u8]) -> EvmKeyBinding {
    let digest = hash_message(author);
    let (signature, recovery) = key.sign_prehash_recoverable(digest.as_bytes()).unwrap();
    let mut signature_bytes = signature.to_bytes().to_vec();
    signature_bytes.push(27 + recovery.to_byte());
    EvmKeyBinding { evm_key: secret_key_to_address(key).as_bytes().to_vec(), signature_bytes }
}

#[test]
fn binding_signed_by_the_account_is_valid() {
    let author = vec![0x84; 39];
    let binding = binding_by(&signer(7), &author);
    assert!(well_formed(&binding));
    assert_eq!(validate_create_evm_key_binding(&author, &binding), ValidateCallbackResult::Valid);
}

#[test]
fn binding_for_another_account_is_invalid() {
    let author = vec![0x84; 39];
    let mut binding = binding_by(&signer(7), &author);
    binding.evm_key = secret_key_to_address(&signer(8)).as_bytes().to_vec();
    assert_eq!(
        validate_create_evm_key_binding(&author, &binding),
        invalid("EVM pubkey binding signature is invalid")
    );
}

#[test]
fn binding_for_another_author_is_invalid() {
    let binding = binding_by(&signer(7), &[0x84; 39]);
    assert_eq!(
        validate_create_evm_key_binding(&vec![0x85; 39], &binding),
        invalid("EVM pubkey binding signature is invalid")
    );
}

#[test]
fn binding_with_a_broken_signature_is_invalid() {
    let author = vec![0x84; 39];
    let mut binding = binding_by(&signer(7), &author);
    binding.signature_bytes = vec![0; 65];
    assert_eq!(
        validate_create_evm_key_binding(&author, &binding),
        invalid("EVM pubkey binding signature is invalid")
    );
}

#[test]
fn binding_of_other_lengths_is_not_well_formed() {
    assert!(!well_formed(&EvmKeyBinding { evm_key: vec![0; 19], signature_bytes: vec![0; 65] }));
    assert!(!well_formed(&EvmKeyBinding { evm_key: vec![0; 20], signature_bytes: vec![0; 64] }));
    assert!(well_formed(&EvmKeyBinding { evm_key: vec![0; 20], signature_bytes: vec![0; 65] }));
}

#[test]
fn bindings_cannot_be_updated_or_deleted() {
    let binding = EvmKeyBinding { evm_key: vec![0; 20], signature_bytes: vec![0; 65] };
    assert_eq!(
        validate_update_evm_key_binding(&binding, &binding),
        invalid("Evm Key Bindings cannot be updated")
    );
    assert_eq!(
        validate_delete_evm_key_binding(&binding),
        invalid("Evm Key Bindings cannot be deleted")
    );
}

#[test]
fn link_to_a_binding_needs_an_entry() {
    let binding = EvmKeyBinding { evm_key: vec![0; 20], signature_bytes: vec![0; 65] };
    assert_eq!(
        validate_create_link_agent_to_evm_key_binding(Some(&binding)),
        Ok(ValidateCallbackResult::Valid)
    );
    assert_eq!(validate_create_link_agent_to_evm_key_binding(None), Err(MissingEntry));
}

#[test]
fn link_to_a_binding_cannot_be_deleted() {
    assert_eq!(
        validate_delete_link_agent_to_evm_key_binding(),
        invalid("All game moves links cannot be deleted")
    );
}
