use vstd::prelude::*;

verus! {

/// The three bytes that tag an external address.
pub open spec fn external_prefix() -> Seq<u8> {
    seq![132u8, 47u8, 36u8]
}

/// `n` zero bytes.
pub open spec fn zeros(n: nat) -> Seq<u8> {
    Seq::new(n, |i: int| 0u8)
}

/// The Keccak-256 digest of the bytes, as the `ethers_core` crate computes
/// it.
pub uninterp spec fn keccak256_digest(bytes: Seq<u8>) -> Seq<u8>;

/// `ethers_core::utils::keccak256`: the digest of the bytes, 32 bytes long.
#[verifier::external_body]
fn keccak256(bytes: &Vec<u8>) -> (digest: Vec<u8>)
    ensures
        digest@ == keccak256_digest(bytes@),
        digest@.len() == 32,
{
    ethers_core::utils::keccak256(bytes).to_vec()
}

/// What is hashed for an account and a content hash: the account, padded
/// on the left with twelve zero bytes to the width of a 256-bit word, then
/// the content hash.
pub open spec fn link_base_preimage(evm_key: Seq<u8>, content_bytes: Seq<u8>) -> Seq<u8> {
    zeros(12) + evm_key + content_bytes
}

/// The 39-byte address of a token: the tag, the token's identifier as 32
/// big-endian bytes, and four zero bytes.
pub open spec fn token_key(token_id: Seq<u8>) -> Seq<u8> {
    external_prefix() + token_id + zeros(4)
}

/// The address under which the move with the given content hash is
/// registered for the given account.
pub open spec fn link_base(evm_key: Seq<u8>, content_bytes: Seq<u8>) -> Seq<u8> {
    token_key(keccak256_digest(link_base_preimage(evm_key, content_bytes)))
}

/// Every character is a decimal digit.
pub open spec fn is_decimal(text: Seq<char>) -> bool {
    forall|i: int| 0 <= i < text.len() ==> '0' <= #[trigger] text[i] <= '9'
}

/// The number that a string of decimal digits writes; zero for the empty
/// string.
pub open spec fn decimal_value(text: Seq<char>) -> nat
    decreases text.len(),
{
    if text.len() == 0 {
        0
    } else {
        (10 * decimal_value(text.drop_last()) + (text.last() as u32 - '0' as u32)) as nat
    }
}

/// The number written in `len` bytes, most significant byte first. Of a
/// number that needs more bytes, the lowest `len`.
pub open spec fn big_endian(value: nat, len: nat) -> Seq<u8>
    decreases len,
{
    if len == 0 {
        Seq::empty()
    } else {
        big_endian(value / 256, (len - 1) as nat).push((value % 256) as u8)
    }
}

/// Two to the power of 256: the first number that is no token identifier.
pub open spec fn token_id_limit() -> nat {
    0x1_0000_0000_0000_0000_0000_0000_0000_0000_0000_0000_0000_0000_0000_0000_0000_0000nat
}

/// `U256::from_dec_str`, then `U256::to_big_endian` into 32 bytes: the
/// number that the decimal digits write, as 32 big-endian bytes, or `None`
/// where a character is no digit or the number does not fit 256 bits.
#[verifier::external_body]
fn parse_u256(text: &str) -> (r: Option<Vec<u8>>)
    ensures
        match r {
            Some(bytes) => is_decimal(text@) && decimal_value(text@) < token_id_limit()
                && bytes@.len() == 32 && bytes@ == big_endian(decimal_value(text@), 32),
            None => !(is_decimal(text@) && decimal_value(text@) < token_id_limit()),
        },
{
    match ethers_core::types::U256::from_dec_str(text) {
        Ok(value) => {
            let mut bytes = [0u8; 32];
            value.to_big_endian(&mut bytes);
            Some(bytes.to_vec())
        },
        Err(_) => None,
    }
}

/// An account and a content hash for which an address is asked.
#[derive(Clone, Debug, PartialEq, Eq, Hash)]
pub struct LinkBaseInput {
    pub evm_key: Vec<u8>,
    pub content_bytes: Vec<u8>,
}

/// A registration: the address of a token and the move it stands for.
#[derive(Clone, Debug, PartialEq, Eq, Hash)]
pub struct TokenLink {
    pub base: Vec<u8>,
    pub target: Vec<u8>,
}

/// Appends the bytes of `tail` to `bytes`.
fn extend(bytes: &mut Vec<u8>, tail: &Vec<u8>)
    ensures
        final(bytes)@ == old(bytes)@ + tail@,
{
    let ghost before = bytes@;
    let mut i: usize = 0;
    while i < tail.len()
        invariant
            i <= tail@.len(),
            bytes@ == before + tail@.take(i as int),
        decreases tail@.len() - i,
    {
        bytes.push(tail[i]);
        i += 1;
    }
}

/// The Keccak-256 digest of the bytes.
pub fn hash(bytes: &Vec<u8>) -> (digest: Vec<u8>)
    ensures
        digest@ == keccak256_digest(bytes@),
        digest@.len() == 32,
{
    keccak256(bytes)
}

/// The address of the token with the given identifier; `None` unless the
/// identifier is 32 bytes long.
pub fn token_key_of(token_id: &Vec<u8>) -> (r: Option<Vec<u8>>)
    ensures
        r is Some <==> token_id@.len() == 32,
        r matches Some(key) ==> key@ == token_key(token_id@) && key@.len() == 39,
{
    if token_id.len() != 32 {
        return None;
    }
    let mut key: Vec<u8> = Vec::new();
    key.push(132);
    key.push(47);
    key.push(36);
    extend(&mut key, token_id);
    key.push(0);
    key.push(0);
    key.push(0);
    key.push(0);
    Some(key)
}

/// What is hashed for an account and a content hash.
pub fn preimage(evm_key: &Vec<u8>, content_bytes: &Vec<u8>) -> (bytes: Vec<u8>)
    ensures
        bytes@ == link_base_preimage(evm_key@, content_bytes@),
{
    let mut bytes: Vec<u8> = Vec::new();
    let mut i: usize = 0;
    while i < 12
        invariant
            i <= 12,
            bytes@ == zeros(i as nat),
        decreases 12 - i,
    {
        bytes.push(0);
        i += 1;
    }
    extend(&mut bytes, evm_key);
    extend(&mut bytes, content_bytes);
    bytes
}

/// The address under which the move with the given content hash is
/// registered for the given account.
pub fn create_link_base(evm_key: &Vec<u8>, content_bytes: &Vec<u8>) -> (base: Vec<u8>)
    ensures
        base@ == link_base(evm_key@, content_bytes@),
        base@.len() == 39,
{
    let digest = keccak256(&preimage(evm_key, content_bytes));
    match token_key_of(&digest) {
        Some(key) => key,
        None => Vec::new(),
    }
}

/// The address that the input asks for.
pub fn extern_create_link_base(input: &LinkBaseInput) -> (base: Vec<u8>)
    ensures
        base@ == link_base(input.evm_key@, input.content_bytes@),
        base@.len() == 39,
{
    create_link_base(&input.evm_key, &input.content_bytes)
}

/// The registration of a move as the content of the token of an account.
pub fn create_tokenid_for_game_move(evm_key: &Vec<u8>, game_move_hash: Vec<u8>) -> (link: TokenLink)
    ensures
        link.base@ == link_base(evm_key@, game_move_hash@),
        link.target@ == game_move_hash@,
{
    let base = create_link_base(evm_key, &game_move_hash);
    TokenLink { base, target: game_move_hash }
}

/// The address of the token whose identifier the decimal digits write;
/// `None` where the text is no decimal number below two to the 256.
pub fn token_id_to_link_base(token_id: &str) -> (r: Option<Vec<u8>>)
    ensures
        r is Some <==> is_decimal(token_id@) && decimal_value(token_id@) < token_id_limit(),
        r matches Some(key) ==> key@.len() == 39 && key@ == token_key(
            big_endian(decimal_value(token_id@), 32),
        ),
{
    match parse_u256(token_id) {
        Some(id) => token_key_of(&id),
        None => None,
    }
}

/// The token's identifier in its address: the 32 bytes after the tag.
/// `None` unless the address is 39 bytes long.
pub fn token_id_of(base: &Vec<u8>) -> (r: Option<Vec<u8>>)
    ensures
        r is Some <==> base@.len() == 39,
        r matches Some(id) ==> id@ == base@.subrange(3, 35),
{
    if base.len() != 39 {
        return None;
    }
    let mut id: Vec<u8> = Vec::new();
    let mut i: usize = 3;
    while i < 35
        invariant
            3 <= i <= 35,
            base@.len() == 39,
            id@ == base@.subrange(3, i as int),
        decreases 35 - i,
    {
        id.push(base[i]);
        i += 1;
    }
    Some(id)
}

/// The address of a token names its identifier: distinct identifiers have
/// distinct addresses, and the identifier can be read back.
pub proof fn lemma_token_key_injective(first: Seq<u8>, second: Seq<u8>)
    ensures
        token_key(first) == token_key(second) ==> first == second,
        first.len() == 32 ==> token_key(first).len() == 39 && token_key(first).subrange(3, 35)
            == first,
{
    if token_key(first) == token_key(second) {
        assert forall|i: int| 0 <= i < first.len() implies first[i] == second[i] by {
            assert(token_key(first)[3 + i] == first[i]);
        }
    }
}

/// What is hashed names the account and the content hash: for accounts of
/// one length, a change to either input changes what is hashed.
pub proof fn lemma_preimage_injective(
    key1: Seq<u8>,
    content1: Seq<u8>,
    key2: Seq<u8>,
    content2: Seq<u8>,
)
    requires
        key1.len() == key2.len(),
        link_base_preimage(key1, content1) == link_base_preimage(key2, content2),
    ensures
        key1 == key2,
        content1 == content2,
{
    let p1 = link_base_preimage(key1, content1);
    assert(p1.len() == 12 + key1.len() + content1.len());
    assert forall|i: int| 0 <= i < key1.len() implies key1[i] == key2[i] by {
        assert(p1[12 + i] == key1[i]);
    }
    assert forall|i: int| 0 <= i < content1.len() implies content1[i] == content2[i] by {
        assert(p1[12 + key1.len() + i] == content1[i]);
    }
}

/// The address is a function of the account and the content hash, and for
/// accounts of one length a change to either input changes the address,
/// unless the two inputs collide under Keccak-256.
pub proof fn lemma_link_base_distinguishes(
    key1: Seq<u8>,
    content1: Seq<u8>,
    key2: Seq<u8>,
    content2: Seq<u8>,
)
    requires
        key1.len() == key2.len(),
        key1 != key2 || content1 != content2,
    ensures
        link_base_preimage(key1, content1) != link_base_preimage(key2, content2),
        link_base(key1, content1) == link_base(key2, content2) ==> keccak256_digest(
            link_base_preimage(key1, content1),
        ) == keccak256_digest(link_base_preimage(key2, content2)),
{
    if link_base_preimage(key1, content1) == link_base_preimage(key2, content2) {
        lemma_preimage_injective(key1, content1, key2, content2);
    }
    lemma_token_key_injective(
        keccak256_digest(link_base_preimage(key1, content1)),
        keccak256_digest(link_base_preimage(key2, content2)),
    );
}

} // verus!
