//! The calls that transactions carry and the event that announces a market, as bytes.
use vstd::prelude::*;
use vstd::arithmetic::power::pow;

use crate::address::{same_bytes, Address, TxHash};
use crate::u256::{lemma_u256_view, u256_limit, U256};

verus! {

/// A number as a word of thirty-two bytes, the most significant first.
pub open spec fn number_word(n: nat) -> Seq<u8> {
    Seq::new(32, |i: int| (n / (pow(256, (31 - i) as nat) as nat) % 256) as u8)
}

/// An address as a word of thirty-two bytes, behind twelve zeros.
pub open spec fn address_word(address: Seq<u8>) -> Seq<u8> {
    Seq::new(12, |i: int| 0u8) + address
}

/// A truth value as a word of thirty-two bytes.
pub open spec fn bool_word(value: bool) -> Seq<u8> {
    number_word(
        if value {
            1
        } else {
            0
        },
    )
}

/// The arguments of a call of `swapSimple` with no further data: nine words, of which
/// the last two say where the two pieces of data begin, and the lengths of these.
pub open spec fn swap_arguments(
    market: Seq<u8>,
    receiver: Seq<u8>,
    token_id: nat,
    is_mint: bool,
    amount: nat,
    is_exact_in: bool,
    min_out_or_max_in: nat,
) -> Seq<u8> {
    address_word(market) + address_word(receiver) + number_word(token_id) + bool_word(is_mint)
        + number_word(amount) + bool_word(is_exact_in) + number_word(min_out_or_max_in)
        + number_word(9 * 32) + number_word(10 * 32) + number_word(0) + number_word(0)
}

/// The arguments of a call of `approve`.
pub open spec fn approve_arguments(spender: Seq<u8>, amount: nat) -> Seq<u8> {
    address_word(spender) + number_word(amount)
}

/// The Keccak-256 hash of a text in UTF-8.
pub uninterp spec fn keccak(text: Seq<char>) -> Seq<u8>;

/// `keccak256` of `alloy::primitives`: the hash, of thirty-two bytes, is named by the text.
#[verifier::external_body]
fn hash_text(text: &str) -> (hash: [u8; 32])
    ensures
        hash@ == keccak(text@),
{
    alloy::primitives::keccak256(text).0
}

/// `SolValue::abi_encode_params` of `alloy::sol_types`, on the arguments of
/// `swapSimple` with two empty pieces of data: the words of the arguments in
/// their order, then for each piece where it begins, then for each its length.
#[verifier::external_body]
fn encode_swap(
    market: &Address,
    receiver: &Address,
    token_id: U256,
    is_mint: bool,
    amount: U256,
    is_exact_in: bool,
    min_out_or_max_in: U256,
) -> (bytes: Vec<u8>)
    ensures
        bytes@ == swap_arguments(market@, receiver@, token_id@, is_mint, amount@, is_exact_in, min_out_or_max_in@),
{
    let market = alloy::primitives::Address::from(market.bytes);
    let receiver = alloy::primitives::Address::from(receiver.bytes);
    let [id, amount, limit] = [token_id, amount, min_out_or_max_in]
        .map(|n| alloy::primitives::U256::from_limbs([n.w0, n.w1, n.w2, n.w3]));
    let data = alloy::primitives::Bytes::new();
    let params = (is_mint, amount, is_exact_in, limit);
    alloy::sol_types::SolValue::abi_encode_params(&(market, receiver, id, params, data.clone(), data))
}

/// `SolValue::abi_encode_params` of `alloy::sol_types`, on the arguments of
/// `approve`: the words of the arguments in their order.
#[verifier::external_body]
fn encode_approve(spender: &Address, amount: U256) -> (bytes: Vec<u8>)
    ensures
        bytes@ == approve_arguments(spender@, amount@),
{
    let spender = alloy::primitives::Address::from(spender.bytes);
    let amount = alloy::primitives::U256::from_limbs([amount.w0, amount.w1, amount.w2, amount.w3]);
    alloy::sol_types::SolValue::abi_encode_params(&(spender, amount))
}

/// A call of the function with this signature.
pub open spec fn call(signature: Seq<char>, arguments: Seq<u8>) -> Seq<u8> {
    keccak(signature).take(4) + arguments
}

/// The signature of the function through which is bought.
pub open spec fn swap_signature() -> Seq<char> {
    "swapSimple(address,address,uint256,(bool,uint256,bool,uint256),bytes,bytes)"@
}

/// The signature of the function that lets a contract spend a token.
pub open spec fn approve_signature() -> Seq<char> {
    "approve(address,uint256)"@
}

/// A call that mints outcome tokens for an exact amount of collateral.
pub open spec fn mint_call(
    market: Seq<u8>,
    receiver: Seq<u8>,
    token_id: nat,
    amount: nat,
    min_out: nat,
) -> Seq<u8> {
    call(
        swap_signature(),
        swap_arguments(market, receiver, token_id, true, amount, true, min_out),
    )
}

/// A call that lets a contract spend an amount.
pub open spec fn approve_call(spender: Seq<u8>, amount: nat) -> Seq<u8> {
    call(approve_signature(), approve_arguments(spender, amount))
}

/// Puts the first four bytes of a hash before the arguments.
pub fn with_selector(hash: &[u8; 32], arguments: &Vec<u8>) -> (calldata: Vec<u8>)
    ensures
        calldata@ == hash@.take(4) + arguments@,
{
    let mut calldata: Vec<u8> = Vec::new();
    calldata.push(hash[0]);
    calldata.push(hash[1]);
    calldata.push(hash[2]);
    calldata.push(hash[3]);
    proof {
        assert(calldata@ =~= hash@.take(4));
    }
    let mut i: usize = 0;
    while i < arguments.len()
        invariant
            i <= arguments@.len(),
            calldata@ == hash@.take(4) + arguments@.take(i as int),
        decreases arguments@.len() - i,
    {
        calldata.push(arguments[i]);
        proof {
            assert(calldata@ =~= hash@.take(4) + arguments@.take(i + 1));
        }
        i = i + 1;
    }
    proof {
        assert(arguments@.take(i as int) =~= arguments@);
    }
    calldata
}

/// The call that mints outcome tokens for an exact amount of collateral.
pub fn mint_calldata(
    market: &Address,
    receiver: &Address,
    token_id: U256,
    amount: U256,
    min_out: U256,
) -> (calldata: Vec<u8>)
    ensures
        calldata@ == mint_call(market@, receiver@, token_id@, amount@, min_out@),
        calldata@.len() == 356,
        calldata@.subrange(16, 36) == market@,
        calldata@.subrange(48, 68) == receiver@,
        word_value(calldata@.subrange(68, 100)) == token_id@,
        word_value(calldata@.subrange(100, 132)) == 1,
        word_value(calldata@.subrange(132, 164)) == amount@,
        word_value(calldata@.subrange(164, 196)) == 1,
        word_value(calldata@.subrange(196, 228)) == min_out@,
{
    let arguments = encode_swap(market, receiver, token_id, true, amount, true, min_out);
    let hash = hash_text(
        "swapSimple(address,address,uint256,(bool,uint256,bool,uint256),bytes,bytes)",
    );
    proof {
        lemma_u256_view(token_id, amount);
        lemma_u256_view(amount, min_out);
        lemma_u256_view(min_out, amount);
        law_mint_calls_read_back(market@, receiver@, token_id@, amount@, min_out@);
    }
    with_selector(&hash, &arguments)
}

/// The call that lets a contract spend an amount.
pub fn approve_calldata(spender: &Address, amount: U256) -> (calldata: Vec<u8>)
    ensures
        calldata@ == approve_call(spender@, amount@),
        calldata@.len() == 68,
        calldata@.subrange(16, 36) == spender@,
        word_value(calldata@.subrange(36, 68)) == amount@,
{
    let arguments = encode_approve(spender, amount);
    let hash = hash_text("approve(address,uint256)");
    proof {
        lemma_u256_view(amount, amount);
        law_approvals_read_back(spender@, amount@);
    }
    with_selector(&hash, &arguments)
}

/// The number that bytes stand for, the most significant first.
pub open spec fn word_value(word: Seq<u8>) -> nat
    decreases word.len(),
{
    if word.len() == 0 {
        0
    } else {
        256 * word_value(word.drop_last()) + word.last() as nat
    }
}

/// The first bytes of a word stand for the number without its last bytes.
proof fn lemma_word_front(n: nat, k: nat)
    requires
        k <= 32,
        n < u256_limit(),
    ensures
        word_value(number_word(n).take(k as int)) == n / (pow(256, (32 - k) as nat) as nat),
    decreases k,
{
    let word = number_word(n);
    let rest = (32 - k) as nat;
    vstd::arithmetic::power::lemma_pow_positive(256, rest);
    if k == 0 {
        assert(pow(256, 32) == u256_limit()) by {
            reveal_with_fuel(pow, 33);
        }
        assert(n / (pow(256, 32) as nat) == 0) by {
            vstd::arithmetic::div_mod::lemma_basic_div(n as int, pow(256, 32));
        }
    } else {
        lemma_word_front(n, (k - 1) as nat);
        let before = word.take(k as int);
        assert(before.drop_last() =~= word.take(k - 1));
        let p = pow(256, rest);
        assert(before.last() == (n / (p as nat) % 256) as u8);
        assert(pow(256, (rest + 1) as nat) == p * 256) by {
            vstd::arithmetic::power::lemma_pow1(256);
            vstd::arithmetic::power::lemma_pow_adds(256, rest, 1);
        }
        vstd::arithmetic::div_mod::lemma_div_denominator(n as int, p, 256);
        let q = n / (p as nat);
        assert(q / 256 * 256 + q % 256 == q);
    }
}

/// A call to buy holds the market, the receiver, the outcome, the amount and the
/// least yield where the router reads them, and it asks to mint for an exact amount.
pub proof fn law_calls_read_back(
    market: Seq<u8>,
    receiver: Seq<u8>,
    token_id: nat,
    amount: nat,
    min_out: nat,
)
    requires
        market.len() == 20,
        receiver.len() == 20,
        token_id < u256_limit(),
        amount < u256_limit(),
        min_out < u256_limit(),
    ensures
        ({
            let arguments = swap_arguments(market, receiver, token_id, true, amount, true, min_out);
            &&& arguments.len() == 11 * 32
            &&& arguments.subrange(12, 32) == market
            &&& arguments.subrange(44, 64) == receiver
            &&& word_value(arguments.subrange(64, 96)) == token_id
            &&& word_value(arguments.subrange(96, 128)) == 1
            &&& word_value(arguments.subrange(128, 160)) == amount
            &&& word_value(arguments.subrange(160, 192)) == 1
            &&& word_value(arguments.subrange(192, 224)) == min_out
        }),
{
    let arguments = swap_arguments(market, receiver, token_id, true, amount, true, min_out);
    lemma_word_value(token_id);
    lemma_word_value(amount);
    lemma_word_value(min_out);
    lemma_word_value(1);
    assert(arguments.subrange(12, 32) =~= market);
    assert(arguments.subrange(44, 64) =~= receiver);
    assert(arguments.subrange(64, 96) =~= number_word(token_id));
    assert(arguments.subrange(96, 128) =~= number_word(1));
    assert(arguments.subrange(128, 160) =~= number_word(amount));
    assert(arguments.subrange(160, 192) =~= number_word(1));
    assert(arguments.subrange(192, 224) =~= number_word(min_out));
}

/// A word stands for its number.
proof fn lemma_word_value(n: nat)
    requires
        n < u256_limit(),
    ensures
        word_value(number_word(n)) == n,
{
    lemma_word_front(n, 32);
    assert(number_word(n).take(32) =~= number_word(n));
    vstd::arithmetic::power::lemma_pow0(256);
    assert(pow(256, (32 - 32) as nat) as nat == 1);
    assert(n / 1 == n);
}

/// The bytes of a call to buy, behind the four bytes that select the function: where
/// the router reads the market, the receiver, the outcome, that it mints, the amount,
/// that the amount is exact, and the least yield; the two pieces of data are empty.
pub proof fn law_mint_calls_read_back(
    market: Seq<u8>,
    receiver: Seq<u8>,
    token_id: nat,
    amount: nat,
    min_out: nat,
)
    requires
        market.len() == 20,
        receiver.len() == 20,
        token_id < u256_limit(),
        amount < u256_limit(),
        min_out < u256_limit(),
        keccak(
            "swapSimple(address,address,uint256,(bool,uint256,bool,uint256),bytes,bytes)"@,
        ).len() == 32,
    ensures
        ({
            let bytes = mint_call(market, receiver, token_id, amount, min_out);
            &&& bytes.len() == 4 + 11 * 32
            &&& bytes.subrange(0, 4) == keccak(
                "swapSimple(address,address,uint256,(bool,uint256,bool,uint256),bytes,bytes)"@,
            ).subrange(0, 4)
            &&& bytes.subrange(16, 36) == market
            &&& bytes.subrange(48, 68) == receiver
            &&& forall|i: int| 4 <= i < 16 || 36 <= i < 48 ==> #[trigger] bytes[i] == 0
            &&& word_value(bytes.subrange(68, 100)) == token_id
            &&& word_value(bytes.subrange(100, 132)) == 1
            &&& word_value(bytes.subrange(132, 164)) == amount
            &&& word_value(bytes.subrange(164, 196)) == 1
            &&& word_value(bytes.subrange(196, 228)) == min_out
            &&& word_value(bytes.subrange(228, 260)) == 288
            &&& word_value(bytes.subrange(260, 292)) == 320
            &&& word_value(bytes.subrange(292, 324)) == 0
            &&& word_value(bytes.subrange(324, 356)) == 0
        }),
{
    let bytes = mint_call(market, receiver, token_id, amount, min_out);
    lemma_word_value(token_id);
    lemma_word_value(amount);
    lemma_word_value(min_out);
    lemma_word_value(1);
    lemma_word_value(0);
    lemma_word_value(288);
    lemma_word_value(320);
    assert(bytes.subrange(0, 4) =~= keccak(swap_signature()).subrange(0, 4));
    assert(bytes.subrange(16, 36) =~= market);
    assert(bytes.subrange(48, 68) =~= receiver);
    assert(bytes.subrange(68, 100) =~= number_word(token_id));
    assert(bytes.subrange(100, 132) =~= number_word(1));
    assert(bytes.subrange(132, 164) =~= number_word(amount));
    assert(bytes.subrange(164, 196) =~= number_word(1));
    assert(bytes.subrange(196, 228) =~= number_word(min_out));
    assert(bytes.subrange(228, 260) =~= number_word(288));
    assert(bytes.subrange(260, 292) =~= number_word(320));
    assert(bytes.subrange(292, 324) =~= number_word(0));
    assert(bytes.subrange(324, 356) =~= number_word(0));
}

/// The bytes of an approval, behind the four bytes that select the function: the
/// spender behind twelve zeros, and a word of the value of the amount.
pub proof fn law_approvals_read_back(spender: Seq<u8>, amount: nat)
    requires
        spender.len() == 20,
        amount < u256_limit(),
        keccak("approve(address,uint256)"@).len() == 32,
    ensures
        ({
            let bytes = approve_call(spender, amount);
            &&& bytes.len() == 4 + 64
            &&& bytes.subrange(0, 4) == keccak("approve(address,uint256)"@).subrange(0, 4)
            &&& forall|i: int| 4 <= i < 16 ==> #[trigger] bytes[i] == 0
            &&& bytes.subrange(16, 36) == spender
            &&& word_value(bytes.subrange(36, 68)) == amount
        }),
{
    let bytes = approve_call(spender, amount);
    lemma_word_value(amount);
    assert(bytes.subrange(0, 4) =~= keccak(approve_signature()).subrange(0, 4));
    assert(bytes.subrange(16, 36) =~= spender);
    assert(bytes.subrange(36, 68) =~= number_word(amount));
}

/// Two approvals have the same bytes only where they let the same spender spend the
/// same amount.
pub proof fn law_approvals_differ(a: Seq<u8>, b: Seq<u8>, m: nat, n: nat)
    requires
        a.len() == 20,
        b.len() == 20,
        m < u256_limit(),
        n < u256_limit(),
        keccak("approve(address,uint256)"@).len() == 32,
        approve_call(a, m) == approve_call(b, n),
    ensures
        a == b,
        m == n,
{
    law_approvals_read_back(a, m);
    law_approvals_read_back(b, n);
}

/// The signature of the event that announces a market.
pub open spec fn announcement_signature() -> Seq<char> {
    "CreateNewMarket(address,address,uint256,bytes32,address,uint256)"@
}

/// What a log that announces a market says.
pub struct Announcement {
    pub market: Seq<u8>,
    pub collateral: Seq<u8>,
    pub parent_token_id: nat,
    pub question_id: Seq<u8>,
    pub curve: Seq<u8>,
    pub timestamp_start: nat,
}

/// The data of a log that announces a market: at least five words, of which the
/// first and the fourth hold an address in their last twenty bytes. What stands behind
/// the five words is passed over.
pub open spec fn announced_data(market: Seq<u8>, data: Seq<u8>) -> Option<Announcement> {
    if data.len() >= 5 * 32 {
        Some(
            Announcement {
                market,
                collateral: data.subrange(12, 32),
                parent_token_id: word_value(data.subrange(32, 64)),
                question_id: data.subrange(64, 96),
                curve: data.subrange(108, 128),
                timestamp_start: word_value(data.subrange(128, 160)),
            },
        )
    } else {
        None
    }
}

/// What a log announces: it has two topics, the hash of the signature of the event and
/// a word that holds the market in its last twenty bytes, and the data of an announcement.
pub open spec fn announcement_of(topics: Seq<Seq<u8>>, data: Seq<u8>) -> Option<Announcement> {
    if topics.len() == 2 && topics[0] == keccak(announcement_signature()) {
        announced_data(topics[1].subrange(12, 32), data)
    } else {
        None
    }
}

/// A log that was written for an announcement, its fields in their order and each in a
/// word of its own, announces it; what stands behind the words changes nothing.
pub proof fn law_announcements_read_back(announced: Announcement, more: Seq<u8>)
    requires
        announced.market.len() == 20,
        announced.collateral.len() == 20,
        announced.parent_token_id < u256_limit(),
        announced.question_id.len() == 32,
        announced.curve.len() == 20,
        announced.timestamp_start < u256_limit(),
    ensures
        announcement_of(
            seq![
                keccak("CreateNewMarket(address,address,uint256,bytes32,address,uint256)"@),
                address_word(announced.market),
            ],
            address_word(announced.collateral) + number_word(announced.parent_token_id)
                + announced.question_id + address_word(announced.curve) + number_word(
                announced.timestamp_start,
            ) + more,
        ) == Some(announced),
{
    let data = address_word(announced.collateral) + number_word(announced.parent_token_id)
        + announced.question_id + address_word(announced.curve) + number_word(
        announced.timestamp_start,
    ) + more;
    lemma_word_value(announced.parent_token_id);
    lemma_word_value(announced.timestamp_start);
    assert(address_word(announced.market).subrange(12, 32) =~= announced.market);
    assert(data.subrange(12, 32) =~= announced.collateral);
    assert(data.subrange(32, 64) =~= number_word(announced.parent_token_id));
    assert(data.subrange(64, 96) =~= announced.question_id);
    assert(data.subrange(108, 128) =~= announced.curve);
    assert(data.subrange(128, 160) =~= number_word(announced.timestamp_start));
}

/// A log announces a market only with two topics, the hash of the event first, and at
/// least five words of data; such a log always does.
pub proof fn law_only_announcements_announce(topics: Seq<Seq<u8>>, data: Seq<u8>)
    ensures
        announcement_of(topics, data) is Some <==> {
            &&& topics.len() == 2
            &&& topics[0] == keccak(
                "CreateNewMarket(address,address,uint256,bytes32,address,uint256)"@,
            )
            &&& data.len() >= 160
        },
{
}

/// `SolValue::abi_decode_sequence` of `alloy::sol_types`, on an address, a number,
/// thirty-two bytes, an address and a number: each is read from the next word, an
/// address from its last twenty bytes. It fails where there are fewer than five
/// words; what stands behind them is passed over.
#[verifier::external_body]
fn decode_data(data: &Vec<u8>) -> (decoded: Option<(Address, U256, TxHash, Address, U256)>)
    ensures
        decoded is Some == (data@.len() >= 5 * 32),
        decoded matches Some(found) ==> found.0@ == data@.subrange(12, 32),
        decoded matches Some(found) ==> found.1@ == word_value(data@.subrange(32, 64)),
        decoded matches Some(found) ==> found.2@ == data@.subrange(64, 96),
        decoded matches Some(found) ==> found.3@ == data@.subrange(108, 128),
        decoded matches Some(found) ==> found.4@ == word_value(data@.subrange(128, 160)),
{
    let (collateral, id, question, curve, start): (
        alloy::primitives::Address,
        alloy::primitives::U256,
        alloy::primitives::B256,
        alloy::primitives::Address,
        alloy::primitives::U256,
    ) = alloy::sol_types::SolValue::abi_decode_sequence(data).ok()?;
    let [id, start] = [id, start].map(|n| n.into_limbs())
        .map(|[w0, w1, w2, w3]| U256 { w0, w1, w2, w3 });
    let [collateral, curve] = [collateral, curve].map(|a| Address { bytes: a.into_array() });
    Some((collateral, id, TxHash { bytes: question.0 }, curve, start))
}

/// The address in the last twenty bytes of a word.
pub fn address_in(word: &[u8; 32]) -> (address: Address)
    ensures
        address@ == word@.subrange(12, 32),
{
    let mut bytes: [u8; 20] = [0u8; 20];
    let mut i: usize = 0;
    while i < 20
        invariant
            i <= 20,
            forall|k: int| 0 <= k < i ==> bytes@[k] == word@[k + 12],
        decreases 20 - i,
    {
        bytes[i] = word[i + 12];
        i = i + 1;
    }
    let address = Address { bytes };
    proof {
        assert(address@ =~= word@.subrange(12, 32));
    }
    address
}

/// The first topic of the announcement of a market: the hash of its signature. A
/// subscription asks for the logs that have it.
pub fn announcement_topic() -> (topic: [u8; 32])
    ensures
        topic@ == keccak(announcement_signature()),
{
    hash_text("CreateNewMarket(address,address,uint256,bytes32,address,uint256)")
}

/// What a log with two topics and some data announces: the market, its collateral,
/// the token and the question that it stands for, its curve and its start.
pub fn read_announcement(first: &[u8; 32], second: &[u8; 32], data: &Vec<u8>) -> (found: Option<
    (Address, Address, U256, TxHash, Address, U256),
>)
    ensures
        ({
            let announced = announcement_of(seq![first@, second@], data@);
            match found {
                Some((market, collateral, parent_token_id, question_id, curve, timestamp_start)) =>
                    announced == Some(
                    Announcement {
                        market: market@,
                        collateral: collateral@,
                        parent_token_id: parent_token_id@,
                        question_id: question_id@,
                        curve: curve@,
                        timestamp_start: timestamp_start@,
                    },
                ),
                None => announced is None,
            }
        }),
{
    let topic = announcement_topic();
    read_with_hash(&topic, first, second, data)
}

/// What a log announces, when the event that announces a market has this hash.
pub fn read_with_hash(
    hash: &[u8; 32],
    first: &[u8; 32],
    second: &[u8; 32],
    data: &Vec<u8>,
) -> (found: Option<(Address, Address, U256, TxHash, Address, U256)>)
    ensures
        match found {
            Some((market, collateral, parent_token_id, question_id, curve, timestamp_start)) =>
                first@ == hash@ && announced_data(second@.subrange(12, 32), data@) == Some(
                Announcement {
                    market: market@,
                    collateral: collateral@,
                    parent_token_id: parent_token_id@,
                    question_id: question_id@,
                    curve: curve@,
                    timestamp_start: timestamp_start@,
                },
            ),
            None => first@ != hash@ || announced_data(second@.subrange(12, 32), data@) is None,
        },
{
    if !same_bytes(first, hash) {
        return None;
    }
    match decode_data(data) {
        Some((collateral, parent_token_id, question_id, curve, timestamp_start)) => Some(
            (
                address_in(second),
                collateral,
                parent_token_id,
                question_id,
                curve,
                timestamp_start,
            ),
        ),
        None => None,
    }
}

} // verus!
