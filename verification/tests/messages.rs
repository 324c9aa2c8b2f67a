use charli3_oracle_core::bounded::BoundedVec;
use charli3_oracle_core::oracle::pallet as unstaked;
use charli3_oracle_core::pallet::{OracleMessage, StakingMessage, WithdrawalMessage};
use charli3_oracle_core::staking_participation::StakingCertificate;
use charli3_oracle_core::{CardanoCbor, CborHashable};

fn from_hex(text: &str) -> Vec<u8> {
    (0..text.len() / 2)
        .map(|i| u8::from_str_radix(&text[2 * i..2 * i + 2], 16).unwrap())
        .collect()
}

fn message() -> OracleMessage {
    OracleMessage {
        channel_id: BoundedVec::truncate_from(vec![1, 2, 3]),
        prices_and_age: BoundedVec::truncate_from(vec![
            Some((1000, 0)),
            None,
            Some((5_000_000_000, 300)),
        ]),
        timestamp: 1_700_000_000_000,
        rewards: BoundedVec::truncate_from(vec![([7; 32], 2)]),
        reward_asset: None,
    }
}

#[test]
fn oracle_message_encodes_for_cardano() {
    let expected = "d8799f430102039fd8799f1903e800ffd87a80d8799f1b000000012a05f20019012cffff\
                    1b0000018bcfe568009f9f582007070707070707070707070707070707070707070707070707\
                    0707070707070702ffffd87a80ff";
    assert_eq!(message().to_cardano_cbor(), from_hex(expected));
    assert_eq!(CardanoCbor::to_cardano_cbor(&message()), from_hex(expected));
}

#[test]
fn oracle_message_hashes_its_encoding() {
    let expected = "fbfed7347d06aba51fd9f9e8430bdd017ba4bf7abfa4366f1e23db65b4413884";
    assert_eq!(message().cardano_cbor_hash().to_vec(), from_hex(expected));
    assert_eq!(CborHashable::cardano_cbor_hash(&message()).to_vec(), from_hex(expected));
}

#[test]
fn oracle_message_encodes_its_reward_asset() {
    let message = OracleMessage {
        channel_id: BoundedVec::new(),
        prices_and_age: BoundedVec::new(),
        timestamp: 5,
        rewards: BoundedVec::new(),
        reward_asset: Some((
            BoundedVec::truncate_from(vec![0xaa]),
            BoundedVec::truncate_from(b"TOK".to_vec()),
        )),
    };
    let expected = "d8799f409fff059fffd8799fd8799f41aa43544f4bffffff";
    assert_eq!(message.to_cardano_cbor(), from_hex(expected));
}

#[test]
fn unstaked_oracle_message_encodes_for_cardano() {
    let message = unstaked::OracleMessage {
        channel_id: BoundedVec::truncate_from(vec![9]),
        prices_and_age: BoundedVec::truncate_from(vec![None, Some((23, 24))]),
        timestamp: 70000,
        rewards: BoundedVec::new(),
    };
    let expected = "d8799f41099fd87a9fffd8799f171818ffff1a000111709fffff";
    assert_eq!(message.to_cardano_cbor(), from_hex(expected));
    assert_eq!(CardanoCbor::to_cardano_cbor(&message), from_hex(expected));
    let hash = "88250728b8b2962ff2eec52c2c98a373085071eddc5688ac57ea680cc56151a3";
    assert_eq!(message.cardano_cbor_hash().to_vec(), from_hex(hash));
    assert_eq!(CborHashable::cardano_cbor_hash(&message).to_vec(), from_hex(hash));
}

#[test]
fn staking_message_encodes_for_cardano() {
    let message = StakingMessage {
        cardano_pkh_admin: BoundedVec::truncate_from(vec![0x11; 28]),
        cardano_pkh_aggregation: BoundedVec::truncate_from(vec![0x22; 28]),
        stake_amount: 1_000_000,
        lock_until: 4096,
    };
    let expected = "d8799f581c11111111111111111111111111111111111111111111111111111111581c2222\
                    22222222222222222222222222222222222222222222222222221a000f4240191000ff";
    assert_eq!(message.to_cardano_cbor(), from_hex(expected));
    assert_eq!(CardanoCbor::to_cardano_cbor(&message), from_hex(expected));
    let hash = "c749856a9d41d2cf90db58bcf3b8387a5cdca9fcca9f51be2e99805f34470b94";
    assert_eq!(message.cardano_cbor_hash().to_vec(), from_hex(hash));
    assert_eq!(CborHashable::cardano_cbor_hash(&message).to_vec(), from_hex(hash));
}

#[test]
fn withdrawal_message_encodes_for_cardano() {
    let message = WithdrawalMessage {
        cardano_pkh_admin: BoundedVec::truncate_from(vec![0x11; 28]),
        approved_amount: 1 << 40,
    };
    let expected =
        "d8799f581c111111111111111111111111111111111111111111111111111111111b0000010000000000ff";
    assert_eq!(message.to_cardano_cbor(), from_hex(expected));
    assert_eq!(CardanoCbor::to_cardano_cbor(&message), from_hex(expected));
    let hash = "80a6605ba4f47d8ea9d802e6fb6b67c6ff507bb74c42cd6db1243a403ea18356";
    assert_eq!(message.cardano_cbor_hash().to_vec(), from_hex(hash));
    assert_eq!(CborHashable::cardano_cbor_hash(&message).to_vec(), from_hex(hash));
}

#[test]
fn participation_certificate_encodes_its_amount_as_bytes() {
    let certificate = StakingCertificate {
        operator_account: BoundedVec::truncate_from(vec![3; 32]),
        cardano_stake_key_hash: BoundedVec::truncate_from(vec![1]),
        sidechain_pubkey: BoundedVec::new(),
        stake_amount: 1000,
        expiry: 255,
        nonce: 256,
    };
    let expected = "9f582003030303030303030303030303030303030303030303030303030303030303034101\
                    4050000000000000000000000000000003e818ff190100ff";
    assert_eq!(certificate.to_cbor(), from_hex(expected));
}

#[test]
fn different_messages_have_different_encodings() {
    let mut other = message();
    other.timestamp += 1;
    assert_ne!(message().to_cardano_cbor(), other.to_cardano_cbor());
    let mut shorter = message();
    shorter.prices_and_age = BoundedVec::truncate_from(vec![Some((1000, 0)), None]);
    assert_ne!(message().to_cardano_cbor(), shorter.to_cardano_cbor());
}
