use keri::bytes::{push_list, push_u64};
use keri::event::{
    AttachedSignaturePrefix, Event, EventData, EventMessage, EventSeal, InceptionEvent,
    InteractionEvent, KeyConfig, ReceiptTransferable, RotationEvent, SerializationFormats,
    SignedEventMessage, WitnessConfig,
};
use keri::log::LogState;
use keri::parse::parse_signed_message;
use keri::prefix::IdentifierPrefix;
use keri::state::{count_valid_signatures, Error, IdentifierState};
use ursa::keys::PrivateKey;
use ursa::signatures::ed25519::Ed25519Sha512;
use ursa::signatures::SignatureScheme;

fn keypair() -> (Vec<u8>, Vec<u8>) {
    let (pk, sk) = Ed25519Sha512::new().keypair(None).unwrap();
    (pk.0.clone(), sk.0.clone())
}

fn sign_bytes(sk: &[u8], msg: &[u8]) -> Vec<u8> {
    Ed25519Sha512::new().sign(msg, &PrivateKey(sk.to_vec())).unwrap()
}

fn digest(b: &[u8]) -> Vec<u8> {
    blake3::hash(b).as_bytes().to_vec()
}

fn commit(keys: &[Vec<u8>]) -> Vec<u8> {
    let mut out = Vec::new();
    push_list(&mut out, &keys.to_vec());
    digest(&out)
}

fn no_witnesses() -> WitnessConfig {
    WitnessConfig { tally: 0, witnesses: vec![] }
}

fn inception(keys: &[Vec<u8>], threshold: u64, next: &[Vec<u8>]) -> Event {
    let icp = InceptionEvent {
        key_config: KeyConfig {
            threshold,
            public_keys: keys.to_vec(),
            threshold_key_digest: commit(next),
        },
        witness_config: no_witnesses(),
    };
    let prefix = IdentifierPrefix::SelfAddressing(digest(&icp.inception_data()));
    Event { prefix, sn: 0, event_data: EventData::Icp(icp) }
}

fn interaction(state: &IdentifierState, sn: u64) -> Event {
    Event {
        prefix: state.prefix.copy(),
        sn,
        event_data: EventData::Ixn(InteractionEvent { previous_event_hash: digest(&state.last) }),
    }
}

fn rotation(state: &IdentifierState, keys: &[Vec<u8>], next: &[Vec<u8>]) -> Event {
    Event {
        prefix: state.prefix.copy(),
        sn: state.sn + 1,
        event_data: EventData::Rot(RotationEvent {
            previous_event_hash: digest(&state.last),
            key_config: KeyConfig {
                threshold: 1,
                public_keys: keys.to_vec(),
                threshold_key_digest: commit(next),
            },
            witness_config: no_witnesses(),
        }),
    }
}

fn signed(event: Event, signers: &[(u64, &[u8])]) -> SignedEventMessage {
    let message = event.to_message(SerializationFormats::Canonical).unwrap();
    let ser = message.serialize();
    let signatures = signers
        .iter()
        .map(|(i, sk)| AttachedSignaturePrefix { index: *i, signature: sign_bytes(sk, &ser) })
        .collect();
    message.sign(signatures)
}

fn incepted(kp: &(Vec<u8>, Vec<u8>), next: &(Vec<u8>, Vec<u8>)) -> IdentifierState {
    let icp = signed(inception(&[kp.0.clone()], 1, &[next.0.clone()]), &[(0, &kp.1)]);
    IdentifierState::default().verify_and_apply(&icp).unwrap()
}

#[test]
fn u64_is_encoded_big_endian() {
    let mut out = vec![9u8];
    push_u64(&mut out, 0x0102);
    assert_eq!(out, vec![9, 0, 0, 0, 0, 0, 0, 1, 2]);
}

#[test]
fn event_serialization_is_canonical() {
    let e = Event {
        prefix: IdentifierPrefix::Basic(vec![7, 8]),
        sn: 1,
        event_data: EventData::Ixn(InteractionEvent { previous_event_hash: vec![5] }),
    };
    let expected = vec![
        1, 0, 0, 0, 0, 0, 0, 0, 2, 7, 8, // prefix
        0, 0, 0, 0, 0, 0, 0, 1, // sn
        3, 0, 0, 0, 0, 0, 0, 0, 1, 5, // interaction
    ];
    assert_eq!(e.serialize(), expected);
}

#[test]
fn to_message_keeps_event_and_format() {
    let e = Event {
        prefix: IdentifierPrefix::Unset,
        sn: 4,
        event_data: EventData::Ixn(InteractionEvent { previous_event_hash: vec![1, 2] }),
    };
    let ser = e.serialize();
    let m: EventMessage = e.to_message(SerializationFormats::Canonical).unwrap();
    assert_eq!(m.serialization, SerializationFormats::Canonical);
    assert_eq!(m.event.sn, 4);
    assert_eq!(m.serialize(), ser);
}

#[test]
fn inception_installs_keys_and_self_addressing_prefix() {
    let kp = keypair();
    let next = keypair();
    let event = inception(&[kp.0.clone()], 1, &[next.0.clone()]);
    let expected_prefix = match &event.event_data {
        EventData::Icp(icp) => digest(&icp.inception_data()),
        _ => unreachable!(),
    };
    let ser = event.serialize();
    let s = event.apply_to(&IdentifierState::default()).unwrap();
    assert_eq!(s.sn, 0);
    match &s.prefix {
        IdentifierPrefix::SelfAddressing(d) => assert_eq!(d, &expected_prefix),
        _ => panic!("prefix is not self-addressing"),
    }
    assert_eq!(s.current.public_keys, vec![kp.0.clone()]);
    assert_eq!(s.current.threshold_key_digest, commit(&[next.0.clone()]));
    assert_eq!(s.last, ser);
}

#[test]
fn inception_with_another_prefix_is_refused() {
    let kp = keypair();
    let mut event = inception(&[kp.0.clone()], 1, &[kp.0.clone()]);
    event.prefix = IdentifierPrefix::Basic(kp.0.clone());
    assert_eq!(event.apply_to(&IdentifierState::default()).err(), Some(Error::PrefixMismatch));
}

#[test]
fn inception_out_of_sequence_is_refused() {
    let kp = keypair();
    let next = keypair();
    let s = incepted(&kp, &next);
    let again = inception(&[kp.0.clone()], 1, &[next.0.clone()]);
    assert_eq!(again.apply_to(&s).err(), Some(Error::SnMismatch));
    let mut late = inception(&[kp.0.clone()], 1, &[next.0.clone()]);
    late.sn = 1;
    assert_eq!(late.apply_to(&IdentifierState::default()).err(), Some(Error::SnMismatch));
}

#[test]
fn inception_without_keys_is_refused() {
    let kp = keypair();
    let zero = inception(&[kp.0.clone()], 0, &[kp.0.clone()]);
    assert_eq!(zero.apply_to(&IdentifierState::default()).err(), Some(Error::InvalidKeyConfig));
    let empty = inception(&[], 1, &[kp.0.clone()]);
    assert_eq!(empty.apply_to(&IdentifierState::default()).err(), Some(Error::InvalidKeyConfig));
}

#[test]
fn interaction_advances_sn_and_keeps_keys() {
    let kp = keypair();
    let next = keypair();
    let s0 = incepted(&kp, &next);
    let ixn = interaction(&s0, 1);
    let ser = ixn.serialize();
    let s1 = ixn.apply_to(&s0).unwrap();
    assert_eq!(s1.sn, 1);
    assert_eq!(s1.current.public_keys, s0.current.public_keys);
    assert_eq!(s1.current.threshold_key_digest, s0.current.threshold_key_digest);
    assert_eq!(s1.last, ser);
    assert_eq!(s0.sn, 0);
}

#[test]
fn event_out_of_sequence_is_refused() {
    let kp = keypair();
    let next = keypair();
    let s0 = incepted(&kp, &next);
    assert_eq!(interaction(&s0, 0).apply_to(&s0).err(), Some(Error::SnMismatch));
    assert_eq!(interaction(&s0, 2).apply_to(&s0).err(), Some(Error::SnMismatch));
    let mut foreign = interaction(&s0, 1);
    foreign.prefix = IdentifierPrefix::Basic(kp.0.clone());
    assert_eq!(foreign.apply_to(&s0).err(), Some(Error::PrefixMismatch));
}

#[test]
fn applying_twice_gives_the_same_state() {
    let kp = keypair();
    let next = keypair();
    let s0 = incepted(&kp, &next);
    let ixn = interaction(&s0, 1);
    let a = ixn.apply_to(&s0).unwrap();
    let b = ixn.apply_to(&s0).unwrap();
    assert_eq!(a.sn, b.sn);
    assert_eq!(a.last, b.last);
    assert_eq!(a.current.public_keys, b.current.public_keys);
    let replay = ixn.apply_to(&a);
    assert_eq!(replay.err(), Some(Error::SnMismatch));
}

#[test]
fn rotation_with_broken_chain_is_refused() {
    let kp = keypair();
    let next = keypair();
    let s0 = incepted(&kp, &next);
    let mut rot = rotation(&s0, &[next.0.clone()], &[keypair().0]);
    if let EventData::Rot(r) = &mut rot.event_data {
        r.previous_event_hash = digest(b"another event");
    }
    assert_eq!(rot.apply_to(&s0).err(), Some(Error::PreviousEventHashMismatch));
}

#[test]
fn rotation_to_uncommitted_keys_is_refused() {
    let kp = keypair();
    let next = keypair();
    let s0 = incepted(&kp, &next);
    let other = keypair();
    let rot = rotation(&s0, &[other.0.clone()], &[keypair().0]);
    assert_eq!(rot.apply_to(&s0).err(), Some(Error::NextKeyCommitmentMismatch));
    let good = rotation(&s0, &[next.0.clone()], &[other.0.clone()]);
    let s1 = good.apply_to(&s0).unwrap();
    assert_eq!(s1.current.public_keys, vec![next.0.clone()]);
    assert_eq!(s1.current.threshold_key_digest, commit(&[other.0.clone()]));
}

#[test]
fn receipt_is_not_a_log_event() {
    let kp = keypair();
    let next = keypair();
    let s0 = incepted(&kp, &next);
    let vrc = Event {
        prefix: s0.prefix.copy(),
        sn: 1,
        event_data: EventData::Vrc(ReceiptTransferable {
            receipted_event_digest: vec![],
            validator_location_seal: EventSeal { prefix: IdentifierPrefix::Unset, event_digest: vec![] },
        }),
    };
    assert_eq!(vrc.apply_to(&s0).err(), Some(Error::NotALogEvent));
}

#[test]
fn threshold_gate_counts_distinct_valid_signatures() {
    let k: Vec<(Vec<u8>, Vec<u8>)> = (0..3).map(|_| keypair()).collect();
    let keys: Vec<Vec<u8>> = k.iter().map(|p| p.0.clone()).collect();
    let next = keypair();
    let event = || inception(&keys, 2, &[next.0.clone()]);

    let two = signed(event(), &[(0, &k[0].1), (2, &k[2].1)]);
    assert!(IdentifierState::default().verify_and_apply(&two).is_ok());

    let one = signed(event(), &[(1, &k[1].1)]);
    assert_eq!(
        IdentifierState::default().verify_and_apply(&one).err(),
        Some(Error::NotEnoughSignatures)
    );

    let same_key_twice = signed(event(), &[(1, &k[1].1), (1, &k[1].1)]);
    assert_eq!(
        IdentifierState::default().verify_and_apply(&same_key_twice).err(),
        Some(Error::NotEnoughSignatures)
    );

    let wrong_index = signed(event(), &[(0, &k[0].1), (1, &k[2].1)]);
    assert_eq!(
        IdentifierState::default().verify_and_apply(&wrong_index).err(),
        Some(Error::NotEnoughSignatures)
    );

    let mut tampered = signed(event(), &[(0, &k[0].1), (2, &k[2].1)]);
    tampered.signatures[1].signature[0] ^= 1;
    assert_eq!(
        IdentifierState::default().verify_and_apply(&tampered).err(),
        Some(Error::NotEnoughSignatures)
    );
}

#[test]
fn valid_signatures_are_counted_once_per_key() {
    let k: Vec<(Vec<u8>, Vec<u8>)> = (0..3).map(|_| keypair()).collect();
    let keys: Vec<Vec<u8>> = k.iter().map(|p| p.0.clone()).collect();
    let msg = b"message".to_vec();
    let sig = |i: usize| AttachedSignaturePrefix { index: i as u64, signature: sign_bytes(&k[i].1, &msg) };
    assert_eq!(count_valid_signatures(&keys, &msg, &vec![]), 0);
    assert_eq!(count_valid_signatures(&keys, &msg, &vec![sig(0), sig(0), sig(2)]), 2);
    let out_of_range = AttachedSignaturePrefix { index: 7, signature: sign_bytes(&k[0].1, &msg) };
    assert_eq!(count_valid_signatures(&keys, &msg, &vec![out_of_range, sig(1)]), 1);
}

#[test]
fn non_receipts_and_unknown_sn_are_refused() {
    let mut a = LogState::new().unwrap();
    let b = LogState::new().unwrap();
    let not_receipt = a.log[0].copy();
    assert_eq!(a.add_sig(&b.state, not_receipt).err(), Some(Error::NotAReceipt));
    let mut target = a.log[0].copy().event_message;
    target.event.sn = 5;
    let rct = b.make_rct(target).unwrap();
    assert_eq!(a.add_sig(&b.state, rct).err(), Some(Error::IncorrectReceiptSn));
    assert!(a.receipts.is_empty());
    assert!(a.escrow_sigs.is_empty());
}

#[test]
fn end_to_end_inception_interaction_rotation_and_receipt() {
    // A incepts with threshold one and one key
    let mut a = LogState::new().unwrap();
    assert_eq!(a.state.sn, 0);
    assert_eq!(a.state.current.threshold, 1);
    assert_eq!(a.state.current.public_keys, vec![a.keypair.0.clone()]);

    // an interaction at sn 1 applies cleanly
    let keys_before = a.state.current.public_keys.clone();
    let ixn = a.interact().unwrap();
    assert_eq!(ixn.event_message.event.sn, 1);
    assert_eq!(a.state.sn, 1);
    assert_eq!(a.state.current.public_keys, keys_before);
    assert_eq!(a.log.len(), 2);

    // rotation promotes the committed next key and commits to a fresh one
    let committed = a.next_keypair.0.clone();
    let old_commitment = a.state.current.threshold_key_digest.clone();
    let rot = a.rotate().unwrap();
    assert_eq!(rot.event_message.event.sn, 2);
    assert_eq!(a.state.sn, 2);
    assert_eq!(a.state.current.public_keys, vec![committed.clone()]);
    assert_eq!(a.keypair.0, committed);
    assert_eq!(a.state.current.threshold_key_digest, commit(&[a.next_keypair.0.clone()]));
    assert_ne!(a.state.current.threshold_key_digest, old_commitment);
    assert_eq!(a.log.len(), 3);

    // B learns A's inception and receipts it
    let b = LogState::new().unwrap();
    let a_seen_by_b = IdentifierState::default().verify_and_apply(&a.log[0]).unwrap();
    assert_eq!(a_seen_by_b.sn, 0);
    let rct = b.make_rct(a.log[0].copy().event_message).unwrap();
    assert_eq!(rct.event_message.event.sn, 0);
    let tampered_source = rct.copy();
    a.add_sig(&b.state, rct).unwrap();
    assert_eq!(a.receipts.len(), 1);
    assert_eq!(a.receipts[0].event_message.event.sn, 0);
    assert!(a.escrow_sigs.is_empty());

    // a receipt naming another digest is refused
    let mut tampered = tampered_source;
    if let EventData::Vrc(r) = &mut tampered.event_message.event.event_data {
        r.receipted_event_digest[0] ^= 1;
    }
    assert_eq!(a.add_sig(&b.state, tampered).err(), Some(Error::IncorrectReceiptBinding));
    assert_eq!(a.receipts.len(), 1);
}

#[test]
fn receipt_binding_fields_flip_the_outcome() {
    let mut a = LogState::new().unwrap();
    let b = LogState::new().unwrap();
    let c = LogState::new().unwrap();
    let rct = b.make_rct(a.log[0].copy().event_message).unwrap();

    let mut wrong_prefix = rct.copy();
    wrong_prefix.event_message.event.prefix = c.state.prefix.copy();
    assert_eq!(a.add_sig(&b.state, wrong_prefix).err(), Some(Error::IncorrectReceiptBinding));

    let wrong_validator = rct.copy();
    assert_eq!(a.add_sig(&c.state, wrong_validator).err(), Some(Error::IncorrectReceiptBinding));

    let mut wrong_seal = rct.copy();
    if let EventData::Vrc(r) = &mut wrong_seal.event_message.event.event_data {
        r.validator_location_seal.event_digest[0] ^= 1;
    }
    a.add_sig(&b.state, wrong_seal).unwrap();
    assert_eq!(a.escrow_sigs.len(), 1);
    assert!(a.receipts.is_empty());

    let mut bad_signature = rct.copy();
    bad_signature.signatures[0].signature[0] ^= 1;
    assert_eq!(a.add_sig(&b.state, bad_signature).err(), Some(Error::NotEnoughSignatures));

    a.add_sig(&b.state, rct).unwrap();
    assert_eq!(a.receipts.len(), 1);
}

#[test]
fn escrowed_receipt_is_accepted_once_when_resolved() {
    let mut a = LogState::new().unwrap();
    let mut b = LogState::new().unwrap();
    let b_before = IdentifierState::default().verify_and_apply(&b.log[0]).unwrap();
    b.rotate().unwrap();
    let rct = b.make_rct(a.log[0].copy().event_message).unwrap();

    // A only knows B's inception, so the seal cannot be checked yet
    a.add_sig(&b_before, rct).unwrap();
    assert_eq!(a.escrow_sigs.len(), 1);
    assert!(a.receipts.is_empty());

    a.resolve_escrow(&b_before);
    assert_eq!(a.escrow_sigs.len(), 1);
    assert!(a.receipts.is_empty());

    a.resolve_escrow(&b.state);
    assert!(a.escrow_sigs.is_empty());
    assert_eq!(a.receipts.len(), 1);
    assert_eq!(a.receipts[0].event_message.event.sn, 0);

    a.resolve_escrow(&b.state);
    assert!(a.escrow_sigs.is_empty());
    assert_eq!(a.receipts.len(), 1);
}

#[test]
fn signed_message_round_trips_through_its_encoding() {
    let a = LogState::new().unwrap();
    let b = LogState::new().unwrap();
    for m in [a.log[0].copy(), b.make_rct(a.log[0].copy().event_message).unwrap()] {
        let bytes = m.serialize();
        let parsed = parse_signed_message(&bytes).unwrap();
        assert_eq!(parsed.serialize(), bytes);
        assert_eq!(parsed.signatures.len(), 1);
        assert_eq!(parsed.signatures[0].signature, m.signatures[0].signature);
    }
    let parsed = parse_signed_message(&a.log[0].serialize()).unwrap();
    let s = IdentifierState::default().verify_and_apply(&parsed).unwrap();
    assert_eq!(s.last, a.state.last);
}

#[test]
fn malformed_messages_are_not_parsed() {
    let a = LogState::new().unwrap();
    let bytes = a.log[0].serialize();
    assert!(parse_signed_message(&vec![]).is_none());
    assert!(parse_signed_message(&bytes[..bytes.len() - 1].to_vec()).is_none());
    let mut longer = bytes.clone();
    longer.push(0);
    assert!(parse_signed_message(&longer).is_none());
    let mut bad_kind = bytes.clone();
    // a self-addressing prefix takes 1 + 8 + 32 bytes and the sn 8 more: the kind byte follows
    let kind_at = 49;
    assert_eq!(bad_kind[kind_at], 1);
    bad_kind[kind_at] = 9;
    assert!(parse_signed_message(&bad_kind).is_none());
}

#[test]
fn interaction_signed_by_hand_applies() {
    let a = LogState::new().unwrap();
    let ixn = signed(interaction(&a.state, 1), &[(0, &a.keypair.1)]);
    let s1 = a.state.verify_and_apply(&ixn).unwrap();
    assert_eq!(s1.sn, 1);
    assert_eq!(s1.current.public_keys, a.state.current.public_keys);
    let forged = signed(interaction(&a.state, 1), &[(0, &a.next_keypair.1)]);
    assert_eq!(a.state.verify_and_apply(&forged).err(), Some(Error::NotEnoughSignatures));
}

#[test]
fn receipt_events_report_the_broken_invariant_first() {
    let kp = keypair();
    let next = keypair();
    let s0 = incepted(&kp, &next);
    let vrc = |prefix: IdentifierPrefix, sn: u64| Event {
        prefix,
        sn,
        event_data: EventData::Vrc(ReceiptTransferable {
            receipted_event_digest: vec![],
            validator_location_seal: EventSeal { prefix: IdentifierPrefix::Unset, event_digest: vec![] },
        }),
    };
    assert_eq!(vrc(s0.prefix.copy(), 5).apply_to(&s0).err(), Some(Error::SnMismatch));
    assert_eq!(vrc(IdentifierPrefix::Basic(kp.0.clone()), 1).apply_to(&s0).err(), Some(Error::PrefixMismatch));
}

#[test]
fn receipt_sent_again_is_recorded_once() {
    let mut a = LogState::new().unwrap();
    let b = LogState::new().unwrap();
    let rct = b.make_rct(a.log[0].copy().event_message).unwrap();
    a.add_sig(&b.state, rct.copy()).unwrap();
    a.add_sig(&b.state, rct.copy()).unwrap();
    assert_eq!(a.receipts.len(), 1);
    assert!(a.escrow_sigs.is_empty());
}

#[test]
fn escrowed_receipt_accepted_by_add_sig_leaves_escrow() {
    let mut a = LogState::new().unwrap();
    let mut b = LogState::new().unwrap();
    let b_before = IdentifierState::default().verify_and_apply(&b.log[0]).unwrap();
    b.rotate().unwrap();
    let rct = b.make_rct(a.log[0].copy().event_message).unwrap();
    a.add_sig(&b_before, rct.copy()).unwrap();
    a.add_sig(&b_before, rct.copy()).unwrap();
    assert_eq!(a.escrow_sigs.len(), 1);
    a.add_sig(&b.state, rct).unwrap();
    assert!(a.escrow_sigs.is_empty());
    assert_eq!(a.receipts.len(), 1);
    a.resolve_escrow(&b.state);
    assert_eq!(a.receipts.len(), 1);
}

#[test]
fn refused_secret_keys_give_crypto_errors() {
    let kp = keypair();
    let next = keypair();
    let bad = (kp.0.clone(), vec![1u8; 10]);
    assert_eq!(LogState::incept(bad, next.clone()).err(), Some(Error::CryptoError));
    let mut a = LogState::incept(kp.clone(), next.clone()).unwrap();
    let target = a.log[0].copy().event_message;
    a.keypair.1 = vec![0u8; 3];
    assert_eq!(a.make_rct(target).err(), Some(Error::CryptoError));
}

#[test]
fn rotate_to_installs_the_given_next_key() {
    let kp = keypair();
    let next = keypair();
    let fresh = keypair();
    let mut a = LogState::incept(kp.clone(), next.clone()).unwrap();
    let rot = a.rotate_to(fresh.clone()).unwrap();
    assert_eq!(rot.event_message.event.sn, 1);
    assert_eq!(a.keypair, next);
    assert_eq!(a.next_keypair, fresh);
    assert_eq!(a.state.current.public_keys, vec![next.0.clone()]);
    assert_eq!(a.state.current.threshold_key_digest, commit(&[fresh.0.clone()]));
}
