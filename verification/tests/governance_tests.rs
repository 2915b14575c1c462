use blvm_sdk::governance::bip32::{derive_child_public, derive_master_key};
use blvm_sdk::governance::bip44::{Bip44Path, Bip44Wallet, ChangeChain, CoinType};
use blvm_sdk::governance::error::GovernanceError;
use blvm_sdk::governance::psbt::{
    Bip32Derivation, PartiallySignedTransaction, PsbtGlobalKey, PsbtInputKey, SighashType,
};
use blvm_sdk::governance::psbt_map::PsbtMap;
use blvm_sdk::governance::psbt_wire::{
    deserialize_map, read_compact_size, serialize_map, write_compact_size,
};

#[test]
fn test_bip44_path_string() {
    let path = Bip44Path::bitcoin_mainnet(0, ChangeChain::External, 0);
    assert_eq!(path.to_string(), "m/44/0'/0'/0/0");

    let parsed = Bip44Path::from_string("m/44'/0'/0'/0/0").unwrap();
    assert_eq!(parsed.purpose, 44);
    assert_eq!(parsed.coin_type, CoinType::Bitcoin);
    assert_eq!(parsed.account, 0);
    assert_eq!(parsed.change, ChangeChain::External);
    assert_eq!(parsed.address_index, 0);
}

#[test]
fn test_coin_types() {
    assert_eq!(CoinType::Bitcoin.value(), 0);
    assert_eq!(CoinType::BitcoinTestnet.value(), 1);

    let coin = CoinType::from_value(0).unwrap();
    assert_eq!(coin, CoinType::Bitcoin);
}

#[test]
fn test_psbt_creation() {
    let unsigned_tx = vec![0x01, 0x00, 0x00, 0x00];
    let psbt = PartiallySignedTransaction::new(&unsigned_tx).unwrap();

    assert_eq!(psbt.version, 0);
    assert!(psbt.global.contains_key(&vec![PsbtGlobalKey::UnsignedTx.to_byte()]));
}

#[test]
fn test_serialize_deserialize() {
    let unsigned_tx = vec![0x01, 0x00, 0x00, 0x00];
    let mut psbt = PartiallySignedTransaction::new(&unsigned_tx).unwrap();

    psbt.add_partial_signature(0, vec![0x02; 33], vec![0x30; 72]).unwrap();

    let serialized = psbt.serialize().unwrap();
    let deserialized = PartiallySignedTransaction::deserialize(&serialized).unwrap();

    assert_eq!(psbt.global, deserialized.global);
}

#[test]
fn test_compact_size_encoding() {
    let mut result = Vec::new();
    write_compact_size(&mut result, 253).unwrap();
    assert_eq!(result[0], 0xfd);

    let (value, offset) = read_compact_size(&result).unwrap();
    assert_eq!(value, 253);
    assert_eq!(offset, 3);
}

#[test]
fn test_master_key_derivation() {
    let seed = b"Hello, Bitcoin Commons!";
    let (xprv, xpub) = derive_master_key(seed).unwrap();

    assert_eq!(xprv.depth, 0);
    assert_eq!(xpub.depth, 0);
    assert_eq!(xprv.child_number, 0);
    assert_eq!(xpub.child_number, 0);
}

#[test]
fn test_child_derivation() {
    let seed = b"test seed for BIP32";
    let (master_xprv, _master_xpub) = derive_master_key(seed).unwrap();

    let (child_xprv, child_xpub) = master_xprv.derive_child(0).unwrap();

    assert_eq!(child_xprv.depth, 1);
    assert_eq!(child_xpub.depth, 1);
    assert_eq!(child_xprv.child_number, 0);

    let derived_xpub = child_xprv.to_extended_public();
    assert_eq!(derived_xpub.public_key_bytes(), child_xpub.public_key_bytes());
}

#[test]
fn test_hardened_derivation() {
    let seed = b"test seed for hardened derivation";
    let (master_xprv, _) = derive_master_key(seed).unwrap();

    let hardened_index = 0x80000000;
    let (hardened_xprv, _) = master_xprv.derive_child(hardened_index).unwrap();

    assert_eq!(hardened_xprv.child_number, hardened_index);
    assert!(hardened_xprv.child_number >= 0x80000000);
}

#[test]
fn test_bip44_path_derivation() {
    let seed = b"test seed for BIP44 derivation";
    let (master_priv, _) = derive_master_key(seed).unwrap();

    let path = Bip44Path::bitcoin_mainnet(0, ChangeChain::External, 0);
    let (derived_priv, derived_pub) = path.derive(&master_priv).unwrap();

    assert_eq!(derived_priv.depth, 5);
    assert_eq!(derived_pub.depth, 5);
}

#[test]
fn test_bip44_wallet() {
    let seed = b"test seed for BIP44 wallet";
    let wallet = Bip44Wallet::from_seed(seed, CoinType::Bitcoin).unwrap();

    let (receiving_priv, receiving_pub) = wallet.receiving_address(0, 0).unwrap();
    let (change_priv, change_pub) = wallet.change_address(0, 0).unwrap();

    assert_ne!(receiving_priv.private_key_bytes(), change_priv.private_key_bytes());
    assert_ne!(receiving_pub.public_key_bytes(), change_pub.public_key_bytes());
}

// BIP32 test vector 1 (seed 000102...0f): chain m and m/0'.
#[test]
fn bip32_test_vector_one() {
    let seed: Vec<u8> = (0u8..16).collect();
    let (m, m_pub) = derive_master_key(&seed).unwrap();
    assert_eq!(
        m.chain_code.to_vec(),
        hex("873dff81c02f525623fd1fe5167eac3a55a049de3d314bb42ee227ffed37d508")
    );
    assert_eq!(
        m.private_key.to_vec(),
        hex("e8f32e723decf4051aefac8e2c93c9c5b214313817cdb01a1494b917c8436b35")
    );
    assert_eq!(
        m_pub.public_key.to_vec(),
        hex("0339a36013301597daef41fbe593a02cc513d0b55527ec2df1050e2e8ff49c85c2")
    );
    let (c, c_pub) = m.derive_child(0x80000000).unwrap();
    assert_eq!(c.parent_fingerprint.to_vec(), hex("3442193e"));
    assert_eq!(
        c.chain_code.to_vec(),
        hex("47fdacbd0f1097043b78c63c20c34ef4ed9a111d980047ad16282c7ae6236141")
    );
    assert_eq!(
        c.private_key.to_vec(),
        hex("edb2e14f9ee77d26dd93b4ecede8d16ed408ce149b6cd80b0715a2d911a0afea")
    );
    assert_eq!(
        c_pub.public_key.to_vec(),
        hex("035a784662a4a20a65bf6aab9ae98a6c068a81c52e4b032c0fb5400c706cfccc56")
    );
}

// The public derivation of a non-hardened child gives the public key of
// the private derivation.
#[test]
fn public_derivation_matches_private_derivation() {
    let (m, m_pub) = derive_master_key(b"public and private derivation").unwrap();
    let (_, child_pub) = m.derive_child(7).unwrap();
    let from_pub = derive_child_public(&m_pub, 7).unwrap();
    assert_eq!(from_pub.public_key, child_pub.public_key);
    assert_eq!(from_pub.chain_code, child_pub.chain_code);
    assert_eq!(from_pub.parent_fingerprint, child_pub.parent_fingerprint);
    assert_eq!(from_pub.depth, 1);
}

#[test]
fn master_key_rejects_seed_length() {
    match derive_master_key(&[1u8; 15]) {
        Err(GovernanceError::InvalidInput(m)) => assert_eq!(m, "Seed must be 16-64 bytes"),
        other => panic!("unexpected {:?}", other.map(|_| ())),
    }
    match derive_master_key(&[1u8; 65]) {
        Err(GovernanceError::InvalidInput(m)) => assert_eq!(m, "Seed must be 16-64 bytes"),
        other => panic!("unexpected {:?}", other.map(|_| ())),
    }
    assert!(derive_master_key(&[1u8; 16]).is_ok());
    assert!(derive_master_key(&[1u8; 64]).is_ok());
}

#[test]
fn public_derivation_refuses_hardened_index() {
    let (_, m_pub) = derive_master_key(b"hardened public derivation").unwrap();
    match derive_child_public(&m_pub, 0x80000000) {
        Err(GovernanceError::InvalidInput(m)) => {
            assert_eq!(m, "Hardened derivation requires private key")
        }
        other => panic!("unexpected {:?}", other.map(|_| ())),
    }
}

#[test]
fn wallet_account_xpub_is_depth_three() {
    let wallet = Bip44Wallet::from_seed(b"account level public key", CoinType::Bitcoin).unwrap();
    let xpub = wallet.account_xpub(0).unwrap();
    assert_eq!(xpub.depth, 3);
    assert_eq!(xpub.child_number, 0x80000000);
    let (_, addr_pub) = wallet.derive_address(0, ChangeChain::External, 0).unwrap();
    assert_eq!(addr_pub.depth, 5);
}

#[test]
fn account_xpub_watches_its_addresses() {
    let wallet = Bip44Wallet::from_seed(b"watch-only account key", CoinType::Bitcoin).unwrap();
    let xpub = wallet.account_xpub(1).unwrap();
    for (chain, index) in [(ChangeChain::External, 0u32), (ChangeChain::Internal, 7)] {
        let (_, addr_pub) = wallet.derive_address(1, chain, index).unwrap();
        let watched = xpub.derive_child(chain.value()).unwrap().derive_child(index).unwrap();
        assert_eq!(watched.public_key_bytes(), addr_pub.public_key_bytes());
        assert_eq!(watched.chain_code, addr_pub.chain_code);
        assert_eq!(watched.depth, 5);
        assert_eq!(watched.child_number, index);
    }
}

#[test]
fn bip44_path_derivation_depth_and_index() {
    let (m, _) = derive_master_key(b"path derivation depth and index").unwrap();
    let path = Bip44Path::bitcoin_mainnet(2, ChangeChain::External, 9);
    let (xprv, xpub) = path.derive(&m).unwrap();
    assert_eq!(xprv.depth, 5);
    assert_eq!(xpub.depth, 5);
    assert_eq!(xprv.child_number, 9);
    let mut step = m.clone();
    for index in path.to_indices() {
        step = step.derive_child(index).unwrap().0;
    }
    assert_eq!(step.private_key_bytes(), xprv.private_key_bytes());
    assert_eq!(step.chain_code, xprv.chain_code);
}

#[test]
fn bip44_text_round_trip() {
    for (coin, account, change, index) in [
        (CoinType::Bitcoin, 0u32, ChangeChain::External, 0u32),
        (CoinType::BitcoinTestnet, 7, ChangeChain::Internal, 42),
        (CoinType::Ethereum, 4294967295, ChangeChain::External, 123456789),
        (CoinType::Dogecoin, 3, ChangeChain::Internal, 9),
    ] {
        let p = Bip44Path::new(coin, account, change, index);
        let q = Bip44Path::from_string(&p.to_string()).unwrap();
        assert_eq!(p, q);
    }
}

#[test]
fn bip44_path_errors() {
    let cases = [
        (
            "m/44'/0'/0'/0",
            "BIP44 path must have 5 components: purpose'/coin_type'/account'/change/address_index",
        ),
        ("m/45'/0'/0'/0/0", "Purpose must be 44 for BIP44"),
        ("m/44'/7'/0'/0/0", "Unsupported coin type: 7"),
        ("m/44'/0'/0'/2/0", "Change must be 0 (external) or 1 (internal)"),
        ("m/44'/x'/0'/0/0", "Invalid coin type"),
    ];
    for (text, message) in cases {
        match Bip44Path::from_string(text) {
            Err(GovernanceError::InvalidInput(m)) => assert_eq!(m, message),
            other => panic!("unexpected {:?}", other),
        }
    }
}

#[test]
fn bip44_indices_harden_first_three() {
    let p = Bip44Path::bitcoin_testnet(2, ChangeChain::Internal, 5);
    assert_eq!(p.to_indices(), vec![0x8000002c, 0x80000001, 0x80000002, 1, 5]);
}

#[test]
fn coin_type_from_value_errors() {
    match CoinType::from_value(5) {
        Err(GovernanceError::InvalidInput(m)) => assert_eq!(m, "Unsupported coin type: 5"),
        other => panic!("unexpected {:?}", other),
    }
    assert_eq!(CoinType::from_value(60).unwrap(), CoinType::Ethereum);
}

#[test]
fn compact_size_round_trip() {
    for size in [0usize, 1, 252, 253, 0xffff, 0x10000, 0xffff_ffff, 0x1_0000_0000] {
        let mut out = Vec::new();
        write_compact_size(&mut out, size).unwrap();
        let expected_len = if size < 0xfd {
            1
        } else if size <= 0xffff {
            3
        } else if size <= 0xffff_ffff {
            5
        } else {
            9
        };
        assert_eq!(out.len(), expected_len);
        assert_eq!(read_compact_size(&out).unwrap(), (size, expected_len));
    }
}

#[test]
fn compact_size_errors() {
    assert!(read_compact_size(&[]).is_err());
    assert!(read_compact_size(&[0xfd, 0x01]).is_err());
}

#[test]
fn map_round_trip() {
    let mut map = PsbtMap::new();
    map.insert(vec![0x01, 0x02], vec![0xaa; 300]);
    map.insert(vec![0x03], vec![]);
    map.insert(vec![0x01, 0x02], vec![0xbb]);
    assert_eq!(map.len(), 2);
    let mut bytes = Vec::new();
    serialize_map(&mut bytes, &map).unwrap();
    assert_eq!(bytes, vec![0x02, 0x01, 0x02, 0x01, 0xbb, 0x01, 0x03, 0x00, 0x00]);
    let (back, used) = deserialize_map(&bytes).unwrap();
    assert_eq!(back, map);
    assert_eq!(used, bytes.len());
}

#[test]
fn map_key_too_long() {
    let mut bytes = vec![0xfd, 0x09, 0x02];
    bytes.extend(vec![0u8; 521]);
    match deserialize_map(&bytes) {
        Err(GovernanceError::InvalidInput(m)) => {
            assert_eq!(m, "PSBT key too long: 521 bytes (max: 520)")
        }
        other => panic!("unexpected {:?}", other),
    }
    match deserialize_map(&[0x05, 0x01]) {
        Err(GovernanceError::InvalidInput(m)) => assert_eq!(m, "Invalid key length"),
        other => panic!("unexpected {:?}", other),
    }
}

#[test]
fn psbt_round_trip_keeps_every_map() {
    let mut psbt = PartiallySignedTransaction::new(&[0x02, 0x00]).unwrap();
    psbt.add_input_data(0, vec![0x10], vec![0x01]).unwrap();
    psbt.add_input_data(1, vec![0x11], vec![0x02]).unwrap();
    psbt.add_output_data(0, vec![0x20], vec![0x03]).unwrap();
    let bytes = psbt.serialize().unwrap();
    let back = PartiallySignedTransaction::deserialize(&bytes).unwrap();
    assert_eq!(back, psbt);
    assert_eq!(back.inputs.len(), 2);
    assert_eq!(back.outputs.len(), 1);
}

#[test]
fn psbt_round_trip_with_empty_maps() {
    let psbt = PartiallySignedTransaction {
        global: PsbtMap::new(),
        inputs: vec![PsbtMap::new(), PsbtMap::new()],
        outputs: vec![],
        version: 0,
    };
    let back = PartiallySignedTransaction::deserialize(&psbt.serialize().unwrap()).unwrap();
    assert_eq!(back, psbt);
    let outputs_only = PartiallySignedTransaction {
        global: PsbtMap::new(),
        inputs: vec![],
        outputs: vec![PsbtMap::new()],
        version: 0,
    };
    let back = PartiallySignedTransaction::deserialize(&outputs_only.serialize().unwrap()).unwrap();
    assert_eq!(back, outputs_only);
}

fn bare_psbt() -> PartiallySignedTransaction {
    PartiallySignedTransaction { global: PsbtMap::new(), inputs: vec![], outputs: vec![], version: 0 }
}

// One input map: every map is followed by one separator, nothing more.
#[test]
fn psbt_bytes_with_one_input_map() {
    let mut psbt = bare_psbt();
    psbt.global.insert(vec![0x00], vec![0xAA]);
    psbt.inputs.push(PsbtMap::new());
    let bytes = psbt.serialize().unwrap();
    assert_eq!(
        bytes,
        vec![0x70, 0x73, 0x62, 0x74, 0xff, 0x01, 0x00, 0x01, 0xAA, 0x00, 0xff, 0x00, 0xff]
    );
    psbt.add_output_data(0, vec![0x20], vec![0x03]).unwrap();
    let bytes = psbt.serialize().unwrap();
    assert_eq!(
        bytes,
        vec![
            0x70, 0x73, 0x62, 0x74, 0xff, 0x01, 0x00, 0x01, 0xAA, 0x00, 0xff, 0x00, 0xff, 0x01,
            0x20, 0x01, 0x03, 0x00, 0xff
        ]
    );
    let back = PartiallySignedTransaction::deserialize(&bytes).unwrap();
    assert_eq!(back.inputs.len(), 1);
    assert_eq!(back.outputs.len(), 1);
    assert_eq!(back, psbt);
}

// No maps at all: nothing after the global map's separator.
#[test]
fn psbt_bytes_without_maps() {
    assert_eq!(bare_psbt().serialize().unwrap(), vec![0x70, 0x73, 0x62, 0x74, 0xff, 0x00, 0xff]);
}

// Not exactly one input map: a separator before and after the input maps
// marks them off.
#[test]
fn psbt_bytes_mark_off_the_input_maps() {
    let mut psbt = bare_psbt();
    psbt.add_output_data(0, vec![0x20], vec![0x03]).unwrap();
    assert_eq!(
        psbt.serialize().unwrap(),
        vec![0x70, 0x73, 0x62, 0x74, 0xff, 0x00, 0xff, 0xff, 0xff, 0x01, 0x20, 0x01, 0x03, 0x00, 0xff]
    );
    let mut two = bare_psbt();
    two.inputs.push(PsbtMap::new());
    two.inputs.push(PsbtMap::new());
    assert_eq!(
        two.serialize().unwrap(),
        vec![0x70, 0x73, 0x62, 0x74, 0xff, 0x00, 0xff, 0xff, 0x00, 0xff, 0x00, 0xff, 0xff]
    );
}

// Bytes in the plain layout read the first map after the global map as the
// one input map and every later map as an output map.
#[test]
fn psbt_plain_bytes_read_first_map_as_input() {
    let bytes = vec![0x70, 0x73, 0x62, 0x74, 0xff, 0x00, 0xff, 0x00, 0xff, 0x00, 0xff];
    let back = PartiallySignedTransaction::deserialize(&bytes).unwrap();
    assert_eq!(back.inputs.len(), 1);
    assert_eq!(back.outputs.len(), 1);
}

#[test]
fn psbt_deserialize_errors() {
    match PartiallySignedTransaction::deserialize(&[0x70, 0x73, 0x62, 0x75, 0xff]) {
        Err(GovernanceError::InvalidInput(m)) => assert_eq!(m, "Invalid PSBT magic bytes"),
        other => panic!("unexpected {:?}", other),
    }
    match PartiallySignedTransaction::deserialize(&[0x70, 0x73, 0x62, 0x74, 0xff, 0x00]) {
        Err(GovernanceError::InvalidInput(m)) => {
            assert_eq!(m, "Missing separator after global map")
        }
        other => panic!("unexpected {:?}", other),
    }
}

#[test]
fn psbt_version_and_finalization() {
    let mut psbt = PartiallySignedTransaction::new(&[0x01]).unwrap();
    psbt.global.insert(vec![PsbtGlobalKey::Version.to_byte()], vec![0x02, 0x00]);
    let back = PartiallySignedTransaction::deserialize(&psbt.serialize().unwrap()).unwrap();
    assert_eq!(back.version, 2);

    assert!(psbt.is_finalized());
    psbt.add_input_data(0, vec![0x00], vec![0x01]).unwrap();
    assert!(!psbt.is_finalized());
    match psbt.extract_transaction() {
        Err(GovernanceError::InvalidInput(m)) => assert_eq!(m, "PSBT is not finalized"),
        other => panic!("unexpected {:?}", other),
    }
    psbt.add_input_data(0, vec![PsbtInputKey::FinalScriptSig.to_byte()], vec![0x00])
        .unwrap();
    assert!(psbt.is_finalized());
    assert_eq!(psbt.extract_transaction().unwrap(), vec![0x01]);
}

#[test]
fn sighash_bytes() {
    for b in [0x01u8, 0x02, 0x03, 0x81, 0x82, 0x83] {
        assert_eq!(SighashType::from_byte(b).unwrap().to_byte(), b);
    }
    assert!(SighashType::from_byte(0x04).is_none());
    let mut psbt = PartiallySignedTransaction::new(&[0x01]).unwrap();
    psbt.set_sighash_type(0, SighashType::All).unwrap();
    assert_eq!(psbt.inputs[0].get(&[0x03]).unwrap(), &vec![0x01]);
}

#[test]
fn bip32_derivation_records() {
    let mut psbt = PartiallySignedTransaction::new(&[0x01]).unwrap();
    let derivation = Bip32Derivation {
        pubkey: vec![0x02; 33],
        path: vec![0x8000_002c, 1],
        master_fingerprint: [0xde, 0xad, 0xbe, 0xef],
    };
    psbt.add_bip32_derivation(1, vec![0x02, 0x03], derivation).unwrap();
    assert_eq!(psbt.inputs.len(), 2);
    assert!(psbt.inputs[0].is_empty());
    assert_eq!(
        psbt.inputs[1].get(&[0x06, 0x02, 0x03]).unwrap(),
        &vec![0xde, 0xad, 0xbe, 0xef, 0x02, 0x80, 0x00, 0x00, 0x2c, 0x00, 0x00, 0x00, 0x01]
    );
}

fn hex(s: &str) -> Vec<u8> {
    (0..s.len()).step_by(2).map(|i| u8::from_str_radix(&s[i..i + 2], 16).unwrap()).collect()
}
