use blvm_sdk::governance::error::GovernanceError;
use blvm_sdk::governance::nested_multisig::{NestedMultisig, Team, TeamMaintainer};
use blvm_sdk::governance::signatures::{sign_message, verify_signature, PublicKey, Signature};
use secp256k1::{Secp256k1, SecretKey};

fn secret(n: u8) -> [u8; 32] {
    let mut s = [0u8; 32];
    s[31] = n;
    s
}

fn public_key(n: u8) -> PublicKey {
    let sk = SecretKey::from_slice(&secret(n)).unwrap();
    PublicKey::from_bytes(&sk.public_key(&Secp256k1::new()).serialize()).unwrap()
}

fn team(id: &str, members: &[(&str, u8)]) -> Team {
    Team {
        id: id.to_string(),
        name: format!("Team {}", id),
        maintainers: members
            .iter()
            .map(|(g, n)| TeamMaintainer { github: g.to_string(), public_key: public_key(*n) })
            .collect(),
    }
}

#[test]
fn sign_then_verify() {
    let message = b"release v1.0.0";
    let sig = sign_message(&secret(1), message).unwrap();
    assert!(verify_signature(&sig, message, &public_key(1)).unwrap());
    assert!(!verify_signature(&sig, b"release v1.0.1", &public_key(1)).unwrap());
    assert!(!verify_signature(&sig, message, &public_key(2)).unwrap());
    let again = Signature::from_bytes(&sig.to_bytes()).unwrap();
    assert_eq!(again.to_bytes(), sig.to_bytes());
}

#[test]
fn key_and_signature_errors() {
    match PublicKey::from_bytes(&[0x02; 32]) {
        Err(GovernanceError::InvalidKey(m)) => assert_eq!(m, "Invalid public key"),
        other => panic!("unexpected {:?}", other),
    }
    match Signature::from_bytes(&[0u8; 63]) {
        Err(GovernanceError::InvalidSignatureFormat(m)) => assert_eq!(m, "Invalid signature"),
        other => panic!("unexpected {:?}", other),
    }
    match sign_message(&[0u8; 32], b"x") {
        Err(GovernanceError::InvalidKey(m)) => assert_eq!(m, "Invalid secret key"),
        other => panic!("unexpected {:?}", other),
    }
}

#[test]
fn nested_multisig_thresholds() {
    let teams = vec![team("a", &[("alice", 1), ("bob", 2)]), team("b", &[("carol", 3)])];
    match NestedMultisig::new(teams.clone(), 0, 1) {
        Err(GovernanceError::InvalidThreshold { threshold, total }) => {
            assert_eq!((threshold, total), (0, 2))
        }
        other => panic!("unexpected {:?}", other),
    }
    match NestedMultisig::new(teams.clone(), 3, 1) {
        Err(GovernanceError::InvalidThreshold { threshold, total }) => {
            assert_eq!((threshold, total), (3, 2))
        }
        other => panic!("unexpected {:?}", other),
    }
    match NestedMultisig::new(teams.clone(), 1, 0) {
        Err(GovernanceError::InvalidThreshold { threshold, total }) => {
            assert_eq!((threshold, total), (0, 7))
        }
        other => panic!("unexpected {:?}", other),
    }
    match NestedMultisig::new(teams.clone(), 1, 2) {
        Err(GovernanceError::InvalidMultisig(m)) => {
            assert_eq!(m, "Team b has 1 maintainers, but 2 required")
        }
        other => panic!("unexpected {:?}", other),
    }
    assert!(NestedMultisig::new(teams, 2, 1).is_ok());
}

#[test]
fn nested_multisig_counts_team_approvals() {
    let teams = vec![
        team("a", &[("alice", 1), ("bob", 2), ("dave", 4)]),
        team("b", &[("carol", 3), ("erin", 5)]),
        team("c", &[("frank", 6), ("grace", 7)]),
    ];
    let multisig = NestedMultisig::new(teams, 2, 2).unwrap();
    let message = b"module approval";
    let signatures = vec![
        ("alice".to_string(), sign_message(&secret(1), message).unwrap()),
        ("bob".to_string(), sign_message(&secret(2), message).unwrap()),
        ("carol".to_string(), sign_message(&secret(3), message).unwrap()),
        // erin signs with the wrong key: not counted
        ("erin".to_string(), sign_message(&secret(9), message).unwrap()),
        ("frank".to_string(), sign_message(&secret(6), message).unwrap()),
        ("grace".to_string(), sign_message(&secret(7), message).unwrap()),
        // not a maintainer of any team
        ("mallory".to_string(), sign_message(&secret(8), message).unwrap()),
    ];
    let result = multisig.verify(message, &signatures).unwrap();
    assert_eq!(result.teams_required, 2);
    assert_eq!(result.maintainers_required, 4);
    assert_eq!(result.team_details.len(), 3);
    assert_eq!(result.team_details[0].maintainers_signed, 2);
    assert!(result.team_details[0].approved);
    assert_eq!(result.team_details[1].maintainers_signed, 1);
    assert!(!result.team_details[1].approved);
    assert_eq!(result.team_details[2].maintainers_signed, 2);
    assert!(result.team_details[2].approved);
    assert_eq!(result.teams_approved, 2);
    assert_eq!(result.maintainers_approved, 4);
    assert!(result.inter_team_approved);
    assert_eq!(result.team_details[1].team_id, "b");
    assert_eq!(result.team_details[1].team_name, "Team b");
    assert_eq!(result.team_details[1].maintainers_required, 2);
}

#[test]
fn nested_multisig_not_enough_teams() {
    let teams = vec![team("a", &[("alice", 1)]), team("b", &[("bob", 2)])];
    let multisig = NestedMultisig::new(teams, 2, 1).unwrap();
    let message = b"budget decision";
    let signatures = vec![("alice".to_string(), sign_message(&secret(1), message).unwrap())];
    let result = multisig.verify(message, &signatures).unwrap();
    assert_eq!(result.teams_approved, 1);
    assert!(!result.inter_team_approved);
}

#[test]
fn nested_multisig_counts_each_maintainer_once() {
    let teams = vec![team("a", &[("alice", 1), ("bob", 2)]), team("b", &[("carol", 3), ("dave", 4)])];
    let multisig = NestedMultisig::new(teams, 1, 2).unwrap();
    let message = b"one voice";
    let sig = sign_message(&secret(1), message).unwrap();
    let signatures = vec![("alice".to_string(), sig.clone()), ("alice".to_string(), sig)];
    let result = multisig.verify(message, &signatures).unwrap();
    assert_eq!(result.team_details[0].maintainers_signed, 1);
    assert!(!result.team_details[0].approved);
    assert_eq!(result.teams_approved, 0);
    assert!(!result.inter_team_approved);
}

#[test]
fn nested_multisig_ignores_unknown_and_invalid_signatures() {
    let teams = vec![team("a", &[("alice", 1), ("bob", 2)]), team("b", &[("carol", 3)])];
    let multisig = NestedMultisig::new(teams, 1, 1).unwrap();
    let message = b"release";
    let base = vec![("alice".to_string(), sign_message(&secret(1), message).unwrap())];
    let mut more = base.clone();
    more.push(("mallory".to_string(), sign_message(&secret(8), message).unwrap()));
    more.push(("carol".to_string(), sign_message(&secret(9), message).unwrap()));
    let a = multisig.verify(message, &base).unwrap();
    let b = multisig.verify(message, &more).unwrap();
    assert_eq!(a.teams_approved, b.teams_approved);
    assert_eq!(a.maintainers_approved, b.maintainers_approved);
    assert_eq!(a.inter_team_approved, b.inter_team_approved);
    for i in 0..a.team_details.len() {
        assert_eq!(a.team_details[i].maintainers_signed, b.team_details[i].maintainers_signed);
        assert_eq!(a.team_details[i].approved, b.team_details[i].approved);
    }
}
