use relay::common::ClientChange;
use relay::common::ClientChangeError;
use relay::common::Transfer;
use relay::common::TransferError;
use relay::server_session::ServerSession;

fn change(old: &[u8], new: &[u8]) -> ClientChange {
    ClientChange::UpdateEmail(old.to_vec(), new.to_vec())
}

fn to(dest: &[u8]) -> Transfer {
    Transfer { from: b"someone".to_vec(), to: dest.to_vec(), content: b"hi".to_vec() }
}

#[test]
fn two_distinct_claims_both_succeed() {
    let mut reg = ServerSession::new();
    assert!(reg.register_with_id(b"TEMPA".to_vec(), 1));
    assert!(reg.register_with_id(b"TEMPB".to_vec(), 2));

    assert_eq!(reg.handle_client_change(change(b"TEMPA", b"a@x.com")), Ok(()));
    assert_eq!(reg.handle_client_change(change(b"TEMPB", b"b@x.com")), Ok(()));

    assert_eq!(reg.len(), 2);
    assert_eq!(reg.handle_transfer(&to(b"a@x.com")), Ok(1));
    assert_eq!(reg.handle_transfer(&to(b"b@x.com")), Ok(2));
}

#[test]
fn second_claim_of_same_identity_fails() {
    let mut reg = ServerSession::new();
    assert!(reg.register_with_id(b"TEMPA".to_vec(), 1));
    assert!(reg.register_with_id(b"TEMPB".to_vec(), 2));

    assert_eq!(reg.handle_client_change(change(b"TEMPA", b"a@x.com")), Ok(()));
    assert_eq!(
        reg.handle_client_change(change(b"TEMPB", b"a@x.com")),
        Err(ClientChangeError::NewEmailAlreadyExisted)
    );

    // The first claimant's entry is untouched and the loser keeps its own.
    assert_eq!(reg.handle_transfer(&to(b"a@x.com")), Ok(1));
    assert_eq!(reg.handle_transfer(&to(b"TEMPB")), Ok(2));
    assert_eq!(reg.len(), 2);
}

#[test]
fn duplicate_registration_refused() {
    let mut reg = ServerSession::new();
    assert!(reg.register_with_id(b"X".to_vec(), 1));
    assert!(!reg.register_with_id(b"X".to_vec(), 2));
    assert_eq!(reg.handle_transfer(&to(b"X")), Ok(1));
    assert_eq!(reg.len(), 1);
}

#[test]
fn rename_of_missing_identity_is_a_quiet_success() {
    let mut reg = ServerSession::new();
    assert!(reg.register_with_id(b"A".to_vec(), 1));
    assert_eq!(reg.handle_client_change(change(b"GONE", b"B")), Ok(()));
    assert_eq!(reg.len(), 1);
    assert!(!reg.contains(&b"B".to_vec()));
}

#[test]
fn deregister_is_idempotent() {
    let mut reg = ServerSession::new();
    assert!(reg.register_with_id(b"a@x.com".to_vec(), 1));

    // Deregistering an identity that was never present is a no-op.
    reg.deregister(&b"ghost@x.com".to_vec());
    assert_eq!(reg.len(), 1);

    reg.deregister(&b"a@x.com".to_vec());
    assert_eq!(reg.len(), 0);

    // Deregistering again is also a no-op and never errors.
    reg.deregister(&b"a@x.com".to_vec());
    assert_eq!(reg.len(), 0);
}

#[test]
fn rename_after_login_frees_the_old_identity() {
    let mut reg = ServerSession::new();
    assert!(reg.register_with_id(b"TEMPA".to_vec(), 1));
    assert_eq!(reg.handle_client_change(change(b"TEMPA", b"a@x.com")), Ok(()));

    assert_eq!(reg.handle_client_change(change(b"a@x.com", b"a2@x.com")), Ok(()));
    assert!(!reg.contains(&b"a@x.com".to_vec()));
    assert_eq!(
        reg.handle_transfer(&to(b"a@x.com")),
        Err(TransferError::DestinationClientOffline)
    );
    assert_eq!(reg.handle_transfer(&to(b"a2@x.com")), Ok(1));
}

#[test]
fn fifty_claims_none_lost_none_duplicated() {
    let mut reg = ServerSession::new();
    for i in 0..50u64 {
        let temp = format!("T{}", i).into_bytes();
        assert!(reg.register_with_id(temp.clone(), i));
        let user = format!("user{}@x.com", i).into_bytes();
        assert_eq!(
            reg.handle_client_change(ClientChange::UpdateEmail(temp, user)),
            Ok(())
        );
    }
    assert_eq!(reg.len(), 50);
    for i in 0..50u64 {
        let user = format!("user{}@x.com", i).into_bytes();
        assert_eq!(reg.handle_transfer(&to(&user)), Ok(i));
        assert!(!reg.contains(&format!("T{}", i).into_bytes()));
    }
}

#[test]
fn register_connection_draws_a_routable_temporary_identity() {
    let mut reg = ServerSession::new();
    let id = reg.register_connection(99).expect("a fresh identifier should not collide");
    assert_eq!(id.len(), 26);
    assert!(!id.contains(&b'\n'));
    for b in &id {
        assert!(b"0123456789ABCDEFGHJKMNPQRSTVWXYZ".contains(b));
    }
    assert!(reg.contains(&id));
    assert_eq!(reg.handle_transfer(&to(&id)), Ok(99));

    // A second connection gets a different identifier.
    let id2 = reg.register_connection(100).expect("a fresh identifier should not collide");
    assert_ne!(id, id2);
    assert_eq!(reg.len(), 2);
}

#[test]
fn stop_hands_back_every_handle_and_empties_the_table() {
    let mut reg = ServerSession::new();
    assert!(reg.register_with_id(b"a".to_vec(), 1));
    assert!(reg.register_with_id(b"b".to_vec(), 2));
    assert!(reg.register_with_id(b"c".to_vec(), 3));

    let mut handles = reg.handle_stop();
    handles.sort();
    assert_eq!(handles, vec![1, 2, 3]);
    assert_eq!(reg.len(), 0);
    assert!(!reg.contains(&b"a".to_vec()));
}

#[test]
fn change_error_message() {
    assert_eq!(
        ClientChangeError::NewEmailAlreadyExisted.message(),
        "new email already existed"
    );
}
