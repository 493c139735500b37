use deezns::policy::Caller;
use deezns::relay::{
    after_lookup, before_lookup, LookupStep, RelayErrorKind, Relays, UserLookup, ERANGE,
};

#[test]
fn users_resolve_to_their_uids() {
    let me = 1000u32;
    let relays = Relays::resolve(&["me".to_string()], &[UserLookup::Uid(me)]).unwrap();
    assert!(relays.contains(&Caller::new(me, 0, 1)));
    assert!(!relays.contains(&Caller::new(me.wrapping_add(1), 0, 1)));
    assert!(!relays.contains(&Caller::unknown()));
}

#[test]
fn unknown_users_are_an_error() {
    let err = Relays::resolve(
        &["deezns-no-such-user".to_string()],
        &[UserLookup::NoSuchUser],
    )
    .unwrap_err();
    assert_eq!(err.kind(), RelayErrorKind::NotFound);
    assert_eq!(err.user, "deezns-no-such-user");
}

#[test]
fn no_relays_contain_nobody() {
    let relays = Relays::resolve(&[], &[]).unwrap();
    assert!(!relays.contains(&Caller::new(0, 0, 1)));
    assert_eq!(relays, Relays::default());
}

#[test]
fn the_first_user_that_does_not_resolve_is_the_error() {
    let users = ["a".to_string(), "b".to_string(), "c".to_string()];
    let err = Relays::resolve(
        &users,
        &[UserLookup::Uid(1), UserLookup::Failed(5), UserLookup::NoSuchUser],
    )
    .unwrap_err();
    assert_eq!(err.kind(), RelayErrorKind::Os(5));
    assert_eq!(err.user, "b");
}

#[test]
fn a_name_with_a_nul_is_invalid() {
    assert_eq!(before_lookup("nscd"), LookupStep::Grow(1024));
    assert_eq!(before_lookup(""), LookupStep::Grow(1024));
    assert_eq!(before_lookup("ns\0cd"), LookupStep::Done(UserLookup::InvalidName));

    let users = ["a".to_string(), "b\0".to_string(), "c".to_string()];
    let err = Relays::resolve(
        &users,
        &[UserLookup::Uid(1), UserLookup::InvalidName, UserLookup::NoSuchUser],
    )
    .unwrap_err();
    assert_eq!(err.kind(), RelayErrorKind::InvalidInput);
    assert_eq!(err.user, "b\0");

    // Whatever the lookup says.
    let err = Relays::resolve(&users[1..2], &[UserLookup::Uid(7)]).unwrap_err();
    assert_eq!(err.kind(), RelayErrorKind::InvalidInput);
}

#[test]
fn order_and_repeats_do_not_matter() {
    let (a, b) = ("a".to_string(), "b".to_string());
    let (one, two) = (UserLookup::Uid(1), UserLookup::Uid(2));
    let relays = Relays::resolve(&[a.clone(), b.clone(), a.clone()], &[one, two, one]).unwrap();
    assert_eq!(relays, Relays::resolve(&[b, a], &[two, one]).unwrap());
    assert_eq!(relays, Relays::from_uids(&[1, 2]));
}

#[test]
fn relays_can_be_given_by_uid() {
    let relays = Relays::from_uids(&[3, 5, 3]);
    assert!(relays.contains(&Caller::new(3, 0, 1)));
    assert!(relays.contains(&Caller { uid: Some(5), gid: None, pid: None }));
    assert!(!relays.contains(&Caller::new(4, 3, 5)));
    assert!(!relays.contains(&Caller { uid: None, gid: Some(3), pid: Some(3) }));
    assert_eq!(relays, Relays::from_uids(&[5, 3]));
}

#[test]
fn lookups_grow_their_buffer() {
    assert_eq!(ERANGE, libc::ERANGE);
    assert_eq!(after_lookup(0, Some(7), 1024), LookupStep::Done(UserLookup::Uid(7)));
    assert_eq!(after_lookup(0, None, 1024), LookupStep::Done(UserLookup::NoSuchUser));
    assert_eq!(after_lookup(libc::ERANGE, None, 1024), LookupStep::Grow(2048));
    assert_eq!(
        after_lookup(libc::EIO, None, 1024),
        LookupStep::Done(UserLookup::Failed(libc::EIO))
    );
}
