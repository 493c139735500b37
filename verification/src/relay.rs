//! Relays: users whose lookups a listener passes through unjudged.
//!
//! When front-ends are stacked, one lookup can reach the daemon twice: first
//! with the caller's own credentials, and then, forwarded, with those of the
//! forwarding service. Judging it again would see the service's credentials
//! and undo per-user rules, so the service's user is configured as a relay
//! for the second listener.
//!
//! Users are named in the configuration and looked up once, at startup; a
//! name that does not resolve is a configuration error.
use crate::policy::Caller;
use crate::text::{chars_of, has_char};
use std::collections::HashSet;
use vstd::prelude::*;

verus! {

/// What looking up a user by name came to.
#[derive(Debug, Clone, Copy, PartialEq, Eq, Structural)]
pub enum UserLookup {
    /// The user's uid.
    Uid(u32),
    /// There is no such user.
    NoSuchUser,
    /// No user can have this name: it holds a NUL.
    InvalidName,
    /// The lookup failed, with this `errno`.
    Failed(i32),
}

/// The kind of a [`RelayError`].
#[derive(Debug, Clone, Copy, PartialEq, Eq, Structural)]
pub enum RelayErrorKind {
    /// A relay user does not exist.
    NotFound,
    /// The name of a relay user holds a NUL.
    InvalidInput,
    /// A relay user could not be looked up, with this `errno`.
    Os(i32),
}

/// Why the relay users do not resolve.
#[derive(Debug, Clone, PartialEq, Eq)]
pub struct RelayError {
    /// The first user that does not resolve.
    pub user: String,
    /// What is wrong with that user.
    pub why: RelayErrorKind,
}

impl RelayError {
    /// What is wrong with the user.
    pub fn kind(&self) -> (r: RelayErrorKind)
        ensures
            r == self.why,
    {
        self.why
    }
}

/// What a lookup that gave no uid means for the configuration.
pub open spec fn lookup_error(lookup: UserLookup) -> Option<RelayErrorKind> {
    match lookup {
        UserLookup::Uid(_) => None,
        UserLookup::NoSuchUser => Some(RelayErrorKind::NotFound),
        UserLookup::InvalidName => Some(RelayErrorKind::InvalidInput),
        UserLookup::Failed(errno) => Some(RelayErrorKind::Os(errno)),
    }
}

/// What is wrong with a relay user, if anything: a name with a NUL is no name,
/// whatever the user database says.
pub open spec fn user_error(user: Seq<char>, lookup: UserLookup) -> Option<RelayErrorKind> {
    if user.contains('\0') {
        Some(RelayErrorKind::InvalidInput)
    } else {
        lookup_error(lookup)
    }
}

/// Whether nothing is wrong with any of the users.
pub open spec fn all_resolve(users: Seq<String>, lookups: Seq<UserLookup>) -> bool {
    forall|i: int| 0 <= i < lookups.len() ==> user_error(users[i]@, #[trigger] lookups[i]) is None
}

/// The relays of a listener.
#[derive(Debug, PartialEq, Eq)]
pub struct Relays {
    uids: HashSet<u32>,
}

impl Default for Relays {
    /// No relays.
    fn default() -> (r: Relays)
        ensures
            r@ == Set::<u32>::empty(),
    {
        broadcast use vstd::std_specs::hash::group_hash_axioms;

        Relays { uids: HashSet::new() }
    }
}

impl View for Relays {
    type V = Set<u32>;

    closed spec fn view(&self) -> Set<u32> {
        self.uids@
    }
}

impl Relays {
    /// The relays with the uids that the users were looked up to. Fails on
    /// the first user that has none or whose name holds a NUL.
    pub fn resolve(users: &[String], lookups: &[UserLookup]) -> (r: Result<Relays, RelayError>)
        requires
            users@.len() == lookups@.len(),
        ensures
            match r {
                Ok(relays) => {
                    &&& all_resolve(users@, lookups@)
                    &&& forall|uid: u32| #[trigger]
                        relays@.contains(uid) <==> lookups@.contains(UserLookup::Uid(uid))
                },
                Err(e) => exists|i: int|
                    0 <= i < lookups@.len() && user_error(users@[i]@, #[trigger] lookups@[i])
                        == Some(e.why) && e.user@ == users@[i]@ && forall|j: int|
                        0 <= j < i ==> user_error(users@[j]@, #[trigger] lookups@[j]) is None,
            },
    {
        broadcast use vstd::std_specs::hash::group_hash_axioms;

        let mut uids: HashSet<u32> = HashSet::new();
        for i in 0..users.len()
            invariant
                users@.len() == lookups@.len(),
                forall|j: int|
                    0 <= j < i ==> user_error(users@[j]@, #[trigger] lookups@[j]) is None,
                forall|uid: u32| #[trigger]
                    uids@.contains(uid) <==> lookups@.take(i as int).contains(UserLookup::Uid(uid)),
        {
            broadcast use vstd::std_specs::hash::group_hash_axioms;

            let ghost before = lookups@.take(i as int);
            let ghost after = lookups@.take(i + 1);
            assert(after =~= before.push(lookups@[i as int]));
            assert forall|l: UserLookup| #[trigger]
                after.contains(l) <==> before.contains(l) || l == lookups@[i as int] by {
                assert(after[i as int] == lookups@[i as int]);
                if before.contains(l) {
                    let k = choose|k: int| 0 <= k < before.len() && before[k] == l;
                    assert(after[k] == l);
                }
            }
            let lookup = match before_lookup(users[i].as_str()) {
                LookupStep::Done(lookup) => lookup,
                LookupStep::Grow(_) => lookups[i],
            };
            match lookup {
                UserLookup::Uid(uid) => {
                    uids.insert(uid);
                },
                UserLookup::NoSuchUser => {
                    return Err(
                        RelayError { user: users[i].clone(), why: RelayErrorKind::NotFound },
                    );
                },
                UserLookup::InvalidName => {
                    return Err(
                        RelayError { user: users[i].clone(), why: RelayErrorKind::InvalidInput },
                    );
                },
                UserLookup::Failed(errno) => {
                    return Err(
                        RelayError { user: users[i].clone(), why: RelayErrorKind::Os(errno) },
                    );
                },
            }
        }
        assert(lookups@.take(lookups@.len() as int) =~= lookups@);
        Ok(Relays { uids })
    }

    /// The relays with these uids.
    pub fn from_uids(uids: &[u32]) -> (r: Relays)
        ensures
            forall|uid: u32| #[trigger] r@.contains(uid) <==> uids@.contains(uid),
    {
        broadcast use vstd::std_specs::hash::group_hash_axioms;

        let mut set: HashSet<u32> = HashSet::new();
        for i in 0..uids.len()
            invariant
                forall|uid: u32| #[trigger]
                    set@.contains(uid) <==> uids@.take(i as int).contains(uid),
        {
            broadcast use vstd::std_specs::hash::group_hash_axioms;

            let ghost before = uids@.take(i as int);
            let ghost after = uids@.take(i + 1);
            assert forall|uid: u32| #[trigger]
                after.contains(uid) <==> before.contains(uid) || uid == uids@[i as int] by {
                assert(after[i as int] == uids@[i as int]);
                if before.contains(uid) {
                    let k = choose|k: int| 0 <= k < before.len() && before[k] == uid;
                    assert(after[k] == uid);
                }
                if after.contains(uid) && uid != uids@[i as int] {
                    let k = choose|k: int| 0 <= k < after.len() && after[k] == uid;
                    assert(before[k] == uid);
                }
            }
            set.insert(uids[i]);
        }
        assert(uids@.take(uids@.len() as int) =~= uids@);
        Relays { uids: set }
    }

    /// Whether a caller is one of the relays; an unidentified caller is not.
    pub open spec fn relays(&self, caller: Caller) -> bool {
        match caller.uid {
            Some(uid) => self@.contains(uid),
            None => false,
        }
    }

    /// Whether a caller is one of the relays.
    pub fn contains(&self, caller: &Caller) -> (r: bool)
        ensures
            r == self.relays(*caller),
    {
        broadcast use vstd::std_specs::hash::group_hash_axioms;

        match caller.uid {
            Some(uid) => self.uids.contains(&uid),
            None => false,
        }
    }
}

/// `errno` of a lookup whose buffer is too small.
pub const ERANGE: i32 = 34;

/// What to do after a lookup in the user database.
#[derive(Debug, Clone, Copy, PartialEq, Eq, Structural)]
pub enum LookupStep {
    /// The lookup is done.
    Done(UserLookup),
    /// Look the name up with a buffer of this size.
    Grow(usize),
}

/// The size of the buffer that a lookup starts with.
pub const FIRST_BUFFER: usize = 1024;

/// What to do about a user's name at first: look it up with a buffer of
/// [`FIRST_BUFFER`] bytes, unless it holds a NUL.
pub fn before_lookup(user: &str) -> (r: LookupStep)
    ensures
        r == if user@.contains('\0') {
            LookupStep::Done(UserLookup::InvalidName)
        } else {
            LookupStep::Grow(FIRST_BUFFER)
        },
{
    if has_char(&chars_of(user), '\0') {
        LookupStep::Done(UserLookup::InvalidName)
    } else {
        LookupStep::Grow(FIRST_BUFFER)
    }
}

/// What to do after a lookup that returned `ret`, with the uid of the entry
/// it found, if any, and a buffer of `buf_len` bytes.
pub fn after_lookup(ret: i32, uid: Option<u32>, buf_len: usize) -> (r: LookupStep)
    requires
        buf_len <= usize::MAX / 2,
    ensures
        r == match (ret, uid) {
            (0, Some(uid)) => LookupStep::Done(UserLookup::Uid(uid)),
            (0, None) => LookupStep::Done(UserLookup::NoSuchUser),
            _ => if ret == ERANGE {
                LookupStep::Grow((buf_len * 2) as usize)
            } else {
                LookupStep::Done(UserLookup::Failed(ret))
            },
        },
{
    if ret == 0 {
        match uid {
            Some(uid) => LookupStep::Done(UserLookup::Uid(uid)),
            None => LookupStep::Done(UserLookup::NoSuchUser),
        }
    } else if ret == ERANGE {
        LookupStep::Grow(buf_len * 2)
    } else {
        LookupStep::Done(UserLookup::Failed(ret))
    }
}

/// The users that resolve have exactly the uids in the user database, in
/// whatever order they are named and however often. A user that it does not
/// know, or whose name holds a NUL, makes the whole configuration invalid.
pub proof fn law_relays_are_the_named_users(
    database: Map<Seq<char>, u32>,
    users: Seq<String>,
    lookups: Seq<UserLookup>,
)
    requires
        users.len() == lookups.len(),
        forall|i: int|
            0 <= i < users.len() && !users[i]@.contains('\0') ==> (#[trigger] lookups[i])
                == if database.dom().contains(users[i]@) {
                UserLookup::Uid(database[users[i]@])
            } else {
                UserLookup::NoSuchUser
            },
    ensures
        forall|i: int|
            0 <= i < users.len() ==> user_error(users[i]@, #[trigger] lookups[i])
                == if users[i]@.contains('\0') {
                Some(RelayErrorKind::InvalidInput)
            } else if database.dom().contains(users[i]@) {
                None
            } else {
                Some(RelayErrorKind::NotFound)
            },
        all_resolve(users, lookups) ==> forall|uid: u32| #[trigger]
            lookups.contains(UserLookup::Uid(uid)) <==> exists|i: int|
                0 <= i < users.len() && database.contains_pair(#[trigger] users[i]@, uid),
{
    if all_resolve(users, lookups) {
        assert forall|uid: u32| #[trigger]
            lookups.contains(UserLookup::Uid(uid)) <==> exists|i: int|
                0 <= i < users.len() && database.contains_pair(#[trigger] users[i]@, uid) by {
            if lookups.contains(UserLookup::Uid(uid)) {
                let i = choose|i: int|
                    0 <= i < lookups.len() && lookups[i] == UserLookup::Uid(uid);
                assert(user_error(users[i]@, lookups[i]) is None);
                assert(database.contains_pair(users[i]@, uid));
            }
            if exists|i: int|
                0 <= i < users.len() && database.contains_pair(#[trigger] users[i]@, uid) {
                let i = choose|i: int|
                    0 <= i < users.len() && database.contains_pair(#[trigger] users[i]@, uid);
                assert(user_error(users[i]@, lookups[i]) is None);
                assert(lookups[i] == UserLookup::Uid(uid));
            }
        }
    }
}

/// A caller that is not identified is never a relay.
pub proof fn law_unidentified_callers_are_no_relays(relays: &Relays, caller: Caller)
    requires
        caller.uid is None,
    ensures
        !relays.relays(caller),
{
}

/// A caller is a relay exactly if its uid is known and is one of the relays'.
pub proof fn law_relays_go_by_uid(relays: &Relays, uid: u32, gid: Option<u32>, pid: Option<i32>)
    ensures
        relays.relays(Caller { uid: Some(uid), gid, pid }) == relays@.contains(uid),
        !relays.relays(Caller { uid: None, gid, pid }),
{
}

/// What is wrong with a user: nothing if there is a uid for a name without a
/// NUL; else the name, that there is no such user, or the failed lookup.
pub proof fn law_user_errors(user: Seq<char>, uid: u32, errno: i32)
    ensures
        user.contains('\0') ==> user_error(user, UserLookup::Uid(uid)) == Some(
            RelayErrorKind::InvalidInput,
        ),
        !user.contains('\0') ==> {
            &&& user_error(user, UserLookup::Uid(uid)) is None
            &&& user_error(user, UserLookup::NoSuchUser) == Some(RelayErrorKind::NotFound)
            &&& user_error(user, UserLookup::InvalidName) == Some(RelayErrorKind::InvalidInput)
            &&& user_error(user, UserLookup::Failed(errno)) == Some(RelayErrorKind::Os(errno))
        },
{
}

/// A configuration resolves exactly if nothing is wrong with any of its users.
pub proof fn law_all_users_must_resolve(users: Seq<String>, lookups: Seq<UserLookup>)
    requires
        users.len() == lookups.len(),
    ensures
        all_resolve(users, lookups) <==> forall|i: int|
            0 <= i < users.len() ==> (#[trigger] lookups[i]) is Uid && !users[i]@.contains('\0'),
{
    if all_resolve(users, lookups) {
        assert forall|i: int| 0 <= i < users.len() implies (#[trigger] lookups[i]) is Uid
            && !users[i]@.contains('\0') by {
            assert(user_error(users[i]@, lookups[i]) is None);
        }
    }
}

} // verus!
