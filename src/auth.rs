//! The verifier's side of the protocol: a credential registry keyed by user
//! name, a table of open challenges keyed by an opaque id, and the three
//! operations that move an attempt from registration to a session token.
//!
//! Each challenge is answered at most once: answering it, right or wrong,
//! removes it. A second challenge for the same user is an independent entry
//! under a fresh id. The tables are plain values; callers that share one
//! `AuthImpl` between threads hold it behind a lock, which makes each
//! operation atomic.

use crate::bignum::{be_value, BigNum};
use crate::zkp::{is_alphanumeric, proof_accepted, ZKP};
use vstd::prelude::*;

verus! {

/// Length of challenge ids and session tokens.
pub const ID_LENGTH: usize = 12;

/// What the registry knows of a user: the public values `y1 = g^x`, `y2 = h^x`.
pub struct CredentialModel {
    pub y1: nat,
    pub y2: nat,
}

/// An open challenge: whose it is, the commitments and the challenge value.
pub struct ChallengeModel {
    pub user: Seq<char>,
    pub r1: nat,
    pub r2: nat,
    pub c: nat,
}

/// How an answer to a challenge ends.
pub enum AnswerOutcome {
    /// The response verifies: a session token is issued.
    Accepted,
    /// The response does not verify.
    Denied,
    /// No open challenge has that id.
    Unknown,
}

/// The outcome of answering challenge `auth_id` with `s`, against the
/// registry's current credential for the challenge's user.
pub open spec fn answer_outcome(
    group: ZKP,
    credentials: Map<Seq<char>, CredentialModel>,
    challenges: Map<Seq<char>, ChallengeModel>,
    auth_id: Seq<char>,
    s: nat,
) -> AnswerOutcome {
    if !challenges.contains_key(auth_id) {
        AnswerOutcome::Unknown
    } else {
        let ch = challenges[auth_id];
        let cred = credentials[ch.user];
        if proof_accepted(ch.r1, ch.r2, cred.y1, cred.y2, group.g@, group.h@, ch.c, s, group.p@) {
            AnswerOutcome::Accepted
        } else {
            AnswerOutcome::Denied
        }
    }
}

/// A registration replaces any earlier credential of the same user: after
/// registering `first` and then `second`, the registry is as if only `second`
/// had been registered, and every later answer is checked against `second`.
pub proof fn reregistration_replaces(
    credentials: Map<Seq<char>, CredentialModel>,
    user: Seq<char>,
    first: CredentialModel,
    second: CredentialModel,
    group: ZKP,
    challenges: Map<Seq<char>, ChallengeModel>,
    auth_id: Seq<char>,
    s: nat,
)
    ensures
        credentials.insert(user, first).insert(user, second) == credentials.insert(user, second),
        credentials.insert(user, first).insert(user, second)[user] == second,
        answer_outcome(group, credentials.insert(user, first).insert(user, second), challenges, auth_id, s)
            == answer_outcome(group, credentials.insert(user, second), challenges, auth_id, s),
{
    assert(credentials.insert(user, first).insert(user, second) =~= credentials.insert(user, second));
}

/// Two challenges opened one after the other keep their own commitments and
/// challenge values: the second, which is only opened under an id that is not
/// yet in use, leaves the first one's entry as it was.
pub proof fn challenges_do_not_interfere(
    challenges: Map<Seq<char>, ChallengeModel>,
    id1: Seq<char>,
    first: ChallengeModel,
    id2: Seq<char>,
    second: ChallengeModel,
)
    requires
        !challenges.insert(id1, first).contains_key(id2),
    ensures
        challenges.insert(id1, first).insert(id2, second)[id1] == first,
        challenges.insert(id1, first).insert(id2, second)[id2] == second,
{
}

/// A challenge is answered at most once: after any answer to `auth_id` the
/// challenge is gone, so a second answer, with any response, finds nothing.
pub proof fn answer_is_not_replayable(
    group: ZKP,
    credentials: Map<Seq<char>, CredentialModel>,
    challenges: Map<Seq<char>, ChallengeModel>,
    auth_id: Seq<char>,
    s: nat,
)
    ensures
        answer_outcome(group, credentials, challenges.remove(auth_id), auth_id, s)
            == AnswerOutcome::Unknown,
{
}

/// Why an operation failed; each names the identifier it concerns.
#[derive(Debug, PartialEq, Eq)]
pub enum AuthError {
    /// No credential is registered under this user name.
    UserNotFound(String),
    /// No open challenge has this id.
    AuthIdNotFound(String),
    /// The response to this challenge does not verify.
    PermissionDenied(String),
    /// An open challenge already has this id.
    AuthIdInUse(String),
}

/// A registered user.
#[derive(Debug)]
pub struct UserInfo {
    pub user_name: String,
    pub y1: BigNum,
    pub y2: BigNum,
}

impl UserInfo {
    pub open spec fn model(&self) -> CredentialModel {
        CredentialModel { y1: self.y1@, y2: self.y2@ }
    }
}

/// An open challenge.
#[derive(Debug)]
pub struct Challenge {
    pub auth_id: String,
    pub user_name: String,
    pub r1: BigNum,
    pub r2: BigNum,
    pub c: BigNum,
}

impl Challenge {
    pub open spec fn model(&self) -> ChallengeModel {
        ChallengeModel { user: self.user_name@, r1: self.r1@, r2: self.r2@, c: self.c@ }
    }
}

/// The verifier's state: the group, the registry and the open challenges.
pub struct AuthImpl {
    zkp: ZKP,
    user_info: Vec<UserInfo>,
    challenges: Vec<Challenge>,
    registry: Ghost<Map<Seq<char>, CredentialModel>>,
    pending: Ghost<Map<Seq<char>, ChallengeModel>>,
}

impl AuthImpl {
    /// The group that responses are checked in.
    pub closed spec fn group(&self) -> ZKP {
        self.zkp
    }

    /// The registered credentials, by user name.
    pub closed spec fn credentials(&self) -> Map<Seq<char>, CredentialModel> {
        self.registry@
    }

    /// The open challenges, by id.
    pub closed spec fn open_challenges(&self) -> Map<Seq<char>, ChallengeModel> {
        self.pending@
    }

    /// Every entry of the registry is in the model, under its own name.
    closed spec fn users_in_model(&self) -> bool {
        forall|i: int|
            0 <= i < self.user_info@.len() ==> {
                &&& #[trigger] self.registry@.contains_key(self.user_info@[i].user_name@)
                &&& self.registry@[self.user_info@[i].user_name@] == self.user_info@[i].model()
            }
    }

    /// Every user of the model has an entry.
    closed spec fn model_in_users(&self) -> bool {
        forall|k: Seq<char>| #[trigger]
            self.registry@.contains_key(k) ==> exists|i: int|
                0 <= i < self.user_info@.len() && #[trigger] self.user_info@[i].user_name@ == k
    }

    /// No two entries of the registry have the same name.
    closed spec fn users_unique(&self) -> bool {
        forall|i: int, j: int|
            0 <= i < self.user_info@.len() && 0 <= j < self.user_info@.len() && i != j
                ==> #[trigger] self.user_info@[i].user_name@ != #[trigger] self.user_info@[j].user_name@
    }

    /// Every open challenge is in the model, under its own id.
    closed spec fn challenges_in_model(&self) -> bool {
        forall|i: int|
            0 <= i < self.challenges@.len() ==> {
                &&& #[trigger] self.pending@.contains_key(self.challenges@[i].auth_id@)
                &&& self.pending@[self.challenges@[i].auth_id@] == self.challenges@[i].model()
            }
    }

    /// Every challenge of the model has an entry.
    closed spec fn model_in_challenges(&self) -> bool {
        forall|k: Seq<char>| #[trigger]
            self.pending@.contains_key(k) ==> exists|i: int|
                0 <= i < self.challenges@.len() && #[trigger] self.challenges@[i].auth_id@ == k
    }

    /// No two open challenges have the same id.
    closed spec fn challenges_unique(&self) -> bool {
        forall|i: int, j: int|
            0 <= i < self.challenges@.len() && 0 <= j < self.challenges@.len() && i != j
                ==> #[trigger] self.challenges@[i].auth_id@ != #[trigger] self.challenges@[j].auth_id@
    }

    /// Every open challenge belongs to a registered user.
    closed spec fn challenges_registered(&self) -> bool {
        forall|k: Seq<char>| #[trigger]
            self.pending@.contains_key(k) ==> self.registry@.contains_key(self.pending@[k].user)
    }

    /// The tables hold exactly the models, under unique keys, and every open
    /// challenge belongs to a registered user.
    pub closed spec fn wf(&self) -> bool {
        &&& self.zkp.wf()
        &&& self.users_in_model()
        &&& self.model_in_users()
        &&& self.users_unique()
        &&& self.challenges_in_model()
        &&& self.model_in_challenges()
        &&& self.challenges_unique()
        &&& self.challenges_registered()
    }

    /// An empty verifier over the given group.
    pub fn with_group(zkp: ZKP) -> (r: AuthImpl)
        requires
            zkp.wf(),
        ensures
            r.wf(),
            r.group() == zkp,
            r.credentials() == Map::<Seq<char>, CredentialModel>::empty(),
            r.open_challenges() == Map::<Seq<char>, ChallengeModel>::empty(),
    {
        AuthImpl {
            zkp,
            user_info: Vec::new(),
            challenges: Vec::new(),
            registry: Ghost(Map::empty()),
            pending: Ghost(Map::empty()),
        }
    }

    /// An empty verifier over the fixed group of `ZKP::get_constants`.
    pub fn new() -> (r: AuthImpl)
        ensures
            r.wf(),
            r.group().p@ == crate::group::hex_number(crate::group::MODULUS_HEX@),
            r.group().q@ == crate::group::hex_number(crate::group::ORDER_HEX@),
            r.group().g@ == crate::group::hex_number(crate::group::GENERATOR_HEX@),
            r.group().h@ == vstd::arithmetic::power::pow(
                r.group().g@ as int,
                crate::group::hex_number(crate::group::EXPONENT_HEX@),
            ) % (r.group().p@ as int),
            r.credentials() == Map::<Seq<char>, CredentialModel>::empty(),
            r.open_challenges() == Map::<Seq<char>, ChallengeModel>::empty(),
    {
        AuthImpl::with_group(ZKP::standard())
    }

    /// The position of the user's entry, if registered.
    fn find_user(&self, user: &String) -> (r: Option<usize>)
        requires
            self.wf(),
        ensures
            r is None <==> !self.credentials().contains_key(user@),
            r matches Some(i) ==> i < self.user_info@.len() && self.user_info@[i as int].user_name@
                == user@,
    {
        let mut i: usize = 0;
        while i < self.user_info.len()
            invariant
                self.wf(),
                i <= self.user_info@.len(),
                forall|j: int| 0 <= j < i ==> self.user_info@[j].user_name@ != user@,
            decreases self.user_info@.len() - i,
        {
            if self.user_info[i].user_name == *user {
                return Some(i);
            }
            i = i + 1;
        }
        None
    }

    /// The position of the challenge's entry, if open.
    fn find_challenge(&self, auth_id: &String) -> (r: Option<usize>)
        requires
            self.wf(),
        ensures
            r is None <==> !self.open_challenges().contains_key(auth_id@),
            r matches Some(i) ==> i < self.challenges@.len() && self.challenges@[i as int].auth_id@
                == auth_id@,
    {
        let mut i: usize = 0;
        while i < self.challenges.len()
            invariant
                self.wf(),
                i <= self.challenges@.len(),
                forall|j: int| 0 <= j < i ==> self.challenges@[j].auth_id@ != auth_id@,
            decreases self.challenges@.len() - i,
        {
            if self.challenges[i].auth_id == *auth_id {
                return Some(i);
            }
            i = i + 1;
        }
        None
    }

    /// Registers `user` with the public values `y1`, `y2` (big-endian bytes),
    /// replacing any earlier credential of that user.
    #[verifier::spinoff_prover]
    pub fn register(&mut self, user: String, y1: &[u8], y2: &[u8])
        requires
            old(self).wf(),
        ensures
            final(self).wf(),
            final(self).group() == old(self).group(),
            final(self).credentials() == old(self).credentials().insert(
                user@,
                (CredentialModel { y1: be_value(y1@), y2: be_value(y2@) }),
            ),
            final(self).open_challenges() == old(self).open_challenges(),
    {
        let info = UserInfo {
            user_name: user.clone(),
            y1: BigNum::from_bytes_be(y1),
            y2: BigNum::from_bytes_be(y2),
        };
        let ghost model = info.model();
        let ghost before = self.user_info@;
        let ghost registered = self.registry@;
        let ghost entry = info;
        let pos: usize = match self.find_user(&user) {
            Some(i) => {
                self.user_info[i] = info;
                i
            },
            None => {
                self.user_info.push(info);
                self.user_info.len() - 1
            },
        };
        self.registry = Ghost(self.registry@.insert(user@, model));
        proof {
            let n = self.user_info@.len();
            assert(self.user_info@[pos as int].user_name@ == user@);
            assert forall|j: int| 0 <= j < before.len() && j != pos implies self.user_info@[j]
                == before[j] by {}
            assert forall|k: Seq<char>| #[trigger] self.registry@.contains_key(k) implies exists|
                i: int,
            | 0 <= i < n && #[trigger] self.user_info@[i].user_name@ == k by {
                if k == user@ {
                    assert(self.user_info@[pos as int].user_name@ == k);
                } else {
                    let w = choose|i: int| 0 <= i < before.len() && before[i].user_name@ == k;
                    assert(self.user_info@[w] == before[w]);
                }
            }
            assert forall|i: int| 0 <= i < n implies {
                &&& #[trigger] self.registry@.contains_key(self.user_info@[i].user_name@)
                &&& self.registry@[self.user_info@[i].user_name@] == self.user_info@[i].model()
            } by {
                if i != pos {
                    assert(self.user_info@[i] == before[i]);
                    assert(registered.contains_key(before[i].user_name@));
                    if before.len() > pos {
                        assert(before[pos as int].user_name@ == user@);
                    }
                    assert(before[i].user_name@ != user@);
                } else {
                    assert(self.user_info@[i] == entry);
                    assert(entry.user_name@ == user@);
                    assert(self.registry@[user@] == model);
                }
            }
            assert forall|i: int, j: int|
                0 <= i < n && 0 <= j < n && i != j implies #[trigger] self.user_info@[i].user_name@
                != #[trigger] self.user_info@[j].user_name@ by {
                if i != pos && j != pos {
                    assert(self.user_info@[i] == before[i]);
                    assert(self.user_info@[j] == before[j]);
                } else if i == pos {
                    assert(self.user_info@[j] == before[j]);
                } else {
                    assert(self.user_info@[i] == before[i]);
                }
            }
            assert forall|k: Seq<char>| #[trigger] self.pending@.contains_key(k) implies self.registry@.contains_key(self.pending@[k].user) by {
                assert(registered.contains_key(self.pending@[k].user));
            }
            assert(self.users_in_model());
            assert(self.model_in_users());
            assert(self.users_unique());
            assert(self.challenges_in_model());
            assert forall|k: Seq<char>| #[trigger] self.pending@.contains_key(k) implies exists|
                i: int,
            | 0 <= i < self.challenges@.len() && #[trigger] self.challenges@[i].auth_id@ == k by {
                let w = choose|i: int|
                    0 <= i < old(self).challenges@.len() && old(self).challenges@[i].auth_id@ == k;
                assert(self.challenges@[w] == old(self).challenges@[w]);
            }
            assert(self.model_in_challenges());
            assert(self.challenges_unique());
            assert(self.challenges_registered());
        }
    }

    /// Opens challenge `auth_id` for `user` with the commitments `r1`, `r2`
    /// (big-endian bytes) and the challenge value `c`, and returns the id and
    /// `c` as big-endian bytes. Fails, changing nothing, when `user` is not
    /// registered, or else when `auth_id` is already open.
    #[verifier::spinoff_prover]
    pub fn create_authentication_challenge_with(
        &mut self,
        user: &String,
        r1: &[u8],
        r2: &[u8],
        c: &BigNum,
        auth_id: String,
    ) -> (r: Result<(String, Vec<u8>), AuthError>)
        requires
            old(self).wf(),
        ensures
            final(self).wf(),
            final(self).group() == old(self).group(),
            final(self).credentials() == old(self).credentials(),
            !old(self).credentials().contains_key(user@) <==> r matches Err(
                AuthError::UserNotFound(_),
            ),
            r matches Err(AuthError::UserNotFound(u)) ==> u@ == user@,
            old(self).credentials().contains_key(user@) && old(self).open_challenges().contains_key(
                auth_id@,
            ) <==> r matches Err(AuthError::AuthIdInUse(_)),
            r matches Err(AuthError::AuthIdInUse(a)) ==> a@ == auth_id@,
            r is Err ==> final(self).open_challenges() == old(self).open_challenges(),
            old(self).credentials().contains_key(user@) && !old(self).open_challenges().contains_key(
                auth_id@,
            ) ==> (r matches Ok((id, cb)) && id@ == auth_id@ && be_value(cb@) == c@
                && final(self).open_challenges() == old(self).open_challenges().insert(
                auth_id@,
                (ChallengeModel { user: user@, r1: be_value(r1@), r2: be_value(r2@), c: c@ }),
            )),
    {
        if self.find_user(user).is_none() {
            return Err(AuthError::UserNotFound(user.clone()));
        }
        if self.find_challenge(&auth_id).is_some() {
            return Err(AuthError::AuthIdInUse(auth_id));
        }
        let ch = Challenge {
            auth_id: auth_id.clone(),
            user_name: user.clone(),
            r1: BigNum::from_bytes_be(r1),
            r2: BigNum::from_bytes_be(r2),
            c: c.clone(),
        };
        let ghost model = ch.model();
        let ghost entry = ch;
        let ghost before = self.challenges@;
        let ghost pending = self.pending@;
        self.challenges.push(ch);
        self.pending = Ghost(self.pending@.insert(auth_id@, model));
        proof {
            let n = self.challenges@.len();
            assert(self.challenges@[n - 1] == entry);
            assert forall|j: int| 0 <= j < before.len() implies self.challenges@[j] == before[j]
                && before[j].auth_id@ != auth_id@ by {
                assert(pending.contains_key(before[j].auth_id@));
            }
            assert(entry.auth_id@ == auth_id@);
            assert forall|i: int| 0 <= i < n implies {
                &&& #[trigger] self.pending@.contains_key(self.challenges@[i].auth_id@)
                &&& self.pending@[self.challenges@[i].auth_id@] == self.challenges@[i].model()
            } by {
                if i < n - 1 {
                    assert(self.challenges@[i] == before[i]);
                    assert(pending.contains_key(before[i].auth_id@));
                    assert(pending[before[i].auth_id@] == before[i].model());
                } else {
                    assert(self.challenges@[i] == entry);
                }
            }
            assert(self.challenges_in_model());
            assert forall|k: Seq<char>| #[trigger] self.pending@.contains_key(k) implies exists|
                i: int,
            | 0 <= i < n && #[trigger] self.challenges@[i].auth_id@ == k by {
                if k == auth_id@ {
                    assert(self.challenges@[n - 1].auth_id@ == k);
                } else {
                    let w = choose|i: int| 0 <= i < before.len() && before[i].auth_id@ == k;
                    assert(self.challenges@[w] == before[w]);
                }
            }
            assert(self.model_in_challenges());
            assert(self.challenges_unique());
            assert(self.challenges_registered());
            assert(self.users_in_model());
            assert(self.users_unique());
            assert forall|k: Seq<char>| #[trigger] self.registry@.contains_key(k) implies exists|
                i: int,
            | 0 <= i < self.user_info@.len() && #[trigger] self.user_info@[i].user_name@ == k by {
                let w = choose|i: int|
                    0 <= i < old(self).user_info@.len() && old(self).user_info@[i].user_name@ == k;
                assert(self.user_info@[w] == old(self).user_info@[w]);
            }
            assert(self.model_in_users());
        }
        let cb = c.to_bytes_be();
        Ok((auth_id, cb))
    }

    /// Opens a challenge for `user` with the commitments `r1`, `r2`
    /// (big-endian bytes): draws a challenge value below `q` and a fresh
    /// random id, and returns the id and the value as big-endian bytes.
    /// Fails, changing nothing, when `user` is not registered, or when the
    /// drawn id is already open.
    pub fn create_authentication_challenge(&mut self, user: &String, r1: &[u8], r2: &[u8]) -> (r:
        Result<(String, Vec<u8>), AuthError>)
        requires
            old(self).wf(),
        ensures
            final(self).wf(),
            final(self).group() == old(self).group(),
            final(self).credentials() == old(self).credentials(),
            !old(self).credentials().contains_key(user@) <==> r matches Err(
                AuthError::UserNotFound(_),
            ),
            r matches Err(AuthError::UserNotFound(u)) ==> u@ == user@,
            r matches Err(AuthError::AuthIdInUse(a)) ==> old(self).open_challenges().contains_key(
                a@,
            ),
            r matches Err(AuthError::AuthIdNotFound(_)) ==> false,
            r matches Err(AuthError::PermissionDenied(_)) ==> false,
            r is Err ==> final(self).open_challenges() == old(self).open_challenges(),
            r matches Ok((id, cb)) ==> {
                &&& !old(self).open_challenges().contains_key(id@)
                &&& be_value(cb@) < old(self).group().q@
                &&& final(self).open_challenges() == old(self).open_challenges().insert(
                    id@,
                    (ChallengeModel {
                        user: user@,
                        r1: be_value(r1@),
                        r2: be_value(r2@),
                        c: be_value(cb@),
                    }),
                )
                &&& id@.len() == ID_LENGTH
                &&& forall|i: int| 0 <= i < id@.len() ==> is_alphanumeric(#[trigger] id@[i])
            },
    {
        let c = ZKP::generate_random_number_below(&self.zkp.q);
        let auth_id = ZKP::generate_random_string(ID_LENGTH);
        let ghost id = auth_id@;
        self.create_authentication_challenge_with(user, r1, r2, &c, auth_id)
    }

    /// The registry part of the invariant depends on the registry alone.
    proof fn lemma_users_unchanged(before: &AuthImpl, after: &AuthImpl)
        requires
            before.wf(),
            after.user_info@ == before.user_info@,
            after.registry@ == before.registry@,
        ensures
            after.users_in_model(),
            after.model_in_users(),
            after.users_unique(),
    {
        assert forall|k: Seq<char>| #[trigger] after.registry@.contains_key(k) implies exists|
            i: int,
        | 0 <= i < after.user_info@.len() && #[trigger] after.user_info@[i].user_name@ == k by {
            let w = choose|i: int|
                0 <= i < before.user_info@.len() && before.user_info@[i].user_name@ == k;
            assert(after.user_info@[w] == before.user_info@[w]);
        }
    }

    /// Answers challenge `auth_id` with the response `s` (big-endian bytes).
    /// The challenge is closed whatever the outcome. The response is checked
    /// against the stored commitments and challenge value and the user's
    /// current credential; when it verifies, a fresh random session token is
    /// returned.
    #[verifier::spinoff_prover]
    pub fn verify_authentication(&mut self, auth_id: &String, s: &[u8]) -> (r: Result<
        String,
        AuthError,
    >)
        requires
            old(self).wf(),
        ensures
            final(self).wf(),
            final(self).group() == old(self).group(),
            final(self).credentials() == old(self).credentials(),
            final(self).open_challenges() == old(self).open_challenges().remove(auth_id@),
            answer_outcome(
                old(self).group(),
                old(self).credentials(),
                old(self).open_challenges(),
                auth_id@,
                be_value(s@),
            ) is Unknown <==> r matches Err(AuthError::AuthIdNotFound(_)),
            answer_outcome(
                old(self).group(),
                old(self).credentials(),
                old(self).open_challenges(),
                auth_id@,
                be_value(s@),
            ) is Denied <==> r matches Err(AuthError::PermissionDenied(_)),
            answer_outcome(
                old(self).group(),
                old(self).credentials(),
                old(self).open_challenges(),
                auth_id@,
                be_value(s@),
            ) is Accepted <==> r is Ok,
            r matches Err(AuthError::AuthIdNotFound(a)) ==> a@ == auth_id@,
            r matches Err(AuthError::PermissionDenied(a)) ==> a@ == auth_id@,
            r matches Ok(token) ==> token@.len() == ID_LENGTH && forall|i: int|
                0 <= i < token@.len() ==> is_alphanumeric(#[trigger] token@[i]),
    {
        let idx = match self.find_challenge(auth_id) {
            None => {
                proof {
                    assert(self.open_challenges().remove(auth_id@) =~= self.open_challenges());
                }
                return Err(AuthError::AuthIdNotFound(auth_id.clone()));
            },
            Some(i) => i,
        };
        let ghost before = self.challenges@;
        let ghost pending = self.pending@;
        let ch = self.challenges.remove(idx);
        self.pending = Ghost(self.pending@.remove(auth_id@));
        proof {
            assert(ch == before[idx as int]);
            assert(pending[auth_id@] == ch.model());
            let n = self.challenges@.len();
            assert forall|j: int| 0 <= j < n implies (j < idx ==> self.challenges@[j] == before[j])
                && (j >= idx ==> self.challenges@[j] == before[j + 1]) by {}
            assert forall|j: int| 0 <= j < n implies #[trigger] self.challenges@[j].auth_id@
                != auth_id@ by {
                if j < idx {
                    assert(self.challenges@[j] == before[j]);
                } else {
                    assert(self.challenges@[j] == before[j + 1]);
                }
            }
            assert forall|i: int| 0 <= i < n implies {
                &&& #[trigger] self.pending@.contains_key(self.challenges@[i].auth_id@)
                &&& self.pending@[self.challenges@[i].auth_id@] == self.challenges@[i].model()
            } by {
                if i < idx {
                    assert(self.challenges@[i] == before[i]);
                } else {
                    assert(self.challenges@[i] == before[i + 1]);
                }
            }
            assert(self.challenges_in_model());
            assert forall|k: Seq<char>| #[trigger] self.pending@.contains_key(k) implies exists|
                i: int,
            | 0 <= i < n && #[trigger] self.challenges@[i].auth_id@ == k by {
                let w = choose|i: int| 0 <= i < before.len() && before[i].auth_id@ == k;
                if w < idx {
                    assert(self.challenges@[w] == before[w]);
                } else {
                    assert(w != idx);
                    assert(self.challenges@[w - 1] == before[w]);
                }
            }
            assert(self.model_in_challenges());
            assert forall|i: int, j: int|
                0 <= i < n && 0 <= j < n && i != j implies #[trigger] self.challenges@[i].auth_id@
                != #[trigger] self.challenges@[j].auth_id@ by {
                let bi = if i < idx { i } else { i + 1 };
                let bj = if j < idx { j } else { j + 1 };
                assert(self.challenges@[i] == before[bi]);
                assert(self.challenges@[j] == before[bj]);
            }
            assert(self.challenges_unique());
            assert(self.challenges_registered());
            AuthImpl::lemma_users_unchanged(old(self), self);
        }
        let u = match self.find_user(&ch.user_name) {
            Some(j) => j,
            None => {
                return Err(AuthError::AuthIdNotFound(auth_id.clone()));
            },
        };
        let y = BigNum::from_bytes_be(s);
        let ok = self.zkp.verify(&ch.r1, &ch.r2, &self.user_info[u].y1, &self.user_info[u].y2, &ch.c, &y);
        if ok {
            Ok(ZKP::generate_random_string(ID_LENGTH))
        } else {
            Err(AuthError::PermissionDenied(auth_id.clone()))
        }
    }
}

impl Default for AuthImpl {
    fn default() -> (r: AuthImpl)
        ensures
            r.wf(),
            r.credentials() == Map::<Seq<char>, CredentialModel>::empty(),
            r.open_challenges() == Map::<Seq<char>, ChallengeModel>::empty(),
    {
        AuthImpl::new()
    }
}

} // verus!
