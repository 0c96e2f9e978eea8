use vstd::prelude::*;

use crate::errors::CredentialsError;
use crate::ext::{
    b64url_decode, b64url_decoded, claim_string, decode_header_kid, jwt_header_kid, mint_token,
    verify_rs256,
};
use crate::model::{opt_str_view, view_all, Credentials, ProviderKey, ProviderKeyV, User, UserV};
use crate::seqs::{first_where, first_where_from, lemma_first_where};
use crate::store::{lemma_wf_push_user, lemma_wf_update_user, Store, StoreV};

verus! {

/// The issuer expected of every identity token.
pub const PROVIDER_ISSUER: &'static str = "https://appleid.apple.com";

// ---------------------------------------------------------------------------
// Selecting the matching and the negative-control key
// ---------------------------------------------------------------------------

pub open spec fn kid_match_pred(kid: Seq<char>) -> spec_fn(ProviderKeyV) -> bool {
    |k: ProviderKeyV| k.kid == kid
}

pub open spec fn kid_differ_pred(kid: Seq<char>) -> spec_fn(ProviderKeyV) -> bool {
    |k: ProviderKeyV| k.kid != kid
}

/// The first fetched key whose id equals the token's claimed id.
fn find_matching_key(keys: &Vec<ProviderKey>, kid: &String) -> (r: Option<usize>)
    ensures
        match r {
            Some(i) => i < keys@.len() && first_where(view_all(keys@), kid_match_pred(kid@))
                == Some(i as int),
            None => first_where(view_all(keys@), kid_match_pred(kid@)) is None,
        },
{
    let n = keys.len();
    let mut i: usize = 0;
    while i < n
        invariant
            i <= n,
            n == keys@.len(),
            first_where(view_all(keys@), kid_match_pred(kid@)) == first_where_from(
                view_all(keys@),
                kid_match_pred(kid@),
                i as int,
            ),
        decreases n - i,
    {
        assert(view_all(keys@)[i as int] == keys@[i as int]@);
        if keys[i].kid == *kid {
            return Some(i);
        }
        i = i + 1;
    }
    None
}

/// The first key at or after `start` whose id differs from the claimed one:
/// the negative control, searched only past the matching key.
fn find_other_key(keys: &Vec<ProviderKey>, kid: &String, start: usize) -> (r: Option<usize>)
    requires
        start <= keys@.len(),
    ensures
        match r {
            Some(j) => j < keys@.len() && first_where_from(
                view_all(keys@),
                kid_differ_pred(kid@),
                start as int,
            ) == Some(j as int),
            None => first_where_from(view_all(keys@), kid_differ_pred(kid@), start as int) is None,
        },
{
    let n = keys.len();
    let mut i: usize = start;
    while i < n
        invariant
            start <= i <= n,
            n == keys@.len(),
            first_where_from(view_all(keys@), kid_differ_pred(kid@), start as int)
                == first_where_from(view_all(keys@), kid_differ_pred(kid@), i as int),
        decreases n - i,
    {
        assert(view_all(keys@)[i as int] == keys@[i as int]@);
        if !(keys[i].kid == *kid) {
            return Some(i);
        }
        i = i + 1;
    }
    None
}

// ---------------------------------------------------------------------------
// Nonce validation
// ---------------------------------------------------------------------------

/// The token's embedded nonce must be present and exactly equal the nonce
/// the client supplied with this login attempt; anything else is a replay
/// and is rejected, whatever the signature said.
pub fn validate_nonce(claims_nonce: &Option<String>, supplied: &String) -> (r: Result<
    (),
    CredentialsError,
>)
    ensures
        match r {
            Ok(_) => opt_str_view(*claims_nonce) == Some(supplied@),
            Err(e) => e == CredentialsError::InvalidNonceError && opt_str_view(*claims_nonce)
                != Some(supplied@),
        },
{
    match claims_nonce {
        None => Err(CredentialsError::InvalidNonceError),
        Some(n) => if *n == *supplied {
            Ok(())
        } else {
            Err(CredentialsError::InvalidNonceError)
        },
    }
}

// ---------------------------------------------------------------------------
// Session issuance
// ---------------------------------------------------------------------------

pub open spec fn subject_pred(subject: Seq<char>) -> spec_fn(UserV) -> bool {
    |u: UserV| u.apple_user_id == subject
}

/// The record a first login creates: a fresh id, the claimed email, the
/// supplied subject id, the minted token, no admin rights and default
/// display preferences.
pub open spec fn new_user_spec(id: u64, email: Seq<char>, subject: Seq<char>, token: Seq<char>) -> UserV {
    UserV {
        id: id,
        email: email,
        apple_user_id: subject,
        token: token,
        is_admin: false,
        should_color_scheme_use_system: false,
        is_color_scheme_dark_mode: false,
        color_theme: 1,
    }
}

/// What issuing a session does: when a user with the subject exists, only
/// that user's token is overwritten; when none does, one fresh record is
/// appended. `u` is the record the login returns.
pub open spec fn issued(
    pre: StoreV,
    post: StoreV,
    u: UserV,
    subject: Seq<char>,
    email: Seq<char>,
    tok: Seq<char>,
) -> bool {
    &&& post.tasks == pre.tasks
    &&& post.events == pre.events
    &&& post.tags == pre.tags
    &&& u.apple_user_id == subject
    &&& u.token == tok
    &&& match first_where(pre.users, subject_pred(subject)) {
        Some(i) => {
            &&& post.users == pre.users.update(i, (UserV { token: tok, ..pre.users[i] }))
            &&& post.next_id == pre.next_id
            &&& u == (UserV { token: tok, ..pre.users[i] })
        },
        None => {
            &&& post.users == pre.users.push(new_user_spec(pre.next_id, email, subject, tok))
            &&& post.next_id == pre.next_id + 1
            &&& u == new_user_spec(pre.next_id, email, subject, tok)
        },
    }
}

fn find_user_by_subject(users: &Vec<User>, subject: &String) -> (r: Option<usize>)
    ensures
        match r {
            Some(i) => i < users@.len() && first_where(view_all(users@), subject_pred(subject@))
                == Some(i as int),
            None => first_where(view_all(users@), subject_pred(subject@)) is None,
        },
{
    let n = users.len();
    let mut i: usize = 0;
    while i < n
        invariant
            i <= n,
            n == users@.len(),
            first_where(view_all(users@), subject_pred(subject@)) == first_where_from(
                view_all(users@),
                subject_pred(subject@),
                i as int,
            ),
        decreases n - i,
    {
        assert(view_all(users@)[i as int] == users@[i as int]@);
        if users[i].apple_user_id == *subject {
            return Some(i);
        }
        i = i + 1;
    }
    None
}

impl Store {
    /// Upsert the session: overwrite the token of the user with this
    /// subject id, or create the user if this is the first login.
    pub fn issue_session(&mut self, subject: &String, email: &String, token: String) -> (r: User)
        requires
            old(self)@.wf(),
            old(self)@.next_id < u64::MAX,
        ensures
            final(self)@.wf(),
            issued(old(self)@, final(self)@, r@, subject@, email@, token@),
    {
        match find_user_by_subject(&self.users, subject) {
            Some(i) => {
                proof {
                    lemma_first_where(view_all(self.users@), subject_pred(subject@));
                }
                assert(self.users@[i as int]@ == self@.users[i as int]);
                assert(self@.users[i as int].apple_user_id == subject@);
                let u = &self.users[i];
                let updated = User {
                    id: u.id,
                    email: u.email.clone(),
                    apple_user_id: u.apple_user_id.clone(),
                    token: token,
                    is_admin: u.is_admin,
                    should_color_scheme_use_system: u.should_color_scheme_use_system,
                    is_color_scheme_dark_mode: u.is_color_scheme_dark_mode,
                    color_theme: u.color_theme,
                };
                let ret = updated.clone();
                let ghost uv = updated@;
                proof {
                    lemma_wf_update_user(self@, i as int, uv);
                }
                self.users.set(i, updated);
                proof {
                    assert(view_all(self.users@) =~= old(self)@.users.update(i as int, uv));
                    assert(uv == (UserV { token: token@, ..old(self)@.users[i as int] }));
                    assert(issued(old(self)@, self@, ret@, subject@, email@, token@));
                }
                ret
            },
            None => {
                proof {
                    lemma_first_where(view_all(self.users@), subject_pred(subject@));
                }
                let id = self.next_id;
                let u = User {
                    id: id,
                    email: email.clone(),
                    apple_user_id: subject.clone(),
                    token: token,
                    is_admin: false,
                    should_color_scheme_use_system: false,
                    is_color_scheme_dark_mode: false,
                    color_theme: 1,
                };
                let ret = u.clone();
                let ghost uv = u@;
                proof {
                    assert forall|k: int|
                        0 <= k < self@.users.len() implies (#[trigger] self@.users[k]).apple_user_id
                        != uv.apple_user_id by {
                        assert(!subject_pred(subject@)(self@.users[k]));
                    }
                    lemma_wf_push_user(self@, uv);
                }
                self.users.push(u);
                self.next_id = id + 1;
                proof {
                    assert(view_all(self.users@) =~= old(self)@.users.push(uv));
                    assert(uv == new_user_spec(old(self)@.next_id, email@, subject@, token@));
                    assert(issued(old(self)@, self@, ret@, subject@, email@, token@));
                }
                ret
            },
        }
    }
}

// ---------------------------------------------------------------------------
// The login pipeline
// ---------------------------------------------------------------------------

/// Every outcome verifying against the matching key can produce: from here
/// on the result turns on signature verification and the verified claims,
/// which depend on the key material and the clock. On success the store
/// has been upserted for the supplied subject with some claimed email and
/// some minted token.
pub open spec fn login_tail_core(
    pre: StoreV,
    post: StoreV,
    r: Result<User, CredentialsError>,
    subject: Seq<char>,
    mk: ProviderKeyV,
) -> bool {
    match r {
        Err(e) => post == pre && {
            ||| (e == CredentialsError::DecodeComponentError && (b64url_decoded(mk.n) is None
                || b64url_decoded(mk.e) is None))
            ||| (e == CredentialsError::MatchingKeyFailedError && b64url_decoded(mk.n) is Some
                && b64url_decoded(mk.e) is Some)
            ||| (e == CredentialsError::InvalidNonceError && b64url_decoded(mk.n) is Some
                && b64url_decoded(mk.e) is Some)
        },
        Ok(u) => b64url_decoded(mk.n) is Some && b64url_decoded(mk.e) is Some && (exists|
            email: Seq<char>,
            tok: Seq<char>,
        | issued(pre, post, u@, subject, email, tok)),
    }
}

/// As `login_tail_core`, allowing additionally the fail-closed outcome of
/// the negative control when a non-matching key was present.
pub open spec fn login_tail(
    pre: StoreV,
    post: StoreV,
    r: Result<User, CredentialsError>,
    subject: Seq<char>,
    mk: ProviderKeyV,
    has_negative: bool,
) -> bool {
    if r == Err::<User, CredentialsError>(CredentialsError::InvalidKeySucceededError) {
        has_negative && post == pre
    } else {
        login_tail_core(pre, post, r, subject, mk)
    }
}

/// Attempt verification with a key that is known not to match. A sound
/// verifier must fail here; if it succeeds the login fails closed.
fn negative_control(token: &str, key: &ProviderKey, audience: &str) -> (r: Result<
    (),
    CredentialsError,
>)
    ensures
        match r {
            Ok(_) => b64url_decoded(key@.n) is Some && b64url_decoded(key@.e) is Some,
            Err(e) => {
                ||| (e == CredentialsError::DecodeComponentError && (b64url_decoded(key@.n)
                    is None || b64url_decoded(key@.e) is None))
                ||| (e == CredentialsError::InvalidKeySucceededError && b64url_decoded(key@.n)
                    is Some && b64url_decoded(key@.e) is Some)
            },
        },
{
    let n_inv = match b64url_decode(key.n.as_str()) {
        Ok(v) => v,
        Err(_) => {
            return Err(CredentialsError::DecodeComponentError);
        },
    };
    let e_inv = match b64url_decode(key.e.as_str()) {
        Ok(v) => v,
        Err(_) => {
            return Err(CredentialsError::DecodeComponentError);
        },
    };
    match verify_rs256(token, &n_inv, &e_inv, PROVIDER_ISSUER, audience) {
        Ok(_) => Err(CredentialsError::InvalidKeySucceededError),
        Err(_) => Ok(()),
    }
}

/// Verify the token against the matching key, check the nonce, and issue
/// the session.
fn verify_and_issue(
    store: &mut Store,
    token: &str,
    key: &ProviderKey,
    credentials: &Credentials,
    audience: &str,
) -> (r: Result<User, CredentialsError>)
    requires
        old(store)@.wf(),
        old(store)@.next_id < u64::MAX,
    ensures
        final(store)@.wf(),
        login_tail_core(old(store)@, final(store)@, r, credentials.user@, key@),
{
    let n_ok = match b64url_decode(key.n.as_str()) {
        Ok(v) => v,
        Err(_) => {
            return Err(CredentialsError::DecodeComponentError);
        },
    };
    let e_ok = match b64url_decode(key.e.as_str()) {
        Ok(v) => v,
        Err(_) => {
            return Err(CredentialsError::DecodeComponentError);
        },
    };
    let claims_value = match verify_rs256(token, &n_ok, &e_ok, PROVIDER_ISSUER, audience) {
        Ok(v) => v,
        Err(_) => {
            return Err(CredentialsError::MatchingKeyFailedError);
        },
    };
    let email_opt = claim_string(&claims_value, "email");
    let subject_opt = claim_string(&claims_value, "sub");
    let nonce_opt = claim_string(&claims_value, "nonce");
    let email = match email_opt {
        Some(e) => e,
        None => {
            return Err(CredentialsError::MatchingKeyFailedError);
        },
    };
    match subject_opt {
        Some(_) => {},
        None => {
            return Err(CredentialsError::MatchingKeyFailedError);
        },
    };
    match validate_nonce(&nonce_opt, &credentials.nonce) {
        Ok(_) => {},
        Err(e) => {
            return Err(e);
        },
    };
    let token_value = mint_token();
    let ghost tokv = token_value@;
    let ghost emailv = email@;
    let user = store.issue_session(&credentials.user, &email, token_value);
    let ghost uval = user@;
    proof {
        assert(issued(old(store)@, store@, uval, credentials.user@, emailv, tokv));
        assert(exists|em: Seq<char>, tok: Seq<char>|
            issued(old(store)@, store@, uval, credentials.user@, em, tok));
    }
    let res: Result<User, CredentialsError> = Ok(user);
    proof {
        assert(res matches Ok(u) && u@ == uval);
        assert(login_tail_core(old(store)@, store@, res, credentials.user@, key@));
    }
    res
}

/// Validate a login: fetch-fresh keys are supplied by the caller; the
/// token's header names a key, which must be present; if any other key is
/// present, verification with it must fail, else the login fails closed;
/// the token is then verified against the matching key with the expected
/// issuer and the configured audience; the embedded nonce must equal the
/// supplied one; finally a session is upserted under the supplied subject
/// id with a freshly minted opaque token.
#[verifier::rlimit(60)]
pub fn validate_credentials(
    store: &mut Store,
    keys: &Vec<ProviderKey>,
    credentials: &Credentials,
    audience: &str,
) -> (r: Result<User, CredentialsError>)
    requires
        old(store)@.wf(),
        old(store)@.next_id < u64::MAX,
    ensures
        final(store)@.wf(),
        ({
            let token = credentials.identity_token@;
            match jwt_header_kid(token) {
                None => r == Err::<User, CredentialsError>(CredentialsError::DecodeJwtError)
                    && final(store)@ == old(store)@,
                Some(kid_opt) => match kid_opt {
                    None => r == Err::<User, CredentialsError>(CredentialsError::NoKidError)
                        && final(store)@ == old(store)@,
                    Some(kid) => match first_where(view_all(keys@), kid_match_pred(kid)) {
                        None => r == Err::<User, CredentialsError>(
                            CredentialsError::NoMatchingKidError,
                        ) && final(store)@ == old(store)@,
                        Some(m) => {
                            let mk = view_all(keys@)[m];
                            match first_where_from(view_all(keys@), kid_differ_pred(kid), m + 1) {
                                Some(o) => {
                                    let ok = view_all(keys@)[o];
                                    if b64url_decoded(ok.n) is None || b64url_decoded(ok.e)
                                        is None {
                                        r == Err::<User, CredentialsError>(
                                            CredentialsError::DecodeComponentError,
                                        ) && final(store)@ == old(store)@
                                    } else {
                                        login_tail(
                                            old(store)@,
                                            final(store)@,
                                            r,
                                            credentials.user@,
                                            mk,
                                            true,
                                        )
                                    }
                                },
                                None => login_tail(
                                    old(store)@,
                                    final(store)@,
                                    r,
                                    credentials.user@,
                                    mk,
                                    false,
                                ),
                            }
                        },
                    },
                },
            }
        }),
{
    let token = credentials.identity_token.as_str();
    let kid_opt = match decode_header_kid(token) {
        Ok(k) => k,
        Err(_) => {
            return Err(CredentialsError::DecodeJwtError);
        },
    };
    let kid = match kid_opt {
        Some(k) => k,
        None => {
            return Err(CredentialsError::NoKidError);
        },
    };
    let nk = keys.len();
    let m = match find_matching_key(keys, &kid) {
        Some(m) => m,
        None => {
            return Err(CredentialsError::NoMatchingKidError);
        },
    };
    assert(m < nk);
    match find_other_key(keys, &kid, m + 1) {
        Some(o) => {
            assert(view_all(keys@)[o as int] == keys@[o as int]@);
            match negative_control(token, &keys[o], audience) {
                Ok(_) => {},
                Err(e) => {
                    return Err(e);
                },
            }
        },
        None => {},
    }
    assert(view_all(keys@)[m as int] == keys@[m as int]@);
    verify_and_issue(store, token, &keys[m], credentials, audience)
}

// ---------------------------------------------------------------------------
// Laws of session issuance
// ---------------------------------------------------------------------------

/// Two logins with the same provider subject id yield the same user id and
/// email, create no duplicate record the second time, and carry exactly
/// the tokens minted for them, so distinct mints give distinct tokens.
pub proof fn lemma_session_identity_idempotent(
    s0: StoreV,
    s1: StoreV,
    s2: StoreV,
    u1: UserV,
    u2: UserV,
    subject: Seq<char>,
    email1: Seq<char>,
    email2: Seq<char>,
    tok1: Seq<char>,
    tok2: Seq<char>,
)
    requires
        s0.wf(),
        issued(s0, s1, u1, subject, email1, tok1),
        issued(s1, s2, u2, subject, email2, tok2),
    ensures
        u2.id == u1.id,
        u2.email == u1.email,
        s2.users.len() == s1.users.len(),
        u1.token == tok1,
        u2.token == tok2,
        tok1 != tok2 ==> u1.token != u2.token,
{
    lemma_first_where(s0.users, subject_pred(subject));
    lemma_first_where(s1.users, subject_pred(subject));
    match first_where(s0.users, subject_pred(subject)) {
        Some(i) => {
            assert(subject_pred(subject)(s1.users[i]));
            match first_where(s1.users, subject_pred(subject)) {
                Some(j) => {
                    if j < i {
                        assert(s1.users[j] == s0.users[j]);
                        assert(false);
                    }
                    assert(j == i);
                },
                None => {
                    assert(false);
                },
            }
        },
        None => {
            let w = s0.users.len() as int;
            assert(s1.users[w] == new_user_spec(s0.next_id, email1, subject, tok1));
            assert(subject_pred(subject)(s1.users[w]));
            match first_where(s1.users, subject_pred(subject)) {
                Some(j) => {
                    if j < w {
                        assert(s1.users[j] == s0.users[j]);
                        assert(false);
                    }
                    assert(j == w);
                },
                None => {
                    assert(false);
                },
            }
        },
    }
}

} // verus!
