//! The email-identity verification state machine: changing a user's address,
//! confirming ownership through a one-time token, and resending a
//! confirmation token. Every transition is specified as a pure function of
//! the store model and proved against it.

use vstd::prelude::*;

use crate::errors::AppError;
use crate::errors::ErrorKind;
use crate::errors::OkResponse;
use crate::model::AuthRec;
use crate::model::AuthUser;
use crate::model::EmailRec;
use crate::model::EmailRow;
use crate::model::Store;
use crate::model::StoreModel;
use crate::model::UserRec;
use crate::model::UserRow;
use crate::model::email_row_for;
use crate::model::opt_str_view;
use crate::model::token_present;
use crate::strutil::trim;
use crate::strutil::trim_spec;

verus! {

/// A confirmation notification handed to the outbound sink:
/// `SendConfirmation(address, handle, token)`.
pub struct EmailNotification {
    pub email: String,
    pub gh_login: String,
    pub token: String,
}

#[verifier::ext_equal]
pub ghost struct NoteRec {
    pub address: Seq<char>,
    pub login: Seq<char>,
    pub token: Seq<char>,
}

impl View for EmailNotification {
    type V = NoteRec;

    open spec fn view(&self) -> NoteRec {
        NoteRec { address: self.email@, login: self.gh_login@, token: self.token@ }
    }
}

// ---------------------------------------------------------------------------
// Specification of the transitions
// ---------------------------------------------------------------------------

/// The user rows after the denormalized address copy of `uid` is overwritten.
pub open spec fn set_address_spec(users: Seq<UserRec>, uid: int, addr: Seq<char>) -> Seq<UserRec> {
    users.map_values(
        |u: UserRec|
            if u.id == uid {
                UserRec { id: u.id, login: u.login, address: Some(addr) }
            } else {
                u
            },
    )
}

/// The email rows after an upsert keyed by `row.user_id`: replace the
/// existing row of that user, or append a new one.
pub open spec fn upsert_email_spec(emails: Seq<EmailRec>, row: EmailRec) -> Seq<EmailRec> {
    if exists|i: int| 0 <= i < emails.len() && emails[i].user_id == row.user_id {
        emails.map_values(
            |e: EmailRec|
                if e.user_id == row.user_id {
                    row
                } else {
                    e
                },
        )
    } else {
        emails.push(row)
    }
}

/// ChangeEmail: authorization, validation of the trimmed address, then one
/// atomic update of the denormalized copy and upsert of the email row with a
/// fresh token, leaving the row unverified. On success the returned
/// notification is dispatched best-effort by the caller; its outcome does not
/// affect the committed state.
pub open spec fn change_email_spec(
    s: StoreModel,
    auth: AuthRec,
    target_id: int,
    email_field: Option<Seq<char>>,
    token: Seq<char>,
    now: int,
) -> Result<(StoreModel, NoteRec), ErrorKind> {
    if auth.id != target_id {
        Err(ErrorKind::Authorization)
    } else {
        match email_field {
            None => Err(ErrorKind::Validation),
            Some(raw) => {
                let addr = trim_spec(raw);
                if addr.len() == 0 {
                    Err(ErrorKind::Validation)
                } else {
                    let row = EmailRec {
                        user_id: auth.id,
                        address: addr,
                        token: token,
                        generated_at: Some(now),
                        verified: false,
                    };
                    Ok(
                        (
                            StoreModel {
                                users: set_address_spec(s.users, auth.id, addr),
                                emails: upsert_email_spec(s.emails, row),
                                packages: s.packages,
                                owners: s.owners,
                                follows: s.follows,
                                versions: s.versions,
                            },
                            NoteRec { address: addr, login: auth.login, token: token },
                        ),
                    )
                }
            },
        }
    }
}

/// ConfirmEmail: every email row carrying exactly this token becomes
/// verified; if none does, the lookup fails. The token is not rotated, so
/// confirming again is a harmless no-op.
pub open spec fn confirm_email_spec(s: StoreModel, token: Seq<char>) -> Result<
    StoreModel,
    ErrorKind,
> {
    if token_present(s.emails, token) {
        Ok(
            StoreModel {
                users: s.users,
                emails: s.emails.map_values(
                    |e: EmailRec|
                        if e.token == token {
                            EmailRec {
                                user_id: e.user_id,
                                address: e.address,
                                token: e.token,
                                generated_at: e.generated_at,
                                verified: true,
                            }
                        } else {
                            e
                        },
                ),
                packages: s.packages,
                owners: s.owners,
                follows: s.follows,
                versions: s.versions,
            },
        )
    } else {
        Err(ErrorKind::NotFound)
    }
}

/// ResendConfirmation: authorization, then rotation of the token of the
/// user's existing email row; a user without an email row is refused rather
/// than given one implicitly. The rotation commits regardless of how the
/// subsequent dispatch fares.
pub open spec fn resend_spec(
    s: StoreModel,
    auth: AuthRec,
    target_id: int,
    token: Seq<char>,
    now: int,
) -> Result<(StoreModel, NoteRec), ErrorKind> {
    if auth.id != target_id {
        Err(ErrorKind::Authorization)
    } else {
        match email_row_for(s.emails, auth.id) {
            None => Err(ErrorKind::NotFound),
            Some(e) => Ok(
                (
                    StoreModel {
                        users: s.users,
                        emails: s.emails.map_values(
                            |r: EmailRec|
                                if r.user_id == auth.id {
                                    EmailRec {
                                        user_id: r.user_id,
                                        address: r.address,
                                        token: token,
                                        generated_at: Some(now),
                                        verified: r.verified,
                                    }
                                } else {
                                    r
                                },
                        ),
                        packages: s.packages,
                        owners: s.owners,
                        follows: s.follows,
                        versions: s.versions,
                    },
                    NoteRec { address: e.address, login: auth.login, token: token },
                ),
            ),
        }
    }
}

/// The message carried by each failure of ChangeEmail.
pub open spec fn change_email_error_detail(k: ErrorKind) -> Seq<char> {
    if k == ErrorKind::Authorization {
        "current user does not match requested user"@
    } else {
        "empty email rejected"@
    }
}

/// The message carried by each failure of ResendConfirmation.
pub open spec fn resend_error_detail(k: ErrorKind) -> Seq<char> {
    if k == ErrorKind::Authorization {
        "current user does not match requested user"@
    } else {
        "Email could not be found"@
    }
}

// ---------------------------------------------------------------------------
// Helper lemmas
// ---------------------------------------------------------------------------

/// `email_row_for` returns the row at the first matching index.
pub proof fn lemma_email_row_at_first(emails: Seq<EmailRec>, uid: int, i: int)
    requires
        0 <= i <= emails.len(),
        forall|k: int| 0 <= k < i ==> emails[k].user_id != uid,
        i < emails.len() ==> emails[i].user_id == uid,
    ensures
        i < emails.len() ==> email_row_for(emails, uid) == Some(emails[i]),
        i == emails.len() ==> email_row_for(emails, uid) is None,
    decreases i,
{
    if i == 0 {
        if emails.len() > 0 && emails[0].user_id != uid {
        }
    } else {
        assert(emails[0].user_id != uid);
        lemma_email_row_at_first(emails.drop_first(), uid, i - 1);
        assert(emails.drop_first().len() == emails.len() - 1);
        if i < emails.len() {
            assert(emails.drop_first()[i - 1] == emails[i]);
        }
    }
}

// ---------------------------------------------------------------------------
// Executable helpers
// ---------------------------------------------------------------------------

/// The index of the email row of `uid`, scanning from the front.
pub(crate) fn find_email_index(emails: &Vec<EmailRow>, uid: i32) -> (r: Option<usize>)
    ensures
        match r {
            Some(i) => i < emails.len() && emails@[i as int]@.user_id == uid as int && forall|
                k: int,
            | 0 <= k < i ==> emails@[k]@.user_id != uid as int,
            None => forall|k: int| 0 <= k < emails.len() ==> emails@[k]@.user_id != uid as int,
        },
{
    let mut i: usize = 0;
    while i < emails.len()
        invariant
            0 <= i <= emails.len(),
            forall|k: int| 0 <= k < i ==> emails@[k]@.user_id != uid as int,
        decreases emails.len() - i,
    {
        if emails[i].user_id == uid {
            return Some(i);
        }
        i = i + 1;
    }
    None
}

/// Overwrite the denormalized address copy on every user row carrying `uid`.
fn set_user_address(users: &mut Vec<UserRow>, uid: i32, addr: &String)
    ensures
        final(users)@.map_values(|r: UserRow| r@) == set_address_spec(
            old(users)@.map_values(|r: UserRow| r@),
            uid as int,
            addr@,
        ),
{
    let ghost orig = users@;
    let mut i: usize = 0;
    while i < users.len()
        invariant
            0 <= i <= users.len(),
            users@.len() == orig.len(),
            forall|k: int|
                i <= k < orig.len() ==> users@[k] == orig[k],
            forall|k: int|
                0 <= k < i ==> #[trigger] users@[k]@ == (if orig[k]@.id == uid as int {
                    UserRec { id: orig[k]@.id, login: orig[k]@.login, address: Some(addr@) }
                } else {
                    orig[k]@
                }),
        decreases users.len() - i,
    {
        if users[i].id == uid {
            let new_row = UserRow {
                id: users[i].id,
                gh_login: users[i].gh_login.clone(),
                email: Some(addr.clone()),
            };
            users[i] = new_row;
        }
        i = i + 1;
    }
    proof {
        assert(users@.map_values(|r: UserRow| r@) =~~= set_address_spec(
            orig.map_values(|r: UserRow| r@),
            uid as int,
            addr@,
        ));
    }
}

/// The atomic upsert-on-conflict on the unique user-keyed email row: insert
/// if the user has no row, else replace the row in place. This single
/// primitive is what serializes concurrent address changes for one user.
pub fn upsert_email(store: &mut Store, row: EmailRow)
    requires
        old(store)@.wf(),
    ensures
        final(store)@ == (StoreModel {
            emails: upsert_email_spec(old(store)@.emails, row@),
            ..old(store)@
        }),
        final(store)@.wf(),
{
    let ghost orig = store@;
    let ghost target = upsert_email_spec(orig.emails, row@);
    match find_email_index(&store.emails, row.user_id) {
        Some(i) => {
            let ghost uid = row@.user_id;
            store.emails[i] = row;
            proof {
                assert(0 <= i < orig.emails.len() && orig.emails[i as int].user_id == uid);
                assert forall|k: int| 0 <= k < orig.emails.len() implies #[trigger] store@
                    .emails[k] == target[k] by {
                    if k != i {
                        assert(orig.emails[k].user_id != orig.emails[i as int].user_id);
                    }
                }
                assert(store@.emails =~~= target);
                assert(store@ =~~= (StoreModel { emails: target, ..orig }));
                assert forall|a: int, b: int| 0 <= a < b < store@.emails.len() implies store@
                    .emails[a].user_id != store@.emails[b].user_id by {
                    assert(orig.emails[a].user_id != orig.emails[b].user_id);
                    assert(store@.emails[a].user_id == orig.emails[a].user_id);
                    assert(store@.emails[b].user_id == orig.emails[b].user_id);
                }
                crate::model::lemma_wf_from_parts(orig, store@);
            }
        },
        None => {
            let ghost uid = row@.user_id;
            store.emails.push(row);
            proof {
                assert(!(exists|j: int|
                    0 <= j < orig.emails.len() && orig.emails[j].user_id == uid));
                assert(store@.emails =~~= orig.emails.push(row@));
                assert(store@.emails =~~= target);
                assert(store@ =~~= (StoreModel { emails: target, ..orig }));
                assert forall|a: int, b: int| 0 <= a < b < store@.emails.len() implies store@
                    .emails[a].user_id != store@.emails[b].user_id by {
                    if b < orig.emails.len() {
                        assert(orig.emails[a].user_id != orig.emails[b].user_id);
                    } else {
                        assert(store@.emails[b].user_id == uid);
                        assert(orig.emails[a].user_id != uid);
                    }
                }
                crate::model::lemma_wf_from_parts(orig, store@);
            }
        },
    }
}

// ---------------------------------------------------------------------------
// The operations
// ---------------------------------------------------------------------------

/// ChangeEmail. On success the store committed the new address and an
/// unverified email row carrying `token`, and the returned notification is
/// for the caller to dispatch best-effort: its failure does not undo the
/// state change.
pub fn update_user(
    store: &mut Store,
    auth: &AuthUser,
    target_id: i32,
    email_field: Option<String>,
    token: String,
    now: i64,
) -> (r: Result<(OkResponse, EmailNotification), AppError>)
    requires
        old(store)@.wf(),
        old(store)@.has_user(auth.id as int),
    ensures
        final(store)@.wf(),
        match change_email_spec(
            old(store)@,
            auth@,
            target_id as int,
            opt_str_view(email_field),
            token@,
            now as int,
        ) {
            Ok(pair) => r is Ok && final(store)@ == pair.0 && r->Ok_0.0.ok && r->Ok_0.1@
                == pair.1,
            Err(k) => r is Err && final(store)@ == old(store)@ && r->Err_0.kind == k
                && r->Err_0.detail@ == change_email_error_detail(k),
        },
{
    let ghost orig = store@;
    let ghost ef = opt_str_view(email_field);
    let ghost tok = token@;
    if auth.id != target_id {
        return Err(AppError::authorization("current user does not match requested user"));
    }
    let raw = match email_field {
        None => {
            return Err(AppError::validation("empty email rejected"));
        },
        Some(s) => s,
    };
    let trimmed = trim(raw.as_str());
    if trimmed.unicode_len() == 0 {
        return Err(AppError::validation("empty email rejected"));
    }
    let address = trimmed.to_owned();
    set_user_address(&mut store.users, auth.id, &address);
    proof {
        assert(store@ =~~= (StoreModel {
            users: set_address_spec(orig.users, auth.id as int, address@),
            ..orig
        }));
        crate::model::lemma_wf_from_parts(orig, store@);
    }
    let row = EmailRow {
        user_id: auth.id,
        email: address.clone(),
        token: token.clone(),
        token_generated_at: Some(now),
        verified: false,
    };
    upsert_email(store, row);
    let note = EmailNotification { email: address, gh_login: auth.gh_login.clone(), token };
    proof {
        let out = change_email_spec(orig, auth@, target_id as int, ef, tok, now as int);
        assert(out is Ok);
        assert(store@ =~~= out->Ok_0.0);
        assert(note@ =~~= out->Ok_0.1);
    }
    Ok((OkResponse::new(), note))
}

/// ConfirmEmail: a single idempotent targeted update. The common stale-link
/// case — no row carries the token — fails with the same fixed error whatever
/// accounts exist, so the reply reveals nothing about them.
pub fn confirm_user_email(store: &mut Store, req_token: &String) -> (r: Result<
    OkResponse,
    AppError,
>)
    requires
        old(store)@.wf(),
    ensures
        final(store)@.wf(),
        match confirm_email_spec(old(store)@, req_token@) {
            Ok(s2) => r is Ok && final(store)@ == s2 && r->Ok_0.ok,
            Err(k) => r is Err && final(store)@ == old(store)@ && r->Err_0.kind == k
                && r->Err_0.detail@ == "Email belonging to token not found."@,
        },
{
    let ghost orig = store@;
    let mut found = false;
    let mut i: usize = 0;
    while i < store.emails.len()
        invariant
            0 <= i <= store.emails.len(),
            store.users == old(store).users,
            store.packages == old(store).packages,
            store.owners == old(store).owners,
            store.follows == old(store).follows,
            store.versions == old(store).versions,
            store.emails@.len() == orig.emails.len(),
            found == exists|k: int| 0 <= k < i && orig.emails[k].token == req_token@,
            forall|k: int|
                i <= k < orig.emails.len() ==> store.emails@[k]@ == orig.emails[k],
            forall|k: int|
                0 <= k < i ==> #[trigger] store.emails@[k]@ == (if orig.emails[k].token
                    == req_token@ {
                    EmailRec {
                        user_id: orig.emails[k].user_id,
                        address: orig.emails[k].address,
                        token: orig.emails[k].token,
                        generated_at: orig.emails[k].generated_at,
                        verified: true,
                    }
                } else {
                    orig.emails[k]
                }),
        decreases store.emails.len() - i,
    {
        if store.emails[i].token == *req_token {
            proof {
                assert(orig.emails[i as int].token == req_token@);
            }
            let new_row = EmailRow {
                user_id: store.emails[i].user_id,
                email: store.emails[i].email.clone(),
                token: store.emails[i].token.clone(),
                token_generated_at: store.emails[i].token_generated_at,
                verified: true,
            };
            store.emails[i] = new_row;
            found = true;
            proof {
                assert(exists|k: int|
                    0 <= k < i + 1 && orig.emails[k].token == req_token@);
            }
        } else {
            proof {
                assert(orig.emails[i as int].token != req_token@);
            }
        }
        i = i + 1;
    }
    if !found {
        proof {
            assert(!token_present(orig.emails, req_token@));
            assert(store@ =~~= orig);
        }
        return Err(AppError::not_found("Email belonging to token not found."));
    }
    proof {
        assert(token_present(orig.emails, req_token@));
        let s2 = confirm_email_spec(orig, req_token@)->Ok_0;
        assert forall|k: int| 0 <= k < orig.emails.len() implies #[trigger] store@.emails[k]
            == s2.emails[k] by {}
        assert(store@.emails =~~= s2.emails);
        assert(store@ =~~= s2);
        assert forall|a: int, b: int| 0 <= a < b < store@.emails.len() implies store@.emails[
            a
        ].user_id != store@.emails[b].user_id by {
            assert(orig.emails[a].user_id != orig.emails[b].user_id);
            assert(store@.emails[a].user_id == orig.emails[a].user_id);
            assert(store@.emails[b].user_id == orig.emails[b].user_id);
        }
        crate::model::lemma_wf_from_parts(orig, store@);
    }
    Ok(OkResponse::new())
}

/// ResendConfirmation, first half: rotate the token of the user's existing
/// email row and hand back the notification to dispatch. The rotation is
/// committed before any dispatch happens; the caller must report a dispatch
/// failure through [`complete_resend`], which does not undo the rotation.
pub fn regenerate_token_and_send(
    store: &mut Store,
    auth: &AuthUser,
    target_id: i32,
    token: String,
    now: i64,
) -> (r: Result<EmailNotification, AppError>)
    requires
        old(store)@.wf(),
    ensures
        final(store)@.wf(),
        match resend_spec(old(store)@, auth@, target_id as int, token@, now as int) {
            Ok(pair) => r is Ok && final(store)@ == pair.0 && r->Ok_0@ == pair.1,
            Err(k) => r is Err && final(store)@ == old(store)@ && r->Err_0.kind == k
                && r->Err_0.detail@ == resend_error_detail(k),
        },
{
    if auth.id != target_id {
        return Err(AppError::authorization("current user does not match requested user"));
    }
    let ghost orig = store@;
    match find_email_index(&store.emails, auth.id) {
        None => {
            proof {
                lemma_email_row_at_first(orig.emails, auth.id as int, orig.emails.len() as int);
            }
            Err(AppError::not_found("Email could not be found"))
        },
        Some(i) => {
            proof {
                lemma_email_row_at_first(orig.emails, auth.id as int, i as int);
            }
            let address = store.emails[i].email.clone();
            let new_row = EmailRow {
                user_id: store.emails[i].user_id,
                email: store.emails[i].email.clone(),
                token: token.clone(),
                token_generated_at: Some(now),
                verified: store.emails[i].verified,
            };
            store.emails[i] = new_row;
            let note = EmailNotification {
                email: address,
                gh_login: auth.gh_login.clone(),
                token,
            };
            proof {
                let pair = resend_spec(orig, auth@, target_id as int, note@.token, now as int)
                    ->Ok_0;
                assert forall|k: int| 0 <= k < orig.emails.len() implies store@.emails[k]
                    == pair.0.emails[k] by {
                    if k != i {
                        assert(orig.emails[k].user_id != orig.emails[i as int].user_id);
                    }
                }
                assert(store@.emails =~~= pair.0.emails);
                assert(store@ =~~= pair.0);
                assert(note@ =~~= pair.1);
                assert forall|a: int, b: int| 0 <= a < b < store@.emails.len() implies store@
                    .emails[a].user_id != store@.emails[b].user_id by {
                    assert(orig.emails[a].user_id != orig.emails[b].user_id);
                    assert(store@.emails[a].user_id == orig.emails[a].user_id);
                    assert(store@.emails[b].user_id == orig.emails[b].user_id);
                }
                crate::model::lemma_wf_from_parts(orig, store@);
            }
            Ok(note)
        },
    }
}

/// ResendConfirmation, second half: fold the dispatch outcome into the reply.
/// The only purpose of a resend is delivery, so a dispatch failure is
/// user-visible — yet the token rotated by [`regenerate_token_and_send`]
/// stays committed either way.
pub fn complete_resend(sent: bool) -> (r: Result<OkResponse, AppError>)
    ensures
        sent <==> r is Ok,
        r is Ok ==> r->Ok_0.ok,
        r is Err ==> r->Err_0.kind == ErrorKind::TransientStore && r->Err_0.detail@
            == "Error in sending email"@,
{
    if sent {
        Ok(OkResponse::new())
    } else {
        Err(AppError::transient("Error in sending email"))
    }
}

} // verus!
