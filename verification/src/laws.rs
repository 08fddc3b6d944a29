//! Guarantees that span several operations of the state machine, stated over
//! the store model and proved once for every well-formed store.

use vstd::prelude::*;

use crate::errors::ErrorKind;
use crate::model::AuthRec;
use crate::model::EmailRec;
use crate::model::StoreModel;
use crate::model::UserRec;
use crate::model::email_row_for;
use crate::model::lemma_wf_from_parts;
use crate::model::user_row_for;
use crate::profile::me_spec;
use crate::strutil::trim_spec;
use crate::verify_email::change_email_spec;
use crate::verify_email::confirm_email_spec;
use crate::verify_email::resend_spec;
use crate::verify_email::upsert_email_spec;

verus! {

/// A user id that occurs in the table is found by `user_row_for`.
proof fn lemma_user_row_some(users: Seq<UserRec>, uid: int)
    requires
        exists|i: int| 0 <= i < users.len() && users[i].id == uid,
    ensures
        user_row_for(users, uid) is Some,
    decreases users.len(),
{
    if users.len() > 0 && users[0].id != uid {
        let i = choose|i: int| 0 <= i < users.len() && users[i].id == uid;
        assert(users.drop_first()[i - 1] == users[i]);
        lemma_user_row_some(users.drop_first(), uid);
    }
}

/// After an upsert keyed by `row.user_id`, that user's email row is `row`.
proof fn lemma_email_row_after_upsert(emails: Seq<EmailRec>, row: EmailRec)
    ensures
        email_row_for(upsert_email_spec(emails, row), row.user_id) == Some(row),
    decreases emails.len(),
{
    let uid = row.user_id;
    if exists|i: int| 0 <= i < emails.len() && emails[i].user_id == uid {
        let mapped = upsert_email_spec(emails, row);
        if emails[0].user_id == uid {
            assert(mapped[0] == row);
        } else {
            let i = choose|i: int| 0 <= i < emails.len() && emails[i].user_id == uid;
            assert(emails.drop_first()[i - 1] == emails[i]);
            lemma_email_row_after_upsert(emails.drop_first(), row);
            assert(mapped.drop_first() =~= upsert_email_spec(emails.drop_first(), row));
            assert(mapped[0] == emails[0]);
        }
    } else {
        let pushed = emails.push(row);
        assert(pushed[emails.len() as int].user_id == uid);
        crate::verify_email::lemma_email_row_at_first(pushed, uid, emails.len() as int);
    }
}

/// A successful ChangeEmail keeps the store well-formed and the user present.
pub proof fn lemma_change_email_wf(
    s: StoreModel,
    auth: AuthRec,
    ef: Option<Seq<char>>,
    token: Seq<char>,
    now: int,
)
    requires
        s.wf(),
        s.has_user(auth.id),
        change_email_spec(s, auth, auth.id, ef, token, now) is Ok,
    ensures
        change_email_spec(s, auth, auth.id, ef, token, now)->Ok_0.0.wf(),
        change_email_spec(s, auth, auth.id, ef, token, now)->Ok_0.0.has_user(auth.id),
    decreases 0int,
{
    let s2 = change_email_spec(s, auth, auth.id, ef, token, now)->Ok_0.0;
    assert forall|a: int, b: int| 0 <= a < b < s2.emails.len() implies s2.emails[a].user_id
        != s2.emails[b].user_id by {
        if exists|i: int| 0 <= i < s.emails.len() && s.emails[i].user_id == auth.id {
            assert(s.emails[a].user_id != s.emails[b].user_id);
        } else {
            if b < s.emails.len() {
                assert(s.emails[a].user_id != s.emails[b].user_id);
            } else {
                assert(s2.emails[b].user_id == auth.id);
                assert(s.emails[a].user_id != auth.id);
            }
        }
    }
    lemma_wf_from_parts(s, s2);
    let i = choose|i: int| 0 <= i < s.users.len() && s.users[i].id == auth.id;
    assert(s2.users[i].id == auth.id);
}

/// After ChangeEmail succeeds, the profile reports the new address and
/// `verified == false`, whatever the prior state was.
pub proof fn lemma_change_email_resets_verification(
    s: StoreModel,
    auth: AuthRec,
    ef: Option<Seq<char>>,
    token: Seq<char>,
    now: int,
)
    requires
        s.wf(),
        s.has_user(auth.id),
        change_email_spec(s, auth, auth.id, ef, token, now) is Ok,
    ensures
        ({
            let s2 = change_email_spec(s, auth, auth.id, ef, token, now)->Ok_0.0;
            &&& me_spec(s2, auth.id) is Ok
            &&& me_spec(s2, auth.id)->Ok_0.email == Some(trim_spec(ef->Some_0))
            &&& me_spec(s2, auth.id)->Ok_0.verified == false
        }),
{
    let s2 = change_email_spec(s, auth, auth.id, ef, token, now)->Ok_0.0;
    let row = EmailRec {
        user_id: auth.id,
        address: trim_spec(ef->Some_0),
        token: token,
        generated_at: Some(now),
        verified: false,
    };
    lemma_change_email_wf(s, auth, ef, token, now);
    lemma_user_row_some(s2.users, auth.id);
    lemma_email_row_after_upsert(s.emails, row);
    assert(email_row_for(s2.emails, auth.id) == Some(row));
}

/// ConfirmEmail is idempotent: confirming a token that just confirmed
/// succeeds again and leaves the store exactly as it was.
pub proof fn lemma_confirm_email_idempotent(s: StoreModel, token: Seq<char>)
    requires
        confirm_email_spec(s, token) is Ok,
    ensures
        ({
            let s2 = confirm_email_spec(s, token)->Ok_0;
            &&& confirm_email_spec(s2, token) is Ok
            &&& confirm_email_spec(s2, token)->Ok_0 == s2
        }),
{
    let s2 = confirm_email_spec(s, token)->Ok_0;
    let i = choose|i: int| 0 <= i < s.emails.len() && s.emails[i].token == token;
    assert(s2.emails[i].token == token);
    assert(crate::model::token_present(s2.emails, token));
    let s3 = confirm_email_spec(s2, token)->Ok_0;
    assert forall|k: int| 0 <= k < s2.emails.len() implies #[trigger] s3.emails[k]
        == s2.emails[k] by {}
    assert(s3.emails =~~= s2.emails);
    assert(s3 =~~= s2);
}

/// ConfirmEmail with a token no email row carries always fails with the same
/// fixed lookup error; the reply carries nothing about any account.
pub proof fn lemma_confirm_unknown_token(s: StoreModel, token: Seq<char>)
    requires
        forall|i: int| 0 <= i < s.emails.len() ==> (#[trigger] s.emails[i]).token != token,
    ensures
        confirm_email_spec(s, token) is Err,
        confirm_email_spec(s, token)->Err_0 == ErrorKind::NotFound,
{
    assert(!crate::model::token_present(s.emails, token));
}

/// Two serialized ChangeEmail requests for the same user leave exactly one
/// email row for that user, carrying the later address and token, unverified.
pub proof fn lemma_concurrent_change_email_serialized(
    s: StoreModel,
    auth: AuthRec,
    ef1: Option<Seq<char>>,
    tok1: Seq<char>,
    now1: int,
    ef2: Option<Seq<char>>,
    tok2: Seq<char>,
    now2: int,
)
    requires
        s.wf(),
        s.has_user(auth.id),
        change_email_spec(s, auth, auth.id, ef1, tok1, now1) is Ok,
        change_email_spec(
            change_email_spec(s, auth, auth.id, ef1, tok1, now1)->Ok_0.0,
            auth,
            auth.id,
            ef2,
            tok2,
            now2,
        ) is Ok,
    ensures
        ({
            let s1 = change_email_spec(s, auth, auth.id, ef1, tok1, now1)->Ok_0.0;
            let s2 = change_email_spec(s1, auth, auth.id, ef2, tok2, now2)->Ok_0.0;
            &&& s2.wf()
            &&& email_row_for(s2.emails, auth.id) == Some(
                EmailRec {
                    user_id: auth.id,
                    address: trim_spec(ef2->Some_0),
                    token: tok2,
                    generated_at: Some(now2),
                    verified: false,
                },
            )
            &&& forall|i: int, j: int|
                0 <= i < s2.emails.len() && 0 <= j < s2.emails.len() && (#[trigger] s2.emails[
                    i
                ]).user_id == auth.id && (#[trigger] s2.emails[j]).user_id == auth.id ==> i == j
        }),
{
    let s1 = change_email_spec(s, auth, auth.id, ef1, tok1, now1)->Ok_0.0;
    let s2 = change_email_spec(s1, auth, auth.id, ef2, tok2, now2)->Ok_0.0;
    lemma_change_email_wf(s, auth, ef1, tok1, now1);
    lemma_change_email_wf(s1, auth, ef2, tok2, now2);
    let row2 = EmailRec {
        user_id: auth.id,
        address: trim_spec(ef2->Some_0),
        token: tok2,
        generated_at: Some(now2),
        verified: false,
    };
    lemma_email_row_after_upsert(s1.emails, row2);
}

/// Resending for a user without an email row is refused outright: the lookup
/// fails, so no token rotates and no notification is handed out.
pub proof fn lemma_resend_without_email_row(
    s: StoreModel,
    auth: AuthRec,
    token: Seq<char>,
    now: int,
)
    requires
        email_row_for(s.emails, auth.id) is None,
    ensures
        resend_spec(s, auth, auth.id, token, now) is Err,
        resend_spec(s, auth, auth.id, token, now)->Err_0 == ErrorKind::NotFound,
{
}

} // verus!
