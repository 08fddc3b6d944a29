//! The profile assembler: a user's composed profile (identity, verification
//! status, owned packages ordered by name) and the personalized update feed
//! (versions of followed packages, newest first, paginated).

use vstd::prelude::*;

use crate::errors::AppError;
use crate::errors::ErrorKind;
use crate::model::FollowRec;
use crate::model::FollowRow;
use crate::model::OwnerRec;
use crate::model::PackageRec;
use crate::model::PackageRow;
use crate::model::Store;
use crate::model::StoreModel;
use crate::model::UserRec;
use crate::model::UserRow;
use crate::model::VersionRec;
use crate::model::VersionRow;
use crate::model::email_row_for;
use crate::model::package_row_for;
use crate::model::user_row_for;
use crate::prefs::owned_by_user;
use crate::strutil::lemma_lex_total;
use crate::strutil::lemma_lex_trans;
use crate::strutil::lex_le;
use crate::strutil::str_le;

verus! {

// ---------------------------------------------------------------------------
// Response shapes
// ---------------------------------------------------------------------------

/// One package the user owns, with that owner's notification flag.
pub struct OwnedPackage {
    pub id: i32,
    pub name: String,
    pub email_notifications: bool,
}

/// The private profile view: identity joined with verification status.
pub struct PrivateUser {
    pub id: i32,
    pub gh_login: String,
    pub email: Option<String>,
    pub email_verified: bool,
    pub email_verification_sent: bool,
}

/// The composed profile reply.
pub struct MeResponse {
    pub user: PrivateUser,
    pub owned_crates: Vec<OwnedPackage>,
}

/// One feed line: a version, its package's name, and the publishing user if
/// one is recorded.
pub struct FeedEntry {
    pub version: VersionRow,
    pub crate_name: String,
    pub published_by: Option<UserRow>,
}

/// One page of the update feed, plus whether a later page is non-empty.
pub struct UpdatesResponse {
    pub versions: Vec<FeedEntry>,
    pub more: bool,
}

#[verifier::ext_equal]
pub ghost struct OwnedRec {
    pub id: int,
    pub name: Seq<char>,
    pub email_notifications: bool,
}

#[verifier::ext_equal]
pub ghost struct ProfileRec {
    pub id: int,
    pub login: Seq<char>,
    pub email: Option<Seq<char>>,
    pub verified: bool,
    pub verification_sent: bool,
    pub owned: Seq<OwnedRec>,
}

#[verifier::ext_equal]
pub ghost struct FeedEntryRec {
    pub version: VersionRec,
    pub name: Seq<char>,
    pub published_by: Option<UserRec>,
}

#[verifier::ext_equal]
pub ghost struct UpdatesRec {
    pub versions: Seq<FeedEntryRec>,
    pub more: bool,
}

impl View for OwnedPackage {
    type V = OwnedRec;

    open spec fn view(&self) -> OwnedRec {
        OwnedRec {
            id: self.id as int,
            name: self.name@,
            email_notifications: self.email_notifications,
        }
    }
}

impl View for MeResponse {
    type V = ProfileRec;

    open spec fn view(&self) -> ProfileRec {
        ProfileRec {
            id: self.user.id as int,
            login: self.user.gh_login@,
            email: crate::model::opt_str_view(self.user.email),
            verified: self.user.email_verified,
            verification_sent: self.user.email_verification_sent,
            owned: self.owned_crates@.map_values(|o: OwnedPackage| o@),
        }
    }
}

impl View for FeedEntry {
    type V = FeedEntryRec;

    open spec fn view(&self) -> FeedEntryRec {
        FeedEntryRec {
            version: self.version@,
            name: self.crate_name@,
            published_by: match self.published_by {
                Some(ref u) => Some(u@),
                None => None,
            },
        }
    }
}

impl View for UpdatesResponse {
    type V = UpdatesRec;

    open spec fn view(&self) -> UpdatesRec {
        UpdatesRec {
            versions: self.versions@.map_values(|e: FeedEntry| e@),
            more: self.more,
        }
    }
}

// ---------------------------------------------------------------------------
// Specification
// ---------------------------------------------------------------------------

/// Whether `uid` follows `pid`.
pub open spec fn followed(follows: Seq<FollowRec>, uid: int, pid: int) -> bool {
    exists|i: int|
        0 <= i < follows.len() && follows[i].user_id == uid && follows[i].package_id == pid
}

/// The versions of followed packages, in table order.
pub open spec fn followed_versions(
    versions: Seq<VersionRec>,
    follows: Seq<FollowRec>,
    uid: int,
) -> Seq<VersionRec>
    decreases versions.len(),
{
    if versions.len() == 0 {
        Seq::empty()
    } else {
        let rest = followed_versions(versions.drop_last(), follows, uid);
        if followed(follows, uid, versions.last().package_id) {
            rest.push(versions.last())
        } else {
            rest
        }
    }
}

/// The user's owned packages in table order, each joined with its name.
pub open spec fn owned_list(
    owners: Seq<OwnerRec>,
    packages: Seq<PackageRec>,
    uid: int,
) -> Seq<OwnedRec>
    decreases owners.len(),
{
    if owners.len() == 0 {
        Seq::empty()
    } else {
        let rest = owned_list(owners.drop_last(), packages, uid);
        let r = owners.last();
        if owned_by_user(r, uid) {
            rest.push(
                OwnedRec {
                    id: r.package_id,
                    name: package_row_for(packages, r.package_id)->Some_0.name,
                    email_notifications: r.email_notifications,
                },
            )
        } else {
            rest
        }
    }
}

/// Insertion into a name-ordered sequence.
pub open spec fn insert_owned(x: OwnedRec, s: Seq<OwnedRec>) -> Seq<OwnedRec>
    decreases s.len(),
{
    if s.len() == 0 {
        seq![x]
    } else if lex_le(x.name, s[0].name) {
        seq![x] + s
    } else {
        seq![s[0]] + insert_owned(x, s.drop_first())
    }
}

/// Insertion sort by package name ascending.
pub open spec fn sort_owned(s: Seq<OwnedRec>) -> Seq<OwnedRec>
    decreases s.len(),
{
    if s.len() == 0 {
        Seq::empty()
    } else {
        insert_owned(s.last(), sort_owned(s.drop_last()))
    }
}

/// Name order, ascending.
pub open spec fn owned_sorted(s: Seq<OwnedRec>) -> bool {
    forall|i: int, j: int| 0 <= i < j < s.len() ==> lex_le(s[i].name, s[j].name)
}

/// Insertion into a sequence ordered by publish time descending.
pub open spec fn insert_version(x: VersionRec, s: Seq<VersionRec>) -> Seq<VersionRec>
    decreases s.len(),
{
    if s.len() == 0 {
        seq![x]
    } else if x.created_at >= s[0].created_at {
        seq![x] + s
    } else {
        seq![s[0]] + insert_version(x, s.drop_first())
    }
}

/// Insertion sort by publish time descending.
pub open spec fn sort_versions(s: Seq<VersionRec>) -> Seq<VersionRec>
    decreases s.len(),
{
    if s.len() == 0 {
        Seq::empty()
    } else {
        insert_version(s.last(), sort_versions(s.drop_last()))
    }
}

/// Publish time order, newest first.
pub open spec fn versions_sorted(s: Seq<VersionRec>) -> bool {
    forall|i: int, j: int| 0 <= i < j < s.len() ==> s[i].created_at >= s[j].created_at
}

/// One feed line for a version: its package's name and its publisher.
pub open spec fn feed_entry(s: StoreModel, v: VersionRec) -> FeedEntryRec {
    FeedEntryRec {
        version: v,
        name: package_row_for(s.packages, v.package_id)->Some_0.name,
        published_by: match v.published_by {
            Some(u) => user_row_for(s.users, u),
            None => None,
        },
    }
}

/// GetProfile: the user row joined (left) with its email row — `verified`
/// defaults false without a row, and `verification_sent` holds once any token
/// was ever issued or the address is verified — plus the owned packages
/// ordered by name.
pub open spec fn me_spec(s: StoreModel, uid: int) -> Result<ProfileRec, ErrorKind> {
    match user_row_for(s.users, uid) {
        None => Err(ErrorKind::NotFound),
        Some(u) => {
            let er = email_row_for(s.emails, uid);
            let verified = match er {
                Some(e) => e.verified,
                None => false,
            };
            Ok(
                ProfileRec {
                    id: uid,
                    login: u.login,
                    email: match er {
                        Some(e) => Some(e.address),
                        None => None,
                    },
                    verified: verified,
                    verification_sent: verified || match er {
                        Some(e) => e.generated_at is Some,
                        None => false,
                    },
                    owned: sort_owned(owned_list(s.owners, s.packages, uid)),
                },
            )
        },
    }
}

/// GetUpdateFeed: all versions of followed packages, newest first, the
/// requested window, and whether a later page is non-empty.
pub open spec fn updates_spec(s: StoreModel, uid: int, offset: int, limit: int) -> UpdatesRec {
    let all = sort_versions(followed_versions(s.versions, s.follows, uid));
    let lo = if offset < all.len() {
        offset
    } else {
        all.len() as int
    };
    let hi = if offset + limit < all.len() {
        offset + limit
    } else {
        all.len() as int
    };
    UpdatesRec {
        versions: all.subrange(lo, hi).map_values(|v: VersionRec| feed_entry(s, v)),
        more: offset + limit < all.len(),
    }
}

// ---------------------------------------------------------------------------
// Lemmas
// ---------------------------------------------------------------------------

/// `user_row_for` returns the row at the first matching index.
pub proof fn lemma_user_row_at_first(users: Seq<UserRec>, uid: int, i: int)
    requires
        0 <= i <= users.len(),
        forall|k: int| 0 <= k < i ==> users[k].id != uid,
        i < users.len() ==> users[i].id == uid,
    ensures
        i < users.len() ==> user_row_for(users, uid) == Some(users[i]),
        i == users.len() ==> user_row_for(users, uid) is None,
    decreases i,
{
    if i == 0 {
    } else {
        assert(users[0].id != uid);
        lemma_user_row_at_first(users.drop_first(), uid, i - 1);
        if i < users.len() {
            assert(users.drop_first()[i - 1] == users[i]);
        }
    }
}

/// `package_row_for` returns the row at the first matching index.
pub proof fn lemma_package_row_at_first(packages: Seq<PackageRec>, pid: int, i: int)
    requires
        0 <= i <= packages.len(),
        forall|k: int| 0 <= k < i ==> packages[k].id != pid,
        i < packages.len() ==> packages[i].id == pid,
    ensures
        i < packages.len() ==> package_row_for(packages, pid) == Some(packages[i]),
        i == packages.len() ==> package_row_for(packages, pid) is None,
    decreases i,
{
    if i == 0 {
    } else {
        assert(packages[0].id != pid);
        lemma_package_row_at_first(packages.drop_first(), pid, i - 1);
        if i < packages.len() {
            assert(packages.drop_first()[i - 1] == packages[i]);
        }
    }
}

/// Inserting at the first position whose element is not below `x` is what
/// `insert_owned` computes.
proof fn lemma_insert_owned_at(x: OwnedRec, s: Seq<OwnedRec>, p: int)
    requires
        0 <= p <= s.len(),
        forall|k: int| 0 <= k < p ==> !lex_le(x.name, (#[trigger] s[k]).name),
        p < s.len() ==> lex_le(x.name, s[p].name),
    ensures
        insert_owned(x, s) == s.take(p) + seq![x] + s.skip(p),
    decreases p,
{
    if p == 0 {
        if s.len() == 0 {
            assert(insert_owned(x, s) =~= s.take(0) + seq![x] + s.skip(0));
        } else {
            assert(lex_le(x.name, s[0].name));
            assert(seq![x] + s =~= s.take(0) + seq![x] + s.skip(0));
        }
    } else {
        assert(!lex_le(x.name, s[0].name));
        assert(forall|k: int|
            0 <= k < p - 1 ==> !lex_le(x.name, (#[trigger] s.drop_first()[k]).name));
        lemma_insert_owned_at(x, s.drop_first(), p - 1);
        assert(seq![s[0]] + (s.drop_first().take(p - 1) + seq![x] + s.drop_first().skip(p - 1))
            =~= s.take(p) + seq![x] + s.skip(p));
    }
}

/// Every element of an insertion is the inserted one or one of the old ones.
proof fn lemma_insert_version_elems(x: VersionRec, s: Seq<VersionRec>, k: int)
    requires
        0 <= k < insert_version(x, s).len(),
    ensures
        insert_version(x, s)[k] == x || s.contains(insert_version(x, s)[k]),
    decreases s.len(),
{
    if s.len() == 0 {
    } else if x.created_at >= s[0].created_at {
        if k > 0 {
            assert(insert_version(x, s)[k] == s[k - 1]);
        }
    } else {
        if k > 0 {
            assert(insert_version(x, s)[k] == insert_version(x, s.drop_first())[k - 1]);
            lemma_insert_version_elems(x, s.drop_first(), k - 1);
            if s.drop_first().contains(insert_version(x, s)[k]) {
                let m = choose|m: int|
                    0 <= m < s.drop_first().len() && s.drop_first()[m] == insert_version(x, s)[k];
                assert(s[m + 1] == insert_version(x, s)[k]);
                assert(s.contains(insert_version(x, s)[k]));
            }
        } else {
            assert(insert_version(x, s)[0] == s[0]);
            assert(s.contains(s[0]));
        }
    }
}

/// Inserting at the first position whose element is not newer is what
/// `insert_version` computes.
proof fn lemma_insert_version_at(x: VersionRec, s: Seq<VersionRec>, p: int)
    requires
        0 <= p <= s.len(),
        forall|k: int| 0 <= k < p ==> !(x.created_at >= (#[trigger] s[k]).created_at),
        p < s.len() ==> x.created_at >= s[p].created_at,
    ensures
        insert_version(x, s) == s.take(p) + seq![x] + s.skip(p),
    decreases p,
{
    if p == 0 {
        if s.len() == 0 {
            assert(insert_version(x, s) =~= s.take(0) + seq![x] + s.skip(0));
        } else {
            assert(seq![x] + s =~= s.take(0) + seq![x] + s.skip(0));
        }
    } else {
        assert(!(x.created_at >= s[0].created_at));
        assert(forall|k: int|
            0 <= k < p - 1 ==> !(x.created_at >= (#[trigger] s.drop_first()[k]).created_at));
        lemma_insert_version_at(x, s.drop_first(), p - 1);
        assert(seq![s[0]] + (s.drop_first().take(p - 1) + seq![x] + s.drop_first().skip(p - 1))
            =~= s.take(p) + seq![x] + s.skip(p));
    }
}

// ---------------------------------------------------------------------------
// Executable helpers
// ---------------------------------------------------------------------------

/// The index of the user row of `uid`, scanning from the front.
pub(crate) fn find_user_index(users: &Vec<UserRow>, uid: i32) -> (r: Option<usize>)
    ensures
        match r {
            Some(i) => i < users.len() && users@[i as int]@.id == uid as int && forall|k: int|
                0 <= k < i ==> users@[k]@.id != uid as int,
            None => forall|k: int| 0 <= k < users.len() ==> users@[k]@.id != uid as int,
        },
{
    let mut i: usize = 0;
    while i < users.len()
        invariant
            0 <= i <= users.len(),
            forall|k: int| 0 <= k < i ==> users@[k]@.id != uid as int,
        decreases users.len() - i,
    {
        if users[i].id == uid {
            return Some(i);
        }
        i = i + 1;
    }
    None
}

/// The index of the package row of `pid`, scanning from the front.
fn find_package_index(packages: &Vec<PackageRow>, pid: i32) -> (r: Option<usize>)
    ensures
        match r {
            Some(i) => i < packages.len() && packages@[i as int]@.id == pid as int && forall|
                k: int,
            | 0 <= k < i ==> packages@[k]@.id != pid as int,
            None => forall|k: int| 0 <= k < packages.len() ==> packages@[k]@.id != pid as int,
        },
{
    let mut i: usize = 0;
    while i < packages.len()
        invariant
            0 <= i <= packages.len(),
            forall|k: int| 0 <= k < i ==> packages@[k]@.id != pid as int,
        decreases packages.len() - i,
    {
        if packages[i].id == pid {
            return Some(i);
        }
        i = i + 1;
    }
    None
}

/// Whether `uid` follows `pid`.
fn is_followed(follows: &Vec<FollowRow>, uid: i32, pid: i32) -> (r: bool)
    ensures
        r == followed(follows@.map_values(|f: FollowRow| f@), uid as int, pid as int),
{
    let ghost fv = follows@.map_values(|f: FollowRow| f@);
    let mut i: usize = 0;
    while i < follows.len()
        invariant
            0 <= i <= follows.len(),
            fv == follows@.map_values(|f: FollowRow| f@),
            forall|k: int|
                0 <= k < i ==> !((#[trigger] fv[k]).user_id == uid as int && fv[k].package_id
                    == pid as int),
        decreases follows.len() - i,
    {
        if follows[i].user_id == uid && follows[i].package_id == pid {
            assert(fv[i as int].user_id == uid as int && fv[i as int].package_id == pid as int);
            return true;
        }
        i = i + 1;
    }
    false
}

/// A fresh copy of a version row.
fn clone_version(v: &VersionRow) -> (r: VersionRow)
    ensures
        r@ == v@,
{
    VersionRow {
        id: v.id,
        package_id: v.package_id,
        num: v.num.clone(),
        created_at: v.created_at,
        published_by: v.published_by,
    }
}

/// A fresh copy of a user row.
fn clone_user(u: &UserRow) -> (r: UserRow)
    ensures
        r@ == u@,
{
    UserRow {
        id: u.id,
        gh_login: u.gh_login.clone(),
        email: match &u.email {
            Some(e) => Some(e.clone()),
            None => None,
        },
    }
}

/// Insert one owned package into a name-ordered list.
fn insert_owned_exec(out: &mut Vec<OwnedPackage>, x: OwnedPackage)
    requires
        owned_sorted(old(out)@.map_values(|o: OwnedPackage| o@)),
    ensures
        final(out)@.map_values(|o: OwnedPackage| o@) == insert_owned(
            x@,
            old(out)@.map_values(|o: OwnedPackage| o@),
        ),
        owned_sorted(final(out)@.map_values(|o: OwnedPackage| o@)),
{
    let ghost s = out@.map_values(|o: OwnedPackage| o@);
    let mut p: usize = 0;
    while p < out.len() && !str_le(x.name.as_str(), out[p].name.as_str())
        invariant
            0 <= p <= out.len(),
            s == out@.map_values(|o: OwnedPackage| o@),
            forall|k: int| 0 <= k < p ==> !lex_le(x@.name, (#[trigger] s[k]).name),
        decreases out.len() - p,
    {
        p = p + 1;
    }
    proof {
        lemma_insert_owned_at(x@, s, p as int);
    }
    out.insert(p, x);
    proof {
        let t = out@.map_values(|o: OwnedPackage| o@);
        assert(t =~~= s.take(p as int) + seq![x@] + s.skip(p as int));
        assert forall|i: int, j: int| 0 <= i < j < t.len() implies lex_le(
            t[i].name,
            t[j].name,
        ) by {
            if j < p {
                assert(lex_le(s[i].name, s[j].name));
            } else if i < p && j == p {
                assert(!lex_le(x@.name, s[i].name));
                lemma_lex_total(x@.name, s[i].name);
            } else if i < p && j > p {
                assert(lex_le(s[i].name, s[j - 1].name));
            } else if i == p && j > p {
                if j - 1 == p {
                    assert(lex_le(x@.name, s[p as int].name));
                } else {
                    assert(lex_le(x@.name, s[p as int].name));
                    assert(lex_le(s[p as int].name, s[j - 1].name));
                    lemma_lex_trans(x@.name, s[p as int].name, s[j - 1].name);
                }
            } else {
                assert(i > p && j > p);
                assert(lex_le(s[i - 1].name, s[j - 1].name));
            }
        }
    }
}

/// Insert one version into a list ordered newest first.
fn insert_version_exec(out: &mut Vec<VersionRow>, x: VersionRow)
    requires
        versions_sorted(old(out)@.map_values(|v: VersionRow| v@)),
    ensures
        final(out)@.map_values(|v: VersionRow| v@) == insert_version(
            x@,
            old(out)@.map_values(|v: VersionRow| v@),
        ),
        versions_sorted(final(out)@.map_values(|v: VersionRow| v@)),
{
    let ghost s = out@.map_values(|v: VersionRow| v@);
    let mut p: usize = 0;
    while p < out.len() && !(x.created_at >= out[p].created_at)
        invariant
            0 <= p <= out.len(),
            s == out@.map_values(|v: VersionRow| v@),
            forall|k: int| 0 <= k < p ==> !(x@.created_at >= (#[trigger] s[k]).created_at),
        decreases out.len() - p,
    {
        p = p + 1;
    }
    proof {
        lemma_insert_version_at(x@, s, p as int);
    }
    out.insert(p, x);
    proof {
        let t = out@.map_values(|v: VersionRow| v@);
        assert(t =~~= s.take(p as int) + seq![x@] + s.skip(p as int));
        assert(0 <= p as int <= s.len() && t == s.take(p as int) + seq![x@] + s.skip(p as int));
    }
}

/// A fresh copy of an owned-package line.
fn clone_owned(o: &OwnedPackage) -> (r: OwnedPackage)
    ensures
        r@ == o@,
{
    OwnedPackage { id: o.id, name: o.name.clone(), email_notifications: o.email_notifications }
}

// ---------------------------------------------------------------------------
// The operations
// ---------------------------------------------------------------------------

/// GetProfile: compose the user's identity, verification status and owned
/// packages (ordered by name ascending). Reads only; the store is untouched.
pub fn me(store: &Store, user_id: i32) -> (r: Result<MeResponse, AppError>)
    requires
        store@.wf(),
    ensures
        match me_spec(store@, user_id as int) {
            Ok(p) => r is Ok && r->Ok_0@ == p && owned_sorted(p.owned),
            Err(k) => r is Err && r->Err_0.kind == k && r->Err_0.detail@ == "user not found"@,
        },
{
    let ui = match find_user_index(&store.users, user_id) {
        None => {
            proof {
                lemma_user_row_at_first(store@.users, user_id as int, store@.users.len() as int);
            }
            return Err(AppError::not_found("user not found"));
        },
        Some(ui) => ui,
    };
    proof {
        lemma_user_row_at_first(store@.users, user_id as int, ui as int);
    }
    let (email, verified, sent): (Option<String>, bool, bool) = match crate::verify_email::find_email_index(
        &store.emails,
        user_id,
    ) {
        Some(ei) => {
            proof {
                crate::verify_email::lemma_email_row_at_first(
                    store@.emails,
                    user_id as int,
                    ei as int,
                );
            }
            let v = store.emails[ei].verified;
            (
                Some(store.emails[ei].email.clone()),
                v,
                v || store.emails[ei].token_generated_at.is_some(),
            )
        },
        None => {
            proof {
                crate::verify_email::lemma_email_row_at_first(
                    store@.emails,
                    user_id as int,
                    store@.emails.len() as int,
                );
            }
            (None, false, false)
        },
    };
    let mut owned: Vec<OwnedPackage> = Vec::new();
    let mut i: usize = 0;
    while i < store.owners.len()
        invariant
            0 <= i <= store.owners.len(),
            store@.wf(),
            owned@.map_values(|o: OwnedPackage| o@) == owned_list(
                store@.owners.take(i as int),
                store@.packages,
                user_id as int,
            ),
        decreases store.owners.len() - i,
    {
        let ghost ow = store@.owners;
        proof {
            assert(ow.take(i + 1).drop_last() =~= ow.take(i as int));
            assert(ow.take(i + 1).last() == ow[i as int]);
        }
        if store.owners[i].owner_id == user_id && store.owners[i].owner_kind
            == crate::model::OwnerKind::User {
            let pid = store.owners[i].package_id;
            proof {
                assert(store@.has_package(store@.owners[i as int].package_id));
            }
            let name = match find_package_index(&store.packages, pid) {
                Some(pi) => {
                    proof {
                        lemma_package_row_at_first(store@.packages, pid as int, pi as int);
                    }
                    store.packages[pi].name.clone()
                },
                None => {
                    proof {
                        let j = choose|j: int|
                            0 <= j < store@.packages.len() && store@.packages[j].id == pid as int;
                        assert(store@.packages[j].id == pid as int);
                        assert(false);
                    }
                    String::new()
                },
            };
            let op = OwnedPackage {
                id: pid,
                name,
                email_notifications: store.owners[i].email_notifications,
            };
            owned.push(op);
            proof {
                assert(owned@.map_values(|o: OwnedPackage| o@) =~~= owned_list(
                    ow.take(i + 1),
                    store@.packages,
                    user_id as int,
                ));
            }
        } else {
            proof {
                assert(owned@.map_values(|o: OwnedPackage| o@) =~~= owned_list(
                    ow.take(i + 1),
                    store@.packages,
                    user_id as int,
                ));
            }
        }
        i = i + 1;
    }
    proof {
        assert(store@.owners.take(store@.owners.len() as int) =~= store@.owners);
    }
    let mut sorted_owned: Vec<OwnedPackage> = Vec::new();
    let mut j: usize = 0;
    while j < owned.len()
        invariant
            0 <= j <= owned.len(),
            sorted_owned@.map_values(|o: OwnedPackage| o@) == sort_owned(
                owned@.map_values(|o: OwnedPackage| o@).take(j as int),
            ),
            owned_sorted(sorted_owned@.map_values(|o: OwnedPackage| o@)),
        decreases owned.len() - j,
    {
        let ghost ov = owned@.map_values(|o: OwnedPackage| o@);
        proof {
            assert(ov.take(j + 1).drop_last() =~= ov.take(j as int));
            assert(ov.take(j + 1).last() == ov[j as int]);
        }
        insert_owned_exec(&mut sorted_owned, clone_owned(&owned[j]));
        j = j + 1;
    }
    proof {
        let ov = owned@.map_values(|o: OwnedPackage| o@);
        assert(ov.take(ov.len() as int) =~= ov);
    }
    let user = PrivateUser {
        id: user_id,
        gh_login: store.users[ui].gh_login.clone(),
        email,
        email_verified: verified,
        email_verification_sent: sent,
    };
    let resp = MeResponse { user, owned_crates: sorted_owned };
    proof {
        assert(resp@ =~~= me_spec(store@, user_id as int)->Ok_0);
    }
    Ok(resp)
}

/// GetUpdateFeed: the requested window of the versions of followed packages,
/// newest first, and whether a later page is non-empty. `offset` and `limit`
/// describe the page.
pub fn updates(store: &Store, user_id: i32, offset: usize, limit: usize) -> (r: UpdatesResponse)
    requires
        store@.wf(),
        offset as int + limit as int <= usize::MAX as int,
    ensures
        r@ == updates_spec(store@, user_id as int, offset as int, limit as int),
        versions_sorted(r@.versions.map_values(|e: FeedEntryRec| e.version)),
{
    let mut matching: Vec<VersionRow> = Vec::new();
    let mut i: usize = 0;
    while i < store.versions.len()
        invariant
            0 <= i <= store.versions.len(),
            store@.wf(),
            matching@.map_values(|v: VersionRow| v@) == followed_versions(
                store@.versions.take(i as int),
                store@.follows,
                user_id as int,
            ),
            forall|k: int|
                0 <= k < matching@.len() ==> store@.has_package(
                    (#[trigger] matching@[k])@.package_id,
                ),
        decreases store.versions.len() - i,
    {
        let ghost vs = store@.versions;
        proof {
            assert(vs.take(i + 1).drop_last() =~= vs.take(i as int));
            assert(vs.take(i + 1).last() == vs[i as int]);
        }
        if is_followed(&store.follows, user_id, store.versions[i].package_id) {
            matching.push(clone_version(&store.versions[i]));
            proof {
                assert(matching@.map_values(|v: VersionRow| v@) =~~= followed_versions(
                    vs.take(i + 1),
                    store@.follows,
                    user_id as int,
                ));
                assert(store@.has_package(store@.versions[i as int].package_id));
            }
        } else {
            proof {
                assert(matching@.map_values(|v: VersionRow| v@) =~~= followed_versions(
                    vs.take(i + 1),
                    store@.follows,
                    user_id as int,
                ));
            }
        }
        i = i + 1;
    }
    proof {
        assert(store@.versions.take(store@.versions.len() as int) =~= store@.versions);
    }
    let mut sorted: Vec<VersionRow> = Vec::new();
    let mut j: usize = 0;
    while j < matching.len()
        invariant
            0 <= j <= matching.len(),
            store@.wf(),
            sorted@.map_values(|v: VersionRow| v@) == sort_versions(
                matching@.map_values(|v: VersionRow| v@).take(j as int),
            ),
            versions_sorted(sorted@.map_values(|v: VersionRow| v@)),
            forall|k: int|
                0 <= k < matching@.len() ==> store@.has_package(
                    (#[trigger] matching@[k])@.package_id,
                ),
            forall|k: int|
                0 <= k < sorted@.len() ==> store@.has_package(
                    (#[trigger] sorted@[k])@.package_id,
                ),
        decreases matching.len() - j,
    {
        let ghost mv = matching@.map_values(|v: VersionRow| v@);
        let ghost before = sorted@.map_values(|v: VersionRow| v@);
        proof {
            assert(mv.take(j + 1).drop_last() =~= mv.take(j as int));
            assert(mv.take(j + 1).last() == mv[j as int]);
        }
        insert_version_exec(&mut sorted, clone_version(&matching[j]));
        proof {
            let after = sorted@.map_values(|v: VersionRow| v@);
            assert forall|k2: int| 0 <= k2 < sorted@.len() implies store@.has_package(
                (#[trigger] sorted@[k2])@.package_id,
            ) by {
                assert(sorted@[k2]@ == after[k2]);
                lemma_insert_version_elems(mv[j as int], before, k2);
                if after[k2] == mv[j as int] {
                    assert(store@.has_package(mv[j as int].package_id));
                } else {
                    let m = choose|m: int| 0 <= m < before.len() && before[m] == after[k2];
                    assert(store@.has_package(before[m].package_id));
                }
            }
        }
        j = j + 1;
    }
    proof {
        let mv = matching@.map_values(|v: VersionRow| v@);
        assert(mv.take(mv.len() as int) =~= mv);
    }
    let ghost all = sort_versions(
        followed_versions(store@.versions, store@.follows, user_id as int),
    );
    proof {
        assert(sorted@.map_values(|v: VersionRow| v@) == all);
    }
    let total = sorted.len();
    let start = if offset < total {
        offset
    } else {
        total
    };
    let end = if offset + limit < total {
        offset + limit
    } else {
        total
    };
    let mut entries: Vec<FeedEntry> = Vec::new();
    let mut k = start;
    while k < end
        invariant
            start <= k <= end,
            end <= sorted.len(),
            store@.wf(),
            all == sorted@.map_values(|v: VersionRow| v@),
            forall|t: int|
                0 <= t < sorted@.len() ==> store@.has_package(
                    (#[trigger] sorted@[t])@.package_id,
                ),
            entries@.len() == k - start,
            forall|t: int|
                0 <= t < entries@.len() ==> (#[trigger] entries@[t])@ == feed_entry(
                    store@,
                    all[start + t],
                ),
        decreases end - k,
    {
        let v = clone_version(&sorted[k]);
        proof {
            assert(v@ == all[k as int]);
            assert(store@.has_package(v@.package_id));
        }
        let name = match find_package_index(&store.packages, v.package_id) {
            Some(pi) => {
                proof {
                    lemma_package_row_at_first(store@.packages, v@.package_id, pi as int);
                }
                store.packages[pi].name.clone()
            },
            None => {
                proof {
                    let j2 = choose|j2: int|
                        0 <= j2 < store@.packages.len() && store@.packages[j2].id
                            == v@.package_id;
                    assert(store@.packages[j2].id == v@.package_id);
                    assert(false);
                }
                String::new()
            },
        };
        let published_by: Option<UserRow> = match v.published_by {
            Some(u2) => match find_user_index(&store.users, u2) {
                Some(uj) => {
                    proof {
                        lemma_user_row_at_first(store@.users, u2 as int, uj as int);
                    }
                    Some(clone_user(&store.users[uj]))
                },
                None => {
                    proof {
                        lemma_user_row_at_first(
                            store@.users,
                            u2 as int,
                            store@.users.len() as int,
                        );
                    }
                    None
                },
            },
            None => None,
        };
        entries.push(FeedEntry { version: v, crate_name: name, published_by });
        proof {
            let n = entries@.len();
            assert(entries@[n - 1]@.version == all[k as int]);
            assert(entries@[n - 1]@.name == package_row_for(
                store@.packages,
                all[k as int].package_id,
            )->Some_0.name);
            assert(entries@[n - 1]@.published_by == (match all[k as int].published_by {
                Some(u3) => user_row_for(store@.users, u3),
                None => None,
            }));
            assert(entries@[n - 1]@ =~~= feed_entry(store@, all[k as int]));
        }
        k = k + 1;
    }
    let more = offset + limit < total;
    let resp = UpdatesResponse { versions: entries, more };
    proof {
        let spec_r = updates_spec(store@, user_id as int, offset as int, limit as int);
        let page = all.subrange(start as int, end as int);
        assert(all.len() == total as int);
        assert(resp@.versions.len() == spec_r.versions.len());
        assert forall|t: int| 0 <= t < resp@.versions.len() implies #[trigger] resp@.versions[t]
            == spec_r.versions[t] by {
            assert(resp@.versions[t] == entries@[t]@);
            assert(entries@[t]@ == feed_entry(store@, all[start + t]));
            assert(spec_r.versions[t] == feed_entry(store@, page[t]));
            assert(page[t] == all[start + t]);
        }
        assert(resp@.versions =~= spec_r.versions);
        assert(resp@ =~~= spec_r);
        assert(resp@.versions.map_values(|e: FeedEntryRec| e.version) =~~= page);
        assert forall|a: int, b: int| 0 <= a < b < page.len() implies (#[trigger] page[
            a
        ]).created_at >= (#[trigger] page[b]).created_at by {
            assert(page[a] == all[start + a]);
            assert(page[b] == all[start + b]);
        }
        assert(versions_sorted(page));
    }
    resp
}

} // verus!
