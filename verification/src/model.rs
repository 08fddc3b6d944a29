//! The identity store: durable rows for users, email records, packages,
//! ownership, follows and published versions, together with the mathematical
//! model (`StoreModel`) that every contract speaks of.

use vstd::prelude::*;

verus! {

/// Discriminator between individual-user ownership and team ownership.
#[derive(Clone, Copy, Debug, PartialEq, Eq, Structural)]
pub enum OwnerKind {
    User,
    Team,
}

/// A registered account. `email` is the denormalized copy of the address kept
/// for profile display; the authoritative record is the user's `EmailRow`.
pub struct UserRow {
    pub id: i32,
    pub gh_login: String,
    pub email: Option<String>,
}

/// The at-most-one email record of a user: address, the one-time confirmation
/// token with its generation time, and the verified flag.
pub struct EmailRow {
    pub user_id: i32,
    pub email: String,
    pub token: String,
    pub token_generated_at: Option<i64>,
    pub verified: bool,
}

/// A published package.
pub struct PackageRow {
    pub id: i32,
    pub name: String,
}

/// Ownership of a package by a principal, with that owner's per-package
/// notification flag. Unique on (package, owner, owner kind).
pub struct OwnerRow {
    pub package_id: i32,
    pub owner_id: i32,
    pub owner_kind: OwnerKind,
    pub email_notifications: bool,
}

/// A user tracking a package for their update feed.
pub struct FollowRow {
    pub user_id: i32,
    pub package_id: i32,
}

/// An immutable published version of a package.
pub struct VersionRow {
    pub id: i32,
    pub package_id: i32,
    pub num: String,
    pub created_at: i64,
    pub published_by: Option<i32>,
}

/// The already-authenticated acting identity, resolved and trusted by the
/// caller before any operation runs.
pub struct AuthUser {
    pub id: i32,
    pub gh_login: String,
}

/// The whole identity store.
pub struct Store {
    pub users: Vec<UserRow>,
    pub emails: Vec<EmailRow>,
    pub packages: Vec<PackageRow>,
    pub owners: Vec<OwnerRow>,
    pub follows: Vec<FollowRow>,
    pub versions: Vec<VersionRow>,
}

// ---------------------------------------------------------------------------
// Mathematical views
// ---------------------------------------------------------------------------

#[verifier::ext_equal]
pub ghost struct UserRec {
    pub id: int,
    pub login: Seq<char>,
    pub address: Option<Seq<char>>,
}

#[verifier::ext_equal]
pub ghost struct EmailRec {
    pub user_id: int,
    pub address: Seq<char>,
    pub token: Seq<char>,
    pub generated_at: Option<int>,
    pub verified: bool,
}

#[verifier::ext_equal]
pub ghost struct PackageRec {
    pub id: int,
    pub name: Seq<char>,
}

#[verifier::ext_equal]
pub ghost struct OwnerRec {
    pub package_id: int,
    pub owner_id: int,
    pub owner_kind: OwnerKind,
    pub email_notifications: bool,
}

#[verifier::ext_equal]
pub ghost struct FollowRec {
    pub user_id: int,
    pub package_id: int,
}

#[verifier::ext_equal]
pub ghost struct VersionRec {
    pub id: int,
    pub package_id: int,
    pub num: Seq<char>,
    pub created_at: int,
    pub published_by: Option<int>,
}

#[verifier::ext_equal]
pub ghost struct AuthRec {
    pub id: int,
    pub login: Seq<char>,
}

#[verifier::ext_equal]
pub ghost struct StoreModel {
    pub users: Seq<UserRec>,
    pub emails: Seq<EmailRec>,
    pub packages: Seq<PackageRec>,
    pub owners: Seq<OwnerRec>,
    pub follows: Seq<FollowRec>,
    pub versions: Seq<VersionRec>,
}

impl View for UserRow {
    type V = UserRec;

    open spec fn view(&self) -> UserRec {
        UserRec {
            id: self.id as int,
            login: self.gh_login@,
            address: match self.email {
                Some(ref a) => Some(a@),
                None => None,
            },
        }
    }
}

impl View for EmailRow {
    type V = EmailRec;

    open spec fn view(&self) -> EmailRec {
        EmailRec {
            user_id: self.user_id as int,
            address: self.email@,
            token: self.token@,
            generated_at: match self.token_generated_at {
                Some(t) => Some(t as int),
                None => None,
            },
            verified: self.verified,
        }
    }
}

impl View for PackageRow {
    type V = PackageRec;

    open spec fn view(&self) -> PackageRec {
        PackageRec { id: self.id as int, name: self.name@ }
    }
}

impl View for OwnerRow {
    type V = OwnerRec;

    open spec fn view(&self) -> OwnerRec {
        OwnerRec {
            package_id: self.package_id as int,
            owner_id: self.owner_id as int,
            owner_kind: self.owner_kind,
            email_notifications: self.email_notifications,
        }
    }
}

impl View for FollowRow {
    type V = FollowRec;

    open spec fn view(&self) -> FollowRec {
        FollowRec { user_id: self.user_id as int, package_id: self.package_id as int }
    }
}

impl View for VersionRow {
    type V = VersionRec;

    open spec fn view(&self) -> VersionRec {
        VersionRec {
            id: self.id as int,
            package_id: self.package_id as int,
            num: self.num@,
            created_at: self.created_at as int,
            published_by: match self.published_by {
                Some(u) => Some(u as int),
                None => None,
            },
        }
    }
}

impl View for AuthUser {
    type V = AuthRec;

    open spec fn view(&self) -> AuthRec {
        AuthRec { id: self.id as int, login: self.gh_login@ }
    }
}

impl View for Store {
    type V = StoreModel;

    open spec fn view(&self) -> StoreModel {
        StoreModel {
            users: self.users@.map_values(|r: UserRow| r@),
            emails: self.emails@.map_values(|r: EmailRow| r@),
            packages: self.packages@.map_values(|r: PackageRow| r@),
            owners: self.owners@.map_values(|r: OwnerRow| r@),
            follows: self.follows@.map_values(|r: FollowRow| r@),
            versions: self.versions@.map_values(|r: VersionRow| r@),
        }
    }
}

// ---------------------------------------------------------------------------
// Well-formedness
// ---------------------------------------------------------------------------

impl StoreModel {
    /// Some user row carries this id.
    pub open spec fn has_user(self, uid: int) -> bool {
        exists|i: int| 0 <= i < self.users.len() && self.users[i].id == uid
    }

    /// Some package row carries this id.
    pub open spec fn has_package(self, pid: int) -> bool {
        exists|i: int| 0 <= i < self.packages.len() && self.packages[i].id == pid
    }

    /// The store invariants: unique keys, and ownership and version rows only
    /// for packages that exist.
    pub open spec fn wf(self) -> bool {
        &&& forall|i: int, j: int|
            0 <= i < j < self.users.len() ==> self.users[i].id != self.users[j].id
        &&& forall|i: int, j: int|
            0 <= i < j < self.emails.len() ==> self.emails[i].user_id != self.emails[j].user_id
        &&& forall|i: int, j: int|
            0 <= i < j < self.packages.len() ==> self.packages[i].id != self.packages[j].id
        &&& forall|i: int, j: int|
            0 <= i < j < self.owners.len() ==> !(self.owners[i].package_id
                == self.owners[j].package_id && self.owners[i].owner_id
                == self.owners[j].owner_id && self.owners[i].owner_kind
                == self.owners[j].owner_kind)
        &&& forall|i: int, j: int|
            0 <= i < j < self.versions.len() ==> self.versions[i].id != self.versions[j].id
        &&& forall|i: int|
            0 <= i < self.owners.len() ==> self.has_package(#[trigger] self.owners[i].package_id)
        &&& forall|i: int|
            0 <= i < self.versions.len() ==> self.has_package(
                #[trigger] self.versions[i].package_id,
            )
    }
}

/// Well-formedness carries over to a store whose packages and versions are
/// unchanged, whose user ids and ownership keys are untouched, and whose
/// email rows are keyed uniquely. The follow table carries no invariant.
pub proof fn lemma_wf_from_parts(s1: StoreModel, s2: StoreModel)
    requires
        s1.wf(),
        s2.packages == s1.packages,
        s2.versions == s1.versions,
        s2.owners.len() == s1.owners.len(),
        forall|k: int|
            0 <= k < s1.owners.len() ==> (#[trigger] s2.owners[k]).package_id
                == s1.owners[k].package_id && s2.owners[k].owner_id == s1.owners[k].owner_id
                && s2.owners[k].owner_kind == s1.owners[k].owner_kind,
        s2.users.len() == s1.users.len(),
        forall|k: int| 0 <= k < s1.users.len() ==> (#[trigger] s2.users[k]).id == s1.users[k].id,
        forall|a: int, b: int|
            0 <= a < b < s2.emails.len() ==> s2.emails[a].user_id != s2.emails[b].user_id,
    ensures
        s2.wf(),
{
    assert forall|i: int| 0 <= i < s2.owners.len() implies s2.has_package(
        #[trigger] s2.owners[i].package_id,
    ) by {
        assert(s1.has_package(s1.owners[i].package_id));
        let j = choose|j: int|
            0 <= j < s1.packages.len() && s1.packages[j].id == s1.owners[i].package_id;
        assert(s2.packages[j].id == s2.owners[i].package_id);
    }
    assert forall|i: int| 0 <= i < s2.versions.len() implies s2.has_package(
        #[trigger] s2.versions[i].package_id,
    ) by {
        assert(s1.has_package(s1.versions[i].package_id));
        let j = choose|j: int|
            0 <= j < s1.packages.len() && s1.packages[j].id == s1.versions[i].package_id;
        assert(s2.packages[j].id == s2.versions[i].package_id);
    }
}

impl StoreModel {
    /// Some version row carries this id.
    pub open spec fn has_version(self, vid: int) -> bool {
        exists|i: int| 0 <= i < self.versions.len() && self.versions[i].id == vid
    }
}

impl Store {
    /// Whether a user row carries `id`.
    pub fn has_user(&self, id: i32) -> (r: bool)
        ensures
            r == self@.has_user(id as int),
    {
        let mut i: usize = 0;
        while i < self.users.len()
            invariant
                0 <= i <= self.users.len(),
                forall|k: int| 0 <= k < i ==> (#[trigger] self@.users[k]).id != id as int,
            decreases self.users.len() - i,
        {
            if self.users[i].id == id {
                proof {
                    assert(self@.users[i as int].id == id as int);
                }
                return true;
            }
            i = i + 1;
        }
        false
    }

    /// Whether a package row carries `id`.
    pub fn has_package(&self, id: i32) -> (r: bool)
        ensures
            r == self@.has_package(id as int),
    {
        let mut i: usize = 0;
        while i < self.packages.len()
            invariant
                0 <= i <= self.packages.len(),
                forall|k: int| 0 <= k < i ==> (#[trigger] self@.packages[k]).id != id as int,
            decreases self.packages.len() - i,
        {
            if self.packages[i].id == id {
                proof {
                    assert(self@.packages[i as int].id == id as int);
                }
                return true;
            }
            i = i + 1;
        }
        false
    }

    /// Whether a version row carries `id`.
    pub fn has_version(&self, id: i32) -> (r: bool)
        ensures
            r == self@.has_version(id as int),
    {
        let mut i: usize = 0;
        while i < self.versions.len()
            invariant
                0 <= i <= self.versions.len(),
                forall|k: int| 0 <= k < i ==> (#[trigger] self@.versions[k]).id != id as int,
            decreases self.versions.len() - i,
        {
            if self.versions[i].id == id {
                proof {
                    assert(self@.versions[i as int].id == id as int);
                }
                return true;
            }
            i = i + 1;
        }
        false
    }

    /// An empty store.
    pub fn new() -> (s: Store)
        ensures
            s@ == (StoreModel {
                users: Seq::empty(),
                emails: Seq::empty(),
                packages: Seq::empty(),
                owners: Seq::empty(),
                follows: Seq::empty(),
                versions: Seq::empty(),
            }),
            s@.wf(),
    {
        let s = Store {
            users: Vec::new(),
            emails: Vec::new(),
            packages: Vec::new(),
            owners: Vec::new(),
            follows: Vec::new(),
            versions: Vec::new(),
        };
        proof {
            assert(s@ =~~= (StoreModel {
                users: Seq::empty(),
                emails: Seq::empty(),
                packages: Seq::empty(),
                owners: Seq::empty(),
                follows: Seq::empty(),
                versions: Seq::empty(),
            }));
        }
        s
    }

    /// Register a user. Ids are unique, so the id must be fresh.
    pub fn add_user(&mut self, id: i32, gh_login: String, email: Option<String>)
        requires
            old(self)@.wf(),
            !old(self)@.has_user(id as int),
        ensures
            final(self)@ == (StoreModel {
                users: old(self)@.users.push(
                    UserRec {
                        id: id as int,
                        login: gh_login@,
                        address: opt_str_view(email),
                    },
                ),
                ..old(self)@
            }),
            final(self)@.wf(),
            final(self)@.has_user(id as int),
    {
        let ghost orig = self@;
        let row = UserRow { id, gh_login, email };
        let ghost rec = row@;
        self.users.push(row);
        proof {
            assert(self@ =~~= (StoreModel { users: orig.users.push(rec), ..orig }));
            assert forall|a: int, b: int| 0 <= a < b < self@.users.len() implies self@.users[
                a
            ].id != self@.users[b].id by {
                if b < orig.users.len() {
                    assert(orig.users[a].id != orig.users[b].id);
                } else {
                    assert(self@.users[b].id == id as int);
                    assert(orig.users[a].id != id as int);
                }
            }
            lemma_wf_transfer(orig, self@);
            assert(self@.users[orig.users.len() as int].id == id as int);
        }
    }

    /// Register a package. Ids are unique, so the id must be fresh.
    pub fn add_package(&mut self, id: i32, name: String)
        requires
            old(self)@.wf(),
            !old(self)@.has_package(id as int),
        ensures
            final(self)@ == (StoreModel {
                packages: old(self)@.packages.push(PackageRec { id: id as int, name: name@ }),
                ..old(self)@
            }),
            final(self)@.wf(),
            final(self)@.has_package(id as int),
    {
        let ghost orig = self@;
        let row = PackageRow { id, name };
        let ghost rec = row@;
        self.packages.push(row);
        proof {
            assert(self@ =~~= (StoreModel { packages: orig.packages.push(rec), ..orig }));
            assert forall|a: int, b: int| 0 <= a < b < self@.packages.len() implies self@
                .packages[a].id != self@.packages[b].id by {
                if b < orig.packages.len() {
                    assert(orig.packages[a].id != orig.packages[b].id);
                } else {
                    assert(self@.packages[b].id == id as int);
                    assert(orig.packages[a].id != id as int);
                }
            }
            assert forall|i: int| 0 <= i < self@.owners.len() implies self@.has_package(
                #[trigger] self@.owners[i].package_id,
            ) by {
                let j = choose|j: int|
                    0 <= j < orig.packages.len() && orig.packages[j].id == orig.owners[
                        i
                    ].package_id;
                assert(self@.packages[j].id == self@.owners[i].package_id);
            }
            assert forall|i: int| 0 <= i < self@.versions.len() implies self@.has_package(
                #[trigger] self@.versions[i].package_id,
            ) by {
                let j = choose|j: int|
                    0 <= j < orig.packages.len() && orig.packages[j].id == orig.versions[
                        i
                    ].package_id;
                assert(self@.packages[j].id == self@.versions[i].package_id);
            }
            assert(self@.wf());
            assert(self@.packages[orig.packages.len() as int].id == id as int);
        }
    }

    /// Record that a user follows a package. The follow table carries no
    /// uniqueness invariant.
    pub fn add_follow(&mut self, user_id: i32, package_id: i32)
        requires
            old(self)@.wf(),
        ensures
            final(self)@ == (StoreModel {
                follows: old(self)@.follows.push(
                    FollowRec { user_id: user_id as int, package_id: package_id as int },
                ),
                ..old(self)@
            }),
            final(self)@.wf(),
    {
        let ghost orig = self@;
        let row = FollowRow { user_id, package_id };
        let ghost rec = row@;
        self.follows.push(row);
        proof {
            assert(self@ =~~= (StoreModel { follows: orig.follows.push(rec), ..orig }));
            lemma_wf_transfer(orig, self@);
        }
    }

    /// Record a published version of an existing package. Version ids are
    /// unique, so the id must be fresh.
    pub fn add_version(
        &mut self,
        id: i32,
        package_id: i32,
        num: String,
        created_at: i64,
        published_by: Option<i32>,
    )
        requires
            old(self)@.wf(),
            old(self)@.has_package(package_id as int),
            !old(self)@.has_version(id as int),
        ensures
            final(self)@ == (StoreModel {
                versions: old(self)@.versions.push(
                    VersionRec {
                        id: id as int,
                        package_id: package_id as int,
                        num: num@,
                        created_at: created_at as int,
                        published_by: match published_by {
                            Some(u) => Some(u as int),
                            None => None,
                        },
                    },
                ),
                ..old(self)@
            }),
            final(self)@.wf(),
    {
        let ghost orig = self@;
        let row = VersionRow { id, package_id, num, created_at, published_by };
        let ghost rec = row@;
        self.versions.push(row);
        proof {
            assert(self@ =~~= (StoreModel { versions: orig.versions.push(rec), ..orig }));
            assert forall|a: int, b: int| 0 <= a < b < self@.versions.len() implies self@
                .versions[a].id != self@.versions[b].id by {
                if b < orig.versions.len() {
                    assert(orig.versions[a].id != orig.versions[b].id);
                } else {
                    assert(self@.versions[b].id == id as int);
                    assert(orig.versions[a].id != id as int);
                }
            }
            assert forall|i: int| 0 <= i < self@.owners.len() implies self@.has_package(
                #[trigger] self@.owners[i].package_id,
            ) by {
                let j = choose|j: int|
                    0 <= j < orig.packages.len() && orig.packages[j].id == orig.owners[
                        i
                    ].package_id;
                assert(self@.packages[j].id == self@.owners[i].package_id);
            }
            assert forall|i: int| 0 <= i < self@.versions.len() implies self@.has_package(
                #[trigger] self@.versions[i].package_id,
            ) by {
                if i < orig.versions.len() {
                    let j = choose|j: int|
                        0 <= j < orig.packages.len() && orig.packages[j].id == orig.versions[
                            i
                        ].package_id;
                    assert(self@.packages[j].id == self@.versions[i].package_id);
                } else {
                    let j = choose|j: int|
                        0 <= j < orig.packages.len() && orig.packages[j].id == package_id as int;
                    assert(self@.packages[j].id == self@.versions[i].package_id);
                }
            }
            assert(self@.wf());
        }
    }
}

/// Well-formedness carries over unchanged key structure: a helper for stores
/// whose users, emails, owners, packages and versions all kept their keys.
proof fn lemma_wf_transfer(s1: StoreModel, s2: StoreModel)
    requires
        s1.wf(),
        s2.packages == s1.packages,
        s2.versions == s1.versions,
        s2.owners == s1.owners,
        s2.emails == s1.emails,
        forall|a: int, b: int| 0 <= a < b < s2.users.len() ==> s2.users[a].id != s2.users[b].id,
    ensures
        s2.wf(),
{
    assert forall|i: int| 0 <= i < s2.owners.len() implies s2.has_package(
        #[trigger] s2.owners[i].package_id,
    ) by {
        let j = choose|j: int|
            0 <= j < s1.packages.len() && s1.packages[j].id == s1.owners[i].package_id;
        assert(s2.packages[j].id == s2.owners[i].package_id);
    }
    assert forall|i: int| 0 <= i < s2.versions.len() implies s2.has_package(
        #[trigger] s2.versions[i].package_id,
    ) by {
        let j = choose|j: int|
            0 <= j < s1.packages.len() && s1.packages[j].id == s1.versions[i].package_id;
        assert(s2.packages[j].id == s2.versions[i].package_id);
    }
}

// ---------------------------------------------------------------------------
// Spec lookups
// ---------------------------------------------------------------------------

/// The first user row carrying `uid`, if any.
pub open spec fn user_row_for(users: Seq<UserRec>, uid: int) -> Option<UserRec>
    decreases users.len(),
{
    if users.len() == 0 {
        None
    } else if users[0].id == uid {
        Some(users[0])
    } else {
        user_row_for(users.drop_first(), uid)
    }
}

/// The first email row carrying `uid`, if any.
pub open spec fn email_row_for(emails: Seq<EmailRec>, uid: int) -> Option<EmailRec>
    decreases emails.len(),
{
    if emails.len() == 0 {
        None
    } else if emails[0].user_id == uid {
        Some(emails[0])
    } else {
        email_row_for(emails.drop_first(), uid)
    }
}

/// The first package row carrying `pid`, if any.
pub open spec fn package_row_for(packages: Seq<PackageRec>, pid: int) -> Option<PackageRec>
    decreases packages.len(),
{
    if packages.len() == 0 {
        None
    } else if packages[0].id == pid {
        Some(packages[0])
    } else {
        package_row_for(packages.drop_first(), pid)
    }
}

/// The view of an optional owned string.
pub open spec fn opt_str_view(o: Option<String>) -> Option<Seq<char>> {
    match o {
        Some(s) => Some(s@),
        None => None,
    }
}

/// Whether some email row carries exactly this token.
pub open spec fn token_present(emails: Seq<EmailRec>, token: Seq<char>) -> bool {
    exists|i: int| 0 <= i < emails.len() && emails[i].token == token
}

} // verus!
