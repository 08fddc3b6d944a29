//! The preference synchronizer: reconciling a client-submitted partial set of
//! (package, flag) pairs against the acting user's ownership rows, through an
//! idempotent upsert that never creates rows and never touches packages the
//! user does not own or did not mention.

use vstd::prelude::*;

use crate::errors::AppError;
use crate::errors::ErrorKind;
use crate::errors::OkResponse;
use crate::model::OwnerKind;
use crate::model::OwnerRec;
use crate::model::OwnerRow;
use crate::model::Store;
use crate::model::StoreModel;

verus! {

// ---------------------------------------------------------------------------
// Specification
// ---------------------------------------------------------------------------

/// The client-submitted flag for `id`, the last occurrence winning as it does
/// when the pairs are folded into a keyed map.
pub open spec fn patch_value(patch: Seq<(i32, bool)>, id: int) -> Option<bool>
    decreases patch.len(),
{
    if patch.len() == 0 {
        None
    } else if patch.last().0 == id {
        Some(patch.last().1)
    } else {
        patch_value(patch.drop_last(), id)
    }
}

/// Whether this row belongs to the acting user as an individual owner;
/// team-owned rows are never touched.
pub open spec fn owned_by_user(r: OwnerRec, uid: int) -> bool {
    r.owner_id == uid && r.owner_kind == OwnerKind::User
}

/// One row after synchronization: the client-submitted flag if the row is the
/// user's and its package was mentioned, else the row as it stands.
pub open spec fn sync_row(r: OwnerRec, uid: int, patch: Seq<(i32, bool)>) -> OwnerRec {
    if owned_by_user(r, uid) {
        match patch_value(patch, r.package_id) {
            Some(b) => OwnerRec {
                package_id: r.package_id,
                owner_id: r.owner_id,
                owner_kind: r.owner_kind,
                email_notifications: b,
            },
            None => r,
        }
    } else {
        r
    }
}

/// The whole ownership table after synchronization.
pub open spec fn sync_owners(owners: Seq<OwnerRec>, uid: int, patch: Seq<(i32, bool)>) -> Seq<
    OwnerRec,
> {
    owners.map_values(|r: OwnerRec| sync_row(r, uid, patch))
}

/// The candidate row set: one row per package the user owns, carrying its
/// effective flag — submitted if mentioned, current otherwise.
pub open spec fn candidates_spec(
    owners: Seq<OwnerRec>,
    uid: int,
    patch: Seq<(i32, bool)>,
) -> Seq<OwnerRec>
    decreases owners.len(),
{
    if owners.len() == 0 {
        Seq::empty()
    } else {
        let rest = candidates_spec(owners.drop_last(), uid, patch);
        if owned_by_user(owners.last(), uid) {
            rest.push(sync_row(owners.last(), uid, patch))
        } else {
            rest
        }
    }
}

/// The ownership rows after an upsert with conflict target
/// (package, owner, owner kind): on conflict only the notification flag is
/// set, to the incoming value; without a conflict the row is inserted.
pub open spec fn upsert_owner_spec(owners: Seq<OwnerRec>, row: OwnerRec) -> Seq<OwnerRec> {
    if exists|i: int|
        0 <= i < owners.len() && owners[i].package_id == row.package_id && owners[i].owner_id
            == row.owner_id && owners[i].owner_kind == row.owner_kind {
        owners.map_values(
            |e: OwnerRec|
                if e.package_id == row.package_id && e.owner_id == row.owner_id && e.owner_kind
                    == row.owner_kind {
                    OwnerRec {
                        package_id: e.package_id,
                        owner_id: e.owner_id,
                        owner_kind: e.owner_kind,
                        email_notifications: row.email_notifications,
                    }
                } else {
                    e
                },
        )
    } else {
        owners.push(row)
    }
}

/// The whole operation: a payload that did not decode is rejected; otherwise
/// every ownership row of the acting user takes its effective flag.
pub open spec fn update_notifications_spec(
    s: StoreModel,
    uid: int,
    payload: Option<Seq<(i32, bool)>>,
) -> Result<StoreModel, ErrorKind> {
    match payload {
        None => Err(ErrorKind::Validation),
        Some(patch) => Ok(
            StoreModel {
                users: s.users,
                emails: s.emails,
                packages: s.packages,
                owners: sync_owners(s.owners, uid, patch),
                follows: s.follows,
                versions: s.versions,
            },
        ),
    }
}

/// The view of a decoded payload.
pub open spec fn payload_view(payload: Option<Vec<(i32, bool)>>) -> Option<Seq<(i32, bool)>> {
    match payload {
        Some(p) => Some(p@),
        None => None,
    }
}

// ---------------------------------------------------------------------------
// Laws
// ---------------------------------------------------------------------------

/// No pair of the patch names `id` exactly when the patch has no value for it.
pub proof fn lemma_patch_value_none(patch: Seq<(i32, bool)>, id: int)
    ensures
        patch_value(patch, id) is None <==> forall|j: int| 0 <= j < patch.len() ==> (
        #[trigger] patch[j]).0 != id,
    decreases patch.len(),
{
    if patch.len() > 0 {
        lemma_patch_value_none(patch.drop_last(), id);
        assert(forall|j: int|
            0 <= j < patch.len() - 1 ==> patch.drop_last()[j] == #[trigger] patch[j]);
        assert(patch[patch.len() - 1] == patch.last());
    }
}

/// Synchronization is idempotent: applying the same patch twice yields the
/// state of applying it once.
pub proof fn lemma_sync_idempotent(owners: Seq<OwnerRec>, uid: int, patch: Seq<(i32, bool)>)
    ensures
        sync_owners(sync_owners(owners, uid, patch), uid, patch) == sync_owners(
            owners,
            uid,
            patch,
        ),
{
    let once = sync_owners(owners, uid, patch);
    assert forall|k: int| 0 <= k < owners.len() implies #[trigger] sync_owners(
        once,
        uid,
        patch,
    )[k] == once[k] by {
        assert(once[k] == sync_row(owners[k], uid, patch));
    }
    assert(sync_owners(once, uid, patch) =~~= once);
}

/// The whole operation is idempotent: replaying the same decoded payload
/// yields exactly the state the first application produced.
pub proof fn lemma_update_notifications_idempotent(
    s: StoreModel,
    uid: int,
    patch: Seq<(i32, bool)>,
)
    ensures
        ({
            let once = update_notifications_spec(s, uid, Some(patch))->Ok_0;
            update_notifications_spec(once, uid, Some(patch)) == Ok::<StoreModel, ErrorKind>(
                once,
            )
        }),
{
    let once = update_notifications_spec(s, uid, Some(patch))->Ok_0;
    lemma_sync_idempotent(s.owners, uid, patch);
    assert(update_notifications_spec(once, uid, Some(patch))->Ok_0 =~~= once);
}

/// A row whose package the patch does not mention keeps its flag.
pub proof fn lemma_sync_passes_through(
    owners: Seq<OwnerRec>,
    uid: int,
    patch: Seq<(i32, bool)>,
    k: int,
)
    requires
        0 <= k < owners.len(),
        patch_value(patch, owners[k].package_id) is None,
    ensures
        sync_owners(owners, uid, patch)[k] == owners[k],
{
}

/// A patch that mentions only packages the user does not own changes nothing:
/// no row is created and no row is altered.
pub proof fn lemma_sync_ignores_unowned(owners: Seq<OwnerRec>, uid: int, patch: Seq<(i32, bool)>)
    requires
        forall|k: int|
            0 <= k < owners.len() && owned_by_user(#[trigger] owners[k], uid) ==> patch_value(
                patch,
                owners[k].package_id,
            ) is None,
    ensures
        sync_owners(owners, uid, patch) == owners,
{
    assert forall|k: int| 0 <= k < owners.len() implies #[trigger] sync_owners(
        owners,
        uid,
        patch,
    )[k] == owners[k] by {}
    assert(sync_owners(owners, uid, patch) =~~= owners);
}

// ---------------------------------------------------------------------------
// Executable code
// ---------------------------------------------------------------------------

/// The client-submitted flag for `id`, if any.
fn lookup_patch(patch: &Vec<(i32, bool)>, id: i32) -> (r: Option<bool>)
    ensures
        r == patch_value(patch@, id as int),
{
    let mut r: Option<bool> = None;
    let mut i: usize = 0;
    while i < patch.len()
        invariant
            0 <= i <= patch.len(),
            r == patch_value(patch@.take(i as int), id as int),
        decreases patch.len() - i,
    {
        proof {
            assert(patch@.take(i + 1).drop_last() =~= patch@.take(i as int));
            assert(patch@.take(i + 1).last() == patch@[i as int]);
        }
        if patch[i].0 == id {
            r = Some(patch[i].1);
        }
        i = i + 1;
    }
    proof {
        assert(patch@.take(patch@.len() as int) =~= patch@);
    }
    r
}

/// The pure diffing step: the candidate rows the upsert will write, derived
/// from the user's current ownership and the submitted patch alone.
pub fn candidate_rows(owners: &Vec<OwnerRow>, uid: i32, patch: &Vec<(i32, bool)>) -> (r: Vec<
    OwnerRow,
>)
    ensures
        r@.map_values(|x: OwnerRow| x@) == candidates_spec(
            owners@.map_values(|x: OwnerRow| x@),
            uid as int,
            patch@,
        ),
{
    let ghost target = candidates_spec(owners@.map_values(|x: OwnerRow| x@), uid as int, patch@);
    let mut out: Vec<OwnerRow> = Vec::new();
    let mut i: usize = 0;
    while i < owners.len()
        invariant
            0 <= i <= owners.len(),
            out@.map_values(|x: OwnerRow| x@) == candidates_spec(
                owners@.map_values(|x: OwnerRow| x@).take(i as int),
                uid as int,
                patch@,
            ),
        decreases owners.len() - i,
    {
        let ghost views = owners@.map_values(|x: OwnerRow| x@);
        proof {
            assert(views.take(i + 1).drop_last() =~= views.take(i as int));
            assert(views.take(i + 1).last() == views[i as int]);
        }
        if owners[i].owner_id == uid && owners[i].owner_kind == OwnerKind::User {
            let eff = match lookup_patch(patch, owners[i].package_id) {
                Some(b) => b,
                None => owners[i].email_notifications,
            };
            let row = OwnerRow {
                package_id: owners[i].package_id,
                owner_id: owners[i].owner_id,
                owner_kind: owners[i].owner_kind,
                email_notifications: eff,
            };
            out.push(row);
            proof {
                assert(out@.map_values(|x: OwnerRow| x@) =~~= candidates_spec(
                    views.take(i + 1),
                    uid as int,
                    patch@,
                ));
            }
        } else {
            proof {
                assert(out@.map_values(|x: OwnerRow| x@) =~~= candidates_spec(
                    views.take(i + 1),
                    uid as int,
                    patch@,
                ));
            }
        }
        i = i + 1;
    }
    proof {
        let views = owners@.map_values(|x: OwnerRow| x@);
        assert(views.take(views.len() as int) =~= views);
    }
    out
}

/// The index of the row keyed like `row`, scanning from the front.
fn find_owner_index(owners: &Vec<OwnerRow>, row: &OwnerRow) -> (r: Option<usize>)
    ensures
        match r {
            Some(i) => i < owners.len() && owners@[i as int]@.package_id == row@.package_id
                && owners@[i as int]@.owner_id == row@.owner_id && owners@[i as int]@.owner_kind
                == row@.owner_kind,
            None => forall|k: int|
                0 <= k < owners.len() ==> !((#[trigger] owners@[k]@).package_id == row@.package_id
                    && owners@[k]@.owner_id == row@.owner_id && owners@[k]@.owner_kind
                    == row@.owner_kind),
        },
{
    let mut i: usize = 0;
    while i < owners.len()
        invariant
            0 <= i <= owners.len(),
            forall|k: int|
                0 <= k < i ==> !((#[trigger] owners@[k]@).package_id == row@.package_id
                    && owners@[k]@.owner_id == row@.owner_id && owners@[k]@.owner_kind
                    == row@.owner_kind),
        decreases owners.len() - i,
    {
        if owners[i].package_id == row.package_id && owners[i].owner_id == row.owner_id
            && owners[i].owner_kind == row.owner_kind {
            return Some(i);
        }
        i = i + 1;
    }
    None
}

/// The atomic upsert-on-conflict on the (package, owner, owner kind) key:
/// insert the row, or on conflict set the notification flag to the incoming
/// value. This is the store's native conflict resolution, not a
/// read-modify-write.
pub fn upsert_owner(store: &mut Store, row: OwnerRow)
    requires
        old(store)@.wf(),
        old(store)@.has_package(row.package_id as int),
    ensures
        final(store)@ == (StoreModel {
            owners: upsert_owner_spec(old(store)@.owners, row@),
            ..old(store)@
        }),
        final(store)@.wf(),
{
    let ghost orig = store@;
    let ghost target = upsert_owner_spec(orig.owners, row@);
    match find_owner_index(&store.owners, &row) {
        Some(i) => {
            let new_row = OwnerRow {
                package_id: store.owners[i].package_id,
                owner_id: store.owners[i].owner_id,
                owner_kind: store.owners[i].owner_kind,
                email_notifications: row.email_notifications,
            };
            store.owners[i] = new_row;
            proof {
                assert forall|k: int| 0 <= k < orig.owners.len() implies #[trigger] store@
                    .owners[k] == target[k] by {
                    if k != i {
                        assert(!(orig.owners[k].package_id == orig.owners[i as int].package_id
                            && orig.owners[k].owner_id == orig.owners[i as int].owner_id
                            && orig.owners[k].owner_kind == orig.owners[i as int].owner_kind));
                    }
                }
                assert(store@.owners =~~= target);
                assert(store@ =~~= (StoreModel { owners: target, ..orig }));
                crate::model::lemma_wf_from_parts(orig, store@);
            }
        },
        None => {
            store.owners.push(row);
            proof {
                assert(store@.owners =~~= orig.owners.push(row@));
                assert(store@.owners =~~= target);
                assert(store@ =~~= (StoreModel { owners: target, ..orig }));
                assert forall|a: int, b: int| 0 <= a < b < store@.owners.len() implies !(store@
                    .owners[a].package_id == store@.owners[b].package_id && store@.owners[
                    a
                ].owner_id == store@.owners[b].owner_id && store@.owners[a].owner_kind == store@
                    .owners[b].owner_kind) by {
                    if b < orig.owners.len() {
                        assert(!(orig.owners[a].package_id == orig.owners[b].package_id
                            && orig.owners[a].owner_id == orig.owners[b].owner_id
                            && orig.owners[a].owner_kind == orig.owners[b].owner_kind));
                    }
                }
                assert forall|k: int| 0 <= k < store@.owners.len() implies store@.has_package(
                    #[trigger] store@.owners[k].package_id,
                ) by {
                    if k < orig.owners.len() {
                        assert(orig.has_package(orig.owners[k].package_id));
                        let j = choose|j: int|
                            0 <= j < orig.packages.len() && orig.packages[j].id == orig.owners[
                                k
                            ].package_id;
                        assert(store@.packages[j].id == store@.owners[k].package_id);
                    } else {
                        let j = choose|j: int|
                            0 <= j < orig.packages.len() && orig.packages[j].id
                                == row@.package_id;
                        assert(store@.packages[j].id == store@.owners[k].package_id);
                    }
                }
                assert forall|k: int| 0 <= k < store@.versions.len() implies store@.has_package(
                    #[trigger] store@.versions[k].package_id,
                ) by {
                    assert(orig.has_package(orig.versions[k].package_id));
                    let j = choose|j: int|
                        0 <= j < orig.packages.len() && orig.packages[j].id == orig.versions[
                            k
                        ].package_id;
                    assert(store@.packages[j].id == store@.versions[k].package_id);
                }
                assert(store@.wf());
            }
        },
    }
}

/// Batch-synchronize the acting user's per-package notification flags: load
/// the user's ownership rows, give each its effective flag, and upsert the
/// candidates. Packages absent from the payload keep their flag; packages the
/// user does not own are silently ignored; a payload that did not decode is
/// rejected whole.
pub fn update_email_notifications(
    store: &mut Store,
    auth_id: i32,
    payload: Option<Vec<(i32, bool)>>,
) -> (r: Result<OkResponse, AppError>)
    requires
        old(store)@.wf(),
    ensures
        final(store)@.wf(),
        match update_notifications_spec(old(store)@, auth_id as int, payload_view(payload)) {
            Ok(s2) => r is Ok && final(store)@ == s2 && r->Ok_0.ok,
            Err(k) => r is Err && final(store)@ == old(store)@ && r->Err_0.kind == k
                && r->Err_0.detail@ == "invalid json request"@,
        },
{
    let ghost orig = store@;
    let ghost pv = payload_view(payload);
    let patch = match payload {
        None => {
            return Err(AppError::validation("invalid json request"));
        },
        Some(p) => p,
    };
    let ghost target = sync_owners(orig.owners, auth_id as int, patch@);
    let mut i: usize = 0;
    while i < store.owners.len()
        invariant
            0 <= i <= store.owners.len(),
            store@.wf(),
            target == sync_owners(orig.owners, auth_id as int, patch@),
            store@.owners.len() == orig.owners.len(),
            store@.users == orig.users,
            store@.emails == orig.emails,
            store@.packages == orig.packages,
            store@.follows == orig.follows,
            store@.versions == orig.versions,
            forall|k: int| i <= k < orig.owners.len() ==> #[trigger] store@.owners[k]
                == orig.owners[k],
            forall|k: int| 0 <= k < i ==> #[trigger] store@.owners[k] == target[k],
        decreases store.owners.len() - i,
    {
        let ghost before = store@;
        if store.owners[i].owner_id == auth_id && store.owners[i].owner_kind == OwnerKind::User {
            let eff = match lookup_patch(&patch, store.owners[i].package_id) {
                Some(b) => b,
                None => store.owners[i].email_notifications,
            };
            let row = OwnerRow {
                package_id: store.owners[i].package_id,
                owner_id: store.owners[i].owner_id,
                owner_kind: store.owners[i].owner_kind,
                email_notifications: eff,
            };
            proof {
                assert(store@.has_package(store@.owners[i as int].package_id));
            }
            upsert_owner(store, row);
            proof {
                assert(0 <= i < before.owners.len() && before.owners[i as int].package_id
                    == row@.package_id && before.owners[i as int].owner_id == row@.owner_id
                    && before.owners[i as int].owner_kind == row@.owner_kind);
                assert(exists|j: int|
                    0 <= j < before.owners.len() && before.owners[j].package_id
                        == row@.package_id && before.owners[j].owner_id == row@.owner_id
                        && before.owners[j].owner_kind == row@.owner_kind);
                assert(store@.owners.len() == before.owners.len());
                assert forall|k: int| 0 <= k < orig.owners.len() implies #[trigger] store@
                    .owners[k] == (if k == i {
                    target[k]
                } else {
                    before.owners[k]
                }) by {
                    assert(store@.owners[k] == upsert_owner_spec(before.owners, row@)[k]);
                    if k != i {
                        assert(!(before.owners[k].package_id == before.owners[i as int].package_id
                            && before.owners[k].owner_id == before.owners[i as int].owner_id
                            && before.owners[k].owner_kind == before.owners[
                            i as int
                        ].owner_kind));
                    } else {
                        assert(target[k] == sync_row(orig.owners[k], auth_id as int, patch@));
                    }
                }
            }
        } else {
            proof {
                assert(target[i as int] == sync_row(orig.owners[i as int], auth_id as int, patch@));
                assert(target[i as int] == orig.owners[i as int]);
            }
        }
        i = i + 1;
    }
    proof {
        assert(store@.owners =~~= target);
        assert(store@ =~~= update_notifications_spec(orig, auth_id as int, pv)->Ok_0);
    }
    Ok(OkResponse::new())
}

} // verus!
