use vstd::prelude::*;

use crate::clip::{edited, ClipInfo, ClipModel};
use crate::error::CatalogError;
use crate::guard::SessionGuard;
use crate::metadata::{has_id, has_uuid, row_edited, row_removed, MetadataStore};
use crate::objects::ObjectStore;

verus! {

/// An upload is accepted only with a non-empty name and a non-empty
/// payload.
pub open spec fn valid_input(name: Seq<char>, payload: Seq<u8>) -> bool {
    name.len() > 0 && payload.len() > 0
}

/// An edit is accepted only with a non-empty name.
pub open spec fn valid_name(name: Seq<char>) -> bool {
    name.len() > 0
}

/// The clip lifecycle service: orchestrates ingest (payload into object
/// storage, then the metadata row), authorized edit and delete, and
/// read-back, over the metadata store, the object storage adapter and the
/// session guard.
///
/// Its invariant (`wf`) is the catalog's consistency guarantee: every
/// metadata row resolves to a non-empty stored object under its uuid, and
/// every stored object is either referenced by a row or recorded in the
/// inconsistency log as an orphan.
pub struct CatalogService {
    metadata: MetadataStore,
    objects: ObjectStore,
    guard: SessionGuard,
    orphans: Vec<String>,
}

impl CatalogService {
    /// The metadata table, in insertion order.
    pub closed spec fn clips(&self) -> Seq<ClipModel> {
        self.metadata@
    }

    /// The object namespace: stored bytes by key (the clip uuid).
    pub closed spec fn storage(&self) -> Map<Seq<char>, Seq<u8>> {
        self.objects@
    }

    /// The inconsistency log: uuids of objects recorded as orphaned.
    pub closed spec fn orphan_log(&self) -> Seq<Seq<char>> {
        self.orphans@.map_values(|s: String| s@)
    }

    /// Whether `token` is a live administrator session.
    pub closed spec fn is_active(&self, token: u64) -> bool {
        self.guard.is_active(token)
    }

    /// Whether `username`/`password` is the administrator credential.
    pub closed spec fn credentials_match(&self, username: Seq<char>, password: Seq<char>) -> bool {
        self.guard.credentials_match(username, password)
    }

    /// The session token that would be issued next.
    pub closed spec fn login_cursor(&self) -> int {
        self.guard.token_cursor()
    }

    /// Whether one more session can still be issued.
    pub open spec fn can_login(&self) -> bool {
        self.login_cursor() < u64::MAX as int
    }

    /// The metadata id that would be assigned next.
    pub closed spec fn id_cursor(&self) -> int {
        self.metadata.id_cursor()
    }

    /// Whether the metadata store can still assign a fresh id.
    pub open spec fn id_headroom(&self) -> bool {
        self.id_cursor() < i32::MAX as int
    }

    /// Whether the metadata backend is reachable.
    pub closed spec fn metadata_online(&self) -> bool {
        self.metadata.is_available()
    }

    /// Whether the object storage backend is reachable.
    pub closed spec fn storage_online(&self) -> bool {
        self.objects.is_available()
    }

    /// Consistency invariant of the whole catalog.
    pub closed spec fn wf(&self) -> bool {
        &&& self.metadata.wf()
        &&& self.objects.wf()
        &&& self.guard.wf()
        &&& forall|i: int|
            0 <= i < self.clips().len() ==> self.storage().dom().contains(
                #[trigger] self.clips()[i].uuid,
            )
        &&& forall|i: int|
            0 <= i < self.clips().len() ==> self.storage()[#[trigger] self.clips()[i].uuid].len()
                > 0
        &&& forall|k: Seq<char>|
            #[trigger] self.storage().dom().contains(k) ==> has_uuid(self.clips(), k)
                || self.orphan_log().contains(k)
    }
}

/// `post` is `pre` with the clip carrying id `id` deleted: its metadata row
/// is gone, and either its object is gone too (object storage was
/// reachable) or the object is untouched and recorded as an orphan in the
/// inconsistency log (object storage was not reachable).
pub open spec fn clip_removed(pre: CatalogService, post: CatalogService, id: int) -> bool {
    exists|i: int|
        0 <= i < pre.clips().len() && pre.clips()[i].id == id && post.clips()
            == pre.clips().remove(i) && (if pre.storage_online() {
            post.storage() == pre.storage().remove(pre.clips()[i].uuid) && post.orphan_log()
                == pre.orphan_log()
        } else {
            post.storage() == pre.storage() && post.orphan_log() == pre.orphan_log().push(
                pre.clips()[i].uuid,
            )
        })
}

/// The sessions and the credential are the same in `pre` and `post`.
pub open spec fn same_sessions(pre: CatalogService, post: CatalogService) -> bool {
    &&& forall|t: u64| #[trigger] post.is_active(t) == pre.is_active(t)
    &&& forall|u: Seq<char>, p: Seq<char>|
        #[trigger] post.credentials_match(u, p) == pre.credentials_match(u, p)
    &&& post.login_cursor() == pre.login_cursor()
}

/// The two stores, the inconsistency log and the modelled connectivity are
/// the same in `pre` and `post`.
pub open spec fn same_catalog(pre: CatalogService, post: CatalogService) -> bool {
    &&& post.clips() == pre.clips()
    &&& post.storage() == pre.storage()
    &&& post.orphan_log() == pre.orphan_log()
    &&& post.metadata_online() == pre.metadata_online()
    &&& post.storage_online() == pre.storage_online()
    &&& post.id_cursor() == pre.id_cursor()
}

/// The catalog invariant only depends on the three components' own
/// well-formedness and on the two stores and the log as values, so it
/// carries over to any state with the same values.
proof fn lemma_wf_transfer(pre: CatalogService, post: CatalogService)
    requires
        pre.wf(),
        post.metadata.wf(),
        post.objects.wf(),
        post.guard.wf(),
        post.clips() == pre.clips(),
        post.storage() == pre.storage(),
        post.orphan_log() == pre.orphan_log(),
    ensures
        post.wf(),
{
    assert forall|i: int|
        0 <= i < post.clips().len() implies post.storage().dom().contains(
        #[trigger] post.clips()[i].uuid,
    ) && post.storage()[post.clips()[i].uuid].len() > 0 by {
        assert(pre.storage().dom().contains(pre.clips()[i].uuid));
        assert(pre.storage()[pre.clips()[i].uuid].len() > 0);
    }
    assert forall|k: Seq<char>| #[trigger]
        post.storage().dom().contains(k) implies has_uuid(post.clips(), k)
        || post.orphan_log().contains(k) by {
        assert(pre.storage().dom().contains(k));
        assert(has_uuid(pre.clips(), k) || pre.orphan_log().contains(k));
    }
}

impl CatalogService {
    /// An empty catalog for the given administrator credential: no clips,
    /// no objects, no orphans, no live session.
    pub fn new(admin_username: String, admin_password: String) -> (s: Self)
        ensures
            s.wf(),
            s.clips() == Seq::<ClipModel>::empty(),
            s.storage() == Map::<Seq<char>, Seq<u8>>::empty(),
            s.orphan_log() == Seq::<Seq<char>>::empty(),
            forall|t: u64| !s.is_active(t),
            forall|u: Seq<char>, p: Seq<char>|
                #[trigger] s.credentials_match(u, p) == (u == admin_username@ && p
                    == admin_password@),
            s.login_cursor() == 1,
            s.id_cursor() == 1,
            s.metadata_online(),
            s.storage_online(),
    {
        let s = CatalogService {
            metadata: MetadataStore::new(),
            objects: ObjectStore::new(),
            guard: SessionGuard::new(admin_username, admin_password),
            orphans: Vec::new(),
        };
        proof {
            assert(s.orphan_log() =~= Seq::<Seq<char>>::empty());
        }
        s
    }

    /// Flip the modelled metadata backend connectivity (a simulated store
    /// fault); the catalog itself is kept.
    pub fn set_metadata_available(&mut self, available: bool)
        requires
            old(self).wf(),
        ensures
            final(self).wf(),
            same_sessions(*old(self), *final(self)),
            final(self).clips() == old(self).clips(),
            final(self).storage() == old(self).storage(),
            final(self).orphan_log() == old(self).orphan_log(),
            final(self).metadata_online() == available,
            final(self).storage_online() == old(self).storage_online(),
            final(self).id_cursor() == old(self).id_cursor(),
    {
        self.metadata.set_available(available);
        proof {
            lemma_wf_transfer(*old(self), *self);
        }
    }

    /// Flip the modelled object storage connectivity (a simulated storage
    /// fault); the catalog itself is kept.
    pub fn set_storage_available(&mut self, available: bool)
        requires
            old(self).wf(),
        ensures
            final(self).wf(),
            same_sessions(*old(self), *final(self)),
            final(self).clips() == old(self).clips(),
            final(self).storage() == old(self).storage(),
            final(self).orphan_log() == old(self).orphan_log(),
            final(self).metadata_online() == old(self).metadata_online(),
            final(self).storage_online() == available,
            final(self).id_cursor() == old(self).id_cursor(),
    {
        self.objects.set_available(available);
        proof {
            lemma_wf_transfer(*old(self), *self);
        }
    }

    /// All clips, in insertion order.  Read-only; no authorization
    /// required.
    pub fn list(&self) -> (r: Result<Vec<ClipInfo>, CatalogError>)
        ensures
            !self.metadata_online() ==> r == Err::<Vec<ClipInfo>, CatalogError>(
                CatalogError::StoreUnavailable,
            ),
            self.metadata_online() ==> {
                &&& r is Ok
                &&& r->Ok_0@.map_values(|c: ClipInfo| c@) == self.clips()
            },
    {
        self.metadata.list_all()
    }

    /// The clip with id `id`, or `NotFound`.  Read-only; no authorization
    /// required.
    pub fn get(&self, id: i32) -> (r: Result<ClipInfo, CatalogError>)
        requires
            self.wf(),
        ensures
            !self.metadata_online() ==> r == Err::<ClipInfo, CatalogError>(
                CatalogError::StoreUnavailable,
            ),
            self.metadata_online() && !has_id(self.clips(), id as int) ==> r == Err::<
                ClipInfo,
                CatalogError,
            >(CatalogError::NotFound),
            self.metadata_online() && has_id(self.clips(), id as int) ==> {
                &&& r is Ok
                &&& exists|i: int|
                    0 <= i < self.clips().len() && self.clips()[i].id == id as int && r->Ok_0@
                        == self.clips()[i]
            },
    {
        self.metadata.get(id)
    }

    /// The stored payload under `uuid`, or `NotFound`.  Read-only; no
    /// authorization required.
    pub fn fetch_object(&self, uuid: &String) -> (r: Result<Vec<u8>, CatalogError>)
        requires
            self.wf(),
        ensures
            !self.storage_online() ==> r == Err::<Vec<u8>, CatalogError>(
                CatalogError::StorageUnavailable,
            ),
            self.storage_online() && !self.storage().dom().contains(uuid@) ==> r == Err::<
                Vec<u8>,
                CatalogError,
            >(CatalogError::NotFound),
            self.storage_online() && self.storage().dom().contains(uuid@) ==> r is Ok
                && r->Ok_0@ == self.storage()[uuid@],
    {
        self.objects.get(uuid)
    }

    /// Submit credentials; on the administrator credential a fresh session
    /// token is issued, otherwise `InvalidCredentials` and no session is
    /// issued.  The stores are never touched.
    pub fn login(&mut self, username: &String, password: &String) -> (r: Result<u64, CatalogError>)
        requires
            old(self).wf(),
            old(self).can_login(),
        ensures
            final(self).wf(),
            same_catalog(*old(self), *final(self)),
            !old(self).credentials_match(username@, password@) ==> r == Err::<u64, CatalogError>(
                CatalogError::InvalidCredentials,
            ) && *final(self) == *old(self),
            old(self).credentials_match(username@, password@) ==> {
                &&& r is Ok
                &&& final(self).is_active(r->Ok_0)
                &&& !old(self).is_active(r->Ok_0)
                &&& forall|t: u64|
                    t != r->Ok_0 ==> final(self).is_active(t) == old(self).is_active(t)
                &&& final(self).login_cursor() == old(self).login_cursor() + 1
            },
            forall|u: Seq<char>, p: Seq<char>|
                #[trigger] final(self).credentials_match(u, p) == old(self).credentials_match(
                    u,
                    p,
                ),
    {
        let r = self.guard.authenticate(username, password);
        proof {
            lemma_wf_transfer(*old(self), *self);
        }
        r
    }

    /// End the session `token` (logout); ending an already dead session is
    /// allowed and does nothing.  The stores are never touched.
    pub fn logout(&mut self, token: u64)
        requires
            old(self).wf(),
        ensures
            final(self).wf(),
            same_catalog(*old(self), *final(self)),
            !final(self).is_active(token),
            forall|t: u64| t != token ==> final(self).is_active(t) == old(self).is_active(t),
            final(self).login_cursor() == old(self).login_cursor(),
            forall|u: Seq<char>, p: Seq<char>|
                #[trigger] final(self).credentials_match(u, p) == old(self).credentials_match(
                    u,
                    p,
                ),
    {
        self.guard.invalidate(token);
        proof {
            lemma_wf_transfer(*old(self), *self);
        }
    }

    /// Whether one more session can still be issued (`login`'s
    /// precondition), so that an unverified caller can test it first.
    pub fn can_login_now(&self) -> (b: bool)
        ensures
            b == self.can_login(),
    {
        self.guard.can_issue_now()
    }

    /// How many inconsistencies (orphaned objects) have been recorded for
    /// operator visibility.
    pub fn orphan_count(&self) -> (n: usize)
        ensures
            n == self.orphan_log().len(),
    {
        self.orphans.len()
    }

    /// Ingest a clip: under a live session, write the payload to object
    /// storage under the caller-supplied fresh `uuid`, then insert the
    /// metadata row — in that order, so a row never references a missing
    /// object.  If the storage write fails, metadata is untouched.  If the
    /// metadata insert fails after the storage write succeeded, the stored
    /// object is recorded in the inconsistency log as an orphan and the
    /// store error is returned; a retry with the same `uuid` overwrites the
    /// object idempotently and reuses it.
    pub fn upload(
        &mut self,
        token: u64,
        name: String,
        description: String,
        payload: Vec<u8>,
        uuid: String,
    ) -> (r: Result<ClipInfo, CatalogError>)
        requires
            old(self).wf(),
        ensures
            final(self).wf(),
            same_sessions(*old(self), *final(self)),
            !old(self).is_active(token) ==> r == Err::<ClipInfo, CatalogError>(
                CatalogError::Unauthorized,
            ) && *final(self) == *old(self),
            old(self).is_active(token) && !valid_input(name@, payload@) ==> r == Err::<
                ClipInfo,
                CatalogError,
            >(CatalogError::ValidationError) && *final(self) == *old(self),
            old(self).is_active(token) && valid_input(name@, payload@) && has_uuid(
                old(self).clips(),
                uuid@,
            ) ==> r == Err::<ClipInfo, CatalogError>(CatalogError::ValidationError) && *final(self)
                == *old(self),
            old(self).is_active(token) && valid_input(name@, payload@) && !has_uuid(
                old(self).clips(),
                uuid@,
            ) && !old(self).storage_online() ==> r == Err::<ClipInfo, CatalogError>(
                CatalogError::StorageUnavailable,
            ) && *final(self) == *old(self),
            old(self).is_active(token) && valid_input(name@, payload@) && !has_uuid(
                old(self).clips(),
                uuid@,
            ) && old(self).storage_online() && !(old(self).metadata_online()
                && old(self).id_headroom()) ==> {
                &&& r == Err::<ClipInfo, CatalogError>(CatalogError::StoreUnavailable)
                &&& final(self).clips() == old(self).clips()
                &&& final(self).storage() == old(self).storage().insert(uuid@, payload@)
                &&& final(self).orphan_log() == old(self).orphan_log().push(uuid@)
                &&& final(self).metadata_online() == old(self).metadata_online()
                &&& final(self).storage_online() == old(self).storage_online()
                &&& final(self).id_cursor() == old(self).id_cursor()
            },
            old(self).is_active(token) && valid_input(name@, payload@) && !has_uuid(
                old(self).clips(),
                uuid@,
            ) && old(self).storage_online() && old(self).metadata_online()
                && old(self).id_headroom() ==> {
                &&& r is Ok
                &&& r->Ok_0@.name == name@
                &&& r->Ok_0@.description == description@
                &&& r->Ok_0@.uuid == uuid@
                &&& r->Ok_0@.id == old(self).id_cursor()
                &&& !has_id(old(self).clips(), r->Ok_0@.id)
                &&& final(self).clips() == old(self).clips().push(r->Ok_0@)
                &&& final(self).storage() == old(self).storage().insert(uuid@, payload@)
                &&& final(self).orphan_log() == old(self).orphan_log()
                &&& final(self).metadata_online() == old(self).metadata_online()
                &&& final(self).storage_online() == old(self).storage_online()
                &&& final(self).id_cursor() == old(self).id_cursor() + 1
            },
    {
        if !self.guard.validate(token) {
            return Err(CatalogError::Unauthorized);
        }
        if name.as_str().unicode_len() == 0 || payload.len() == 0 {
            return Err(CatalogError::ValidationError);
        }
        if self.metadata.contains_uuid(&uuid) {
            return Err(CatalogError::ValidationError);
        }
        let ghost pre = *self;
        match self.objects.put(uuid.clone(), payload) {
            Err(e) => {
                return Err(e);
            },
            Ok(()) => {},
        }
        match self.metadata.insert(name, description, uuid.clone()) {
            Ok(c) => {
                proof {
                    let p0 = pre;
                    let p1 = *self;
                    assert forall|i: int|
                        0 <= i < p0.clips().len() implies #[trigger] p0.clips()[i].uuid
                        != uuid@ by {
                        if p0.clips()[i].uuid == uuid@ {
                            assert(has_uuid(p0.clips(), uuid@));
                        }
                    }
                    assert(!has_id(p0.clips(), c@.id)) by {
                        if has_id(p0.clips(), c@.id) {
                            let w = choose|w: int|
                                0 <= w < p0.clips().len() && p0.clips()[w].id == c@.id;
                            assert(p0.clips()[w].id != c@.id);
                        }
                    }
                    assert forall|i: int|
                        0 <= i < p1.clips().len() implies p1.storage().dom().contains(
                        #[trigger] p1.clips()[i].uuid,
                    ) && p1.storage()[p1.clips()[i].uuid].len() > 0 by {
                        if i < p0.clips().len() {
                            assert(p1.clips()[i] == p0.clips()[i]);
                            assert(p0.clips()[i].uuid != uuid@);
                            assert(p0.storage().dom().contains(p0.clips()[i].uuid));
                        } else {
                            assert(p1.clips()[i] == c@);
                        }
                    }
                    assert forall|k: Seq<char>| #[trigger]
                        p1.storage().dom().contains(k) implies has_uuid(p1.clips(), k)
                        || p1.orphan_log().contains(k) by {
                        if k == uuid@ {
                            assert(p1.clips()[p0.clips().len() as int].uuid == uuid@);
                            assert(has_uuid(p1.clips(), k));
                        } else {
                            assert(p0.storage().dom().contains(k));
                            if has_uuid(p0.clips(), k) {
                                let w = choose|w: int|
                                    0 <= w < p0.clips().len() && p0.clips()[w].uuid == k;
                                assert(p1.clips()[w].uuid == k);
                                assert(has_uuid(p1.clips(), k));
                            }
                        }
                    }
                }
                Ok(c)
            },
            Err(e) => {
                self.orphans.push(uuid);
                proof {
                    let p0 = pre;
                    let p1 = *self;
                    assert(p1.orphan_log() =~= p0.orphan_log().push(uuid@));
                    assert forall|i: int|
                        0 <= i < p0.clips().len() implies #[trigger] p0.clips()[i].uuid
                        != uuid@ by {
                        if p0.clips()[i].uuid == uuid@ {
                            assert(has_uuid(p0.clips(), uuid@));
                        }
                    }
                    assert forall|i: int|
                        0 <= i < p1.clips().len() implies p1.storage().dom().contains(
                        #[trigger] p1.clips()[i].uuid,
                    ) && p1.storage()[p1.clips()[i].uuid].len() > 0 by {
                        assert(p1.clips()[i] == p0.clips()[i]);
                        assert(p0.clips()[i].uuid != uuid@);
                        assert(p0.storage().dom().contains(p0.clips()[i].uuid));
                    }
                    assert forall|k: Seq<char>| #[trigger]
                        p1.storage().dom().contains(k) implies has_uuid(p1.clips(), k)
                        || p1.orphan_log().contains(k) by {
                        if k == uuid@ {
                            assert(p1.orphan_log()[p0.orphan_log().len() as int] == uuid@);
                            assert(p1.orphan_log().contains(k));
                        } else {
                            assert(p0.storage().dom().contains(k));
                            if !has_uuid(p0.clips(), k) {
                                assert(p0.orphan_log().contains(k));
                                let w = choose|w: int|
                                    0 <= w < p0.orphan_log().len() && p0.orphan_log()[w] == k;
                                assert(p1.orphan_log()[w] == k);
                                assert(p1.orphan_log().contains(k));
                            } else {
                                assert(has_uuid(p1.clips(), k));
                            }
                        }
                    }
                }
                Err(e)
            },
        }
    }

    /// Edit the clip with id `id`: under a live session, replace `name` and
    /// `description` in its metadata row.  `id`, `uuid` and the stored
    /// object are untouched.
    pub fn edit(&mut self, token: u64, id: i32, name: String, description: String) -> (r: Result<
        ClipInfo,
        CatalogError,
    >)
        requires
            old(self).wf(),
        ensures
            final(self).wf(),
            same_sessions(*old(self), *final(self)),
            !old(self).is_active(token) ==> r == Err::<ClipInfo, CatalogError>(
                CatalogError::Unauthorized,
            ) && *final(self) == *old(self),
            old(self).is_active(token) && !valid_name(name@) ==> r == Err::<ClipInfo, CatalogError>(
                CatalogError::ValidationError,
            ) && *final(self) == *old(self),
            old(self).is_active(token) && valid_name(name@) && !old(self).metadata_online() ==> r
                == Err::<ClipInfo, CatalogError>(CatalogError::StoreUnavailable) && *final(self)
                == *old(self),
            old(self).is_active(token) && valid_name(name@) && old(self).metadata_online()
                && !has_id(old(self).clips(), id as int) ==> r == Err::<ClipInfo, CatalogError>(
                CatalogError::NotFound,
            ) && *final(self) == *old(self),
            old(self).is_active(token) && valid_name(name@) && old(self).metadata_online()
                && has_id(old(self).clips(), id as int) ==> {
                &&& r is Ok
                &&& row_edited(
                    old(self).clips(),
                    final(self).clips(),
                    r->Ok_0@,
                    id as int,
                    name@,
                    description@,
                )
                &&& final(self).storage() == old(self).storage()
                &&& final(self).orphan_log() == old(self).orphan_log()
                &&& final(self).metadata_online() == old(self).metadata_online()
                &&& final(self).storage_online() == old(self).storage_online()
                &&& final(self).id_cursor() == old(self).id_cursor()
            },
    {
        if !self.guard.validate(token) {
            return Err(CatalogError::Unauthorized);
        }
        if name.as_str().unicode_len() == 0 {
            return Err(CatalogError::ValidationError);
        }
        let ghost pre = *self;
        match self.metadata.update(id, name, description) {
            Ok(c) => {
                proof {
                    let p0 = pre;
                    let p1 = *self;
                    assert(row_edited(p0.clips(), p1.clips(), c@, id as int, name@, description@));
                    let i = choose|i: int|
                        0 <= i < p0.clips().len() && p0.clips()[i].id == id as int && c@ == edited(
                            p0.clips()[i],
                            name@,
                            description@,
                        ) && p1.clips() == p0.clips().update(i, c@);
                    assert(p1.clips()[i].uuid == p0.clips()[i].uuid);
                    assert forall|j: int|
                        0 <= j < p1.clips().len() implies p1.storage().dom().contains(
                        #[trigger] p1.clips()[j].uuid,
                    ) && p1.storage()[p1.clips()[j].uuid].len() > 0 by {
                        if j != i {
                            assert(p1.clips()[j] == p0.clips()[j]);
                        }
                        assert(p1.clips()[j].uuid == p0.clips()[j].uuid);
                        assert(p0.storage().dom().contains(p0.clips()[j].uuid));
                    }
                    assert forall|k: Seq<char>| #[trigger]
                        p1.storage().dom().contains(k) implies has_uuid(p1.clips(), k)
                        || p1.orphan_log().contains(k) by {
                        if has_uuid(p0.clips(), k) {
                            let w = choose|w: int|
                                0 <= w < p0.clips().len() && p0.clips()[w].uuid == k;
                            if w != i {
                                assert(p1.clips()[w] == p0.clips()[w]);
                            }
                            assert(p1.clips()[w].uuid == k);
                            assert(has_uuid(p1.clips(), k));
                        }
                    }
                }
                Ok(c)
            },
            Err(e) => Err(e),
        }
    }

    /// Delete the clip with id `id`: under a live session, remove the
    /// metadata row first, then the stored object.  If the object removal
    /// fails after the row is gone, the operation still succeeds — the
    /// metadata, the user-visible truth, is gone — and the object is
    /// recorded in the inconsistency log as reclaimable.
    pub fn delete(&mut self, token: u64, id: i32) -> (r: Result<(), CatalogError>)
        requires
            old(self).wf(),
        ensures
            final(self).wf(),
            same_sessions(*old(self), *final(self)),
            !old(self).is_active(token) ==> r == Err::<(), CatalogError>(CatalogError::Unauthorized)
                && *final(self) == *old(self),
            old(self).is_active(token) && !old(self).metadata_online() ==> r == Err::<
                (),
                CatalogError,
            >(CatalogError::StoreUnavailable) && *final(self) == *old(self),
            old(self).is_active(token) && old(self).metadata_online() && !has_id(
                old(self).clips(),
                id as int,
            ) ==> r == Err::<(), CatalogError>(CatalogError::NotFound) && *final(self) == *old(
                self,
            ),
            old(self).is_active(token) && old(self).metadata_online() && has_id(
                old(self).clips(),
                id as int,
            ) ==> {
                &&& r == Ok::<(), CatalogError>(())
                &&& clip_removed(*old(self), *final(self), id as int)
                &&& final(self).metadata_online() == old(self).metadata_online()
                &&& final(self).storage_online() == old(self).storage_online()
                &&& final(self).id_cursor() == old(self).id_cursor()
            },
    {
        if !self.guard.validate(token) {
            return Err(CatalogError::Unauthorized);
        }
        let ghost pre = *self;
        let removed = match self.metadata.delete(id) {
            Ok(c) => c,
            Err(e) => {
                return Err(e);
            },
        };
        let ghost mid = *self;
        proof {
            assert(row_removed(pre.clips(), mid.clips(), removed@, id as int));
            let i = choose|i: int|
                0 <= i < pre.clips().len() && pre.clips()[i].id == id as int && removed@
                    == pre.clips()[i] && mid.clips() == pre.clips().remove(i);
            assert(pre.storage().dom().contains(pre.clips()[i].uuid));
            assert(removed@.uuid == pre.clips()[i].uuid);
        }
        match self.objects.delete(&removed.uuid) {
            Ok(()) => {
                proof {
                    let p0 = pre;
                    let p1 = *self;
                    let i = choose|i: int|
                        0 <= i < p0.clips().len() && p0.clips()[i].id == id as int && removed@
                            == p0.clips()[i] && mid.clips() == p0.clips().remove(i);
                    assert(p0.storage_online());
                    assert(p1.storage() == p0.storage().remove(p0.clips()[i].uuid));
                    assert forall|j: int|
                        0 <= j < p1.clips().len() implies p1.storage().dom().contains(
                        #[trigger] p1.clips()[j].uuid,
                    ) && p1.storage()[p1.clips()[j].uuid].len() > 0 by {
                        let j0 = if j < i {
                            j
                        } else {
                            j + 1
                        };
                        assert(p1.clips()[j] == p0.clips()[j0]);
                        assert(p0.storage().dom().contains(p0.clips()[j0].uuid));
                        assert(p0.clips()[j0].uuid != p0.clips()[i].uuid) by {
                            if j0 < i {
                                assert(p0.clips()[j0].uuid != p0.clips()[i].uuid);
                            } else {
                                assert(p0.clips()[i].uuid != p0.clips()[j0].uuid);
                            }
                        }
                    }
                    assert forall|k: Seq<char>| #[trigger]
                        p1.storage().dom().contains(k) implies has_uuid(p1.clips(), k)
                        || p1.orphan_log().contains(k) by {
                        assert(p0.storage().dom().contains(k) && k != p0.clips()[i].uuid);
                        if has_uuid(p0.clips(), k) {
                            let w = choose|w: int|
                                0 <= w < p0.clips().len() && p0.clips()[w].uuid == k;
                            assert(w != i);
                            let w1 = if w < i {
                                w
                            } else {
                                w - 1
                            };
                            assert(p1.clips()[w1] == p0.clips()[w]);
                            assert(has_uuid(p1.clips(), k));
                        }
                    }
                    assert(clip_removed(p0, p1, id as int)) by {
                        assert(0 <= i < p0.clips().len() && p0.clips()[i].id == id as int
                            && p1.clips() == p0.clips().remove(i) && p1.storage()
                            == p0.storage().remove(p0.clips()[i].uuid) && p1.orphan_log()
                            == p0.orphan_log());
                    }
                }
                Ok(())
            },
            Err(e) => {
                self.orphans.push(removed.uuid);
                proof {
                    let p0 = pre;
                    let p1 = *self;
                    let i = choose|i: int|
                        0 <= i < p0.clips().len() && p0.clips()[i].id == id as int && removed@
                            == p0.clips()[i] && mid.clips() == p0.clips().remove(i);
                    assert(p0.storage().dom().contains(p0.clips()[i].uuid));
                    assert(!p0.storage_online());
                    assert(p1.storage() == p0.storage());
                    assert(p1.orphan_log() =~= p0.orphan_log().push(removed@.uuid));
                    assert forall|j: int|
                        0 <= j < p1.clips().len() implies p1.storage().dom().contains(
                        #[trigger] p1.clips()[j].uuid,
                    ) && p1.storage()[p1.clips()[j].uuid].len() > 0 by {
                        let j0 = if j < i {
                            j
                        } else {
                            j + 1
                        };
                        assert(p1.clips()[j] == p0.clips()[j0]);
                        assert(p0.storage().dom().contains(p0.clips()[j0].uuid));
                    }
                    assert forall|k: Seq<char>| #[trigger]
                        p1.storage().dom().contains(k) implies has_uuid(p1.clips(), k)
                        || p1.orphan_log().contains(k) by {
                        if has_uuid(p0.clips(), k) {
                            let w = choose|w: int|
                                0 <= w < p0.clips().len() && p0.clips()[w].uuid == k;
                            if w == i {
                                assert(p1.orphan_log()[p0.orphan_log().len() as int] == k);
                                assert(p1.orphan_log().contains(k));
                            } else {
                                let w1 = if w < i {
                                    w
                                } else {
                                    w - 1
                                };
                                assert(p1.clips()[w1] == p0.clips()[w]);
                                assert(has_uuid(p1.clips(), k));
                            }
                        } else {
                            assert(p0.orphan_log().contains(k));
                            let w = choose|w: int|
                                0 <= w < p0.orphan_log().len() && p0.orphan_log()[w] == k;
                            assert(p1.orphan_log()[w] == k);
                            assert(p1.orphan_log().contains(k));
                        }
                    }
                    assert(clip_removed(p0, p1, id as int)) by {
                        assert(0 <= i < p0.clips().len() && p0.clips()[i].id == id as int
                            && p1.clips() == p0.clips().remove(i) && p1.storage() == p0.storage()
                            && p1.orphan_log() == p0.orphan_log().push(p0.clips()[i].uuid));
                    }
                }
                Ok(())
            },
        }
    }
}

/// Law: consistency of read-back.  In every well-formed catalog, each
/// metadata row's uuid resolves to a non-empty object in storage; so for
/// every successfully ingested clip, `get` returns metadata whose uuid
/// `fetch_object` resolves to a non-empty payload.
pub proof fn lemma_clip_has_object(s: CatalogService, i: int)
    requires
        s.wf(),
        0 <= i < s.clips().len(),
    ensures
        s.storage().dom().contains(s.clips()[i].uuid),
        s.storage()[s.clips()[i].uuid].len() > 0,
{
}

/// Law: round trip.  After an ingest that appended row `c` for payload
/// `payload` (exactly the state change `upload`'s contract gives), `c.id`
/// resolves to exactly the row `c` — so `get(c.id)` returns the ingested
/// name and description — and the storage under `c.uuid` holds `payload` —
/// so `fetch_object(c.uuid)` returns the ingested bytes.
pub proof fn lemma_round_trip(
    pre: CatalogService,
    post: CatalogService,
    c: ClipModel,
    payload: Seq<u8>,
)
    requires
        post.clips() == pre.clips().push(c),
        post.storage() == pre.storage().insert(c.uuid, payload),
        !has_id(pre.clips(), c.id),
    ensures
        has_id(post.clips(), c.id),
        forall|i: int|
            0 <= i < post.clips().len() && #[trigger] post.clips()[i].id == c.id ==> post.clips()[i]
                == c,
        post.storage().dom().contains(c.uuid),
        post.storage()[c.uuid] == payload,
{
    assert(post.clips()[pre.clips().len() as int] == c);
    assert(has_id(post.clips(), c.id));
    assert forall|i: int|
        0 <= i < post.clips().len() && #[trigger] post.clips()[i].id == c.id implies post.clips()[i]
        == c by {
        if i < pre.clips().len() {
            assert(pre.clips()[i] == post.clips()[i]);
            assert(has_id(pre.clips(), c.id));
        }
    }
}

/// Law: two ingests of distinct clips never leave either with the other's
/// uuid or payload.  After two successive ingests (each the state change
/// `upload`'s contract gives) under distinct uuids, both rows keep their
/// own uuid and the storage holds each payload under its own key.
pub proof fn lemma_distinct_ingests(
    s0: CatalogService,
    s1: CatalogService,
    s2: CatalogService,
    c1: ClipModel,
    c2: ClipModel,
    p1: Seq<u8>,
    p2: Seq<u8>,
)
    requires
        s1.clips() == s0.clips().push(c1),
        s1.storage() == s0.storage().insert(c1.uuid, p1),
        s2.clips() == s1.clips().push(c2),
        s2.storage() == s1.storage().insert(c2.uuid, p2),
        c1.uuid != c2.uuid,
    ensures
        s2.clips().len() >= 2,
        s2.clips()[s2.clips().len() - 2] == c1,
        s2.clips()[s2.clips().len() - 1] == c2,
        s2.storage()[c1.uuid] == p1,
        s2.storage()[c2.uuid] == p2,
{
    assert(s2.clips()[s2.clips().len() - 2] == c1);
    assert(s2.storage()[c1.uuid] == s1.storage()[c1.uuid]);
}

} // verus!
