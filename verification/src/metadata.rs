use vstd::prelude::*;

use crate::clip::{edited, ClipInfo, ClipModel};
use crate::error::CatalogError;

verus! {

/// There is a row whose `id` is `id`.
pub open spec fn has_id(rows: Seq<ClipModel>, id: int) -> bool {
    exists|i: int| 0 <= i < rows.len() && rows[i].id == id
}

/// There is a row whose `uuid` is `uuid`.
pub open spec fn has_uuid(rows: Seq<ClipModel>, uuid: Seq<char>) -> bool {
    exists|i: int| 0 <= i < rows.len() && rows[i].uuid == uuid
}

/// `post` is `pre` with the row at some position `i` carrying id `id`
/// replaced by `c`, which is that row with `name` and `description`
/// substituted.
pub open spec fn row_edited(
    pre: Seq<ClipModel>,
    post: Seq<ClipModel>,
    c: ClipModel,
    id: int,
    name: Seq<char>,
    description: Seq<char>,
) -> bool {
    exists|i: int|
        0 <= i < pre.len() && pre[i].id == id && c == edited(pre[i], name, description) && post
            == pre.update(i, c)
}

/// `post` is `pre` with the row at some position `i` carrying id `id`
/// removed; `c` is that row.
pub open spec fn row_removed(pre: Seq<ClipModel>, post: Seq<ClipModel>, c: ClipModel, id: int) -> bool {
    exists|i: int| 0 <= i < pre.len() && pre[i].id == id && c == pre[i] && post == pre.remove(i)
}

/// The persistent table of clip records.  It owns identity: `insert`
/// assigns each row a fresh `id` (auto-increment semantics), and both `id`
/// and `uuid` are unique across the table.  The `available` flag models
/// backend connectivity: while it is false every operation fails with
/// `StoreUnavailable` and changes nothing.
pub struct MetadataStore {
    rows: Vec<ClipInfo>,
    next_id: i32,
    available: bool,
}

impl View for MetadataStore {
    type V = Seq<ClipModel>;

    /// The table as the ordered sequence of row models (insertion order).
    closed spec fn view(&self) -> Seq<ClipModel> {
        self.rows@.map_values(|c: ClipInfo| c@)
    }
}

impl MetadataStore {
    /// The next id the store would assign.
    pub closed spec fn id_cursor(&self) -> int {
        self.next_id as int
    }

    /// Well-formedness: ids and uuids are unique, ids are positive and
    /// below the id cursor, so a fresh insert can never collide.
    pub open spec fn wf(&self) -> bool {
        &&& forall|i: int, j: int|
            0 <= i < j < self@.len() ==> self@[i].id != self@[j].id
        &&& forall|i: int, j: int|
            0 <= i < j < self@.len() ==> self@[i].uuid != self@[j].uuid
        &&& forall|i: int| 0 <= i < self@.len() ==> 0 < #[trigger] self@[i].id < self.id_cursor()
        &&& 0 < self.id_cursor()
    }

    /// Whether the backend is reachable.
    pub closed spec fn is_available(&self) -> bool {
        self.available
    }

    /// Whether a fresh id can still be assigned.
    pub open spec fn can_assign_id(&self) -> bool {
        self.id_cursor() < i32::MAX as int
    }

    /// An empty, reachable table.
    pub fn new() -> (s: Self)
        ensures
            s.wf(),
            s@ == Seq::<ClipModel>::empty(),
            s.is_available(),
            s.id_cursor() == 1,
    {
        let s = MetadataStore { rows: Vec::new(), next_id: 1, available: true };
        proof {
            assert(s@ =~= Seq::<ClipModel>::empty());
        }
        s
    }

    /// Flip the modelled backend connectivity; the table itself is kept.
    pub fn set_available(&mut self, available: bool)
        ensures
            final(self)@ == old(self)@,
            final(self).id_cursor() == old(self).id_cursor(),
            old(self).wf() ==> final(self).wf(),
            final(self).is_available() == available,
    {
        self.available = available;
        proof {
            assert(self@ == old(self)@);
        }
    }

    /// The index of the row with id `id`, if any.
    fn index_of_id(&self, id: i32) -> (r: Option<usize>)
        ensures
            match r {
                Some(i) => i < self@.len() && self@[i as int].id == id as int,
                None => !has_id(self@, id as int),
            },
    {
        let n = self.rows.len();
        let mut i: usize = 0;
        while i < n
            invariant
                n == self.rows.len(),
                i <= n,
                forall|j: int| 0 <= j < i ==> self@[j].id != id as int,
            decreases n - i,
        {
            if self.rows[i].id == id {
                proof {
                    assert(self@[i as int].id == id as int);
                }
                return Some(i);
            }
            i += 1;
        }
        None
    }

    /// All rows, in insertion order.
    pub fn list_all(&self) -> (r: Result<Vec<ClipInfo>, CatalogError>)
        ensures
            !self.is_available() ==> r == Err::<Vec<ClipInfo>, CatalogError>(
                CatalogError::StoreUnavailable,
            ),
            self.is_available() ==> {
                &&& r is Ok
                &&& r->Ok_0@.map_values(|c: ClipInfo| c@) == self@
            },
    {
        if !self.available {
            return Err(CatalogError::StoreUnavailable);
        }
        let n = self.rows.len();
        let mut out: Vec<ClipInfo> = Vec::new();
        let mut i: usize = 0;
        while i < n
            invariant
                n == self.rows.len(),
                i <= n,
                out@.len() == i,
                forall|j: int| 0 <= j < i ==> #[trigger] out@[j]@ == self@[j],
            decreases n - i,
        {
            out.push(self.rows[i].clone());
            i += 1;
        }
        proof {
            assert(out@.map_values(|c: ClipInfo| c@) =~= self@);
        }
        Ok(out)
    }

    /// The row with id `id`, or `NotFound`.
    pub fn get(&self, id: i32) -> (r: Result<ClipInfo, CatalogError>)
        requires
            self.wf(),
        ensures
            !self.is_available() ==> r == Err::<ClipInfo, CatalogError>(
                CatalogError::StoreUnavailable,
            ),
            self.is_available() && !has_id(self@, id as int) ==> r == Err::<
                ClipInfo,
                CatalogError,
            >(CatalogError::NotFound),
            self.is_available() && has_id(self@, id as int) ==> {
                &&& r is Ok
                &&& exists|i: int|
                    0 <= i < self@.len() && self@[i].id == id as int && r->Ok_0@ == self@[i]
            },
    {
        if !self.available {
            return Err(CatalogError::StoreUnavailable);
        }
        match self.index_of_id(id) {
            Some(i) => Ok(self.rows[i].clone()),
            None => Err(CatalogError::NotFound),
        }
    }

    /// Whether some row already carries `uuid` (pure lookup, usable to
    /// check a candidate key before committing anything).
    pub fn contains_uuid(&self, uuid: &String) -> (b: bool)
        ensures
            b == has_uuid(self@, uuid@),
    {
        let n = self.rows.len();
        let mut i: usize = 0;
        while i < n
            invariant
                n == self.rows.len(),
                i <= n,
                forall|j: int| 0 <= j < i ==> self@[j].uuid != uuid@,
            decreases n - i,
        {
            if self.rows[i].uuid == *uuid {
                proof {
                    assert(self@[i as int].uuid == uuid@);
                }
                return true;
            }
            i += 1;
        }
        false
    }

    /// Insert a new row.  The store assigns the id; the caller supplies the
    /// uuid, which must not already be in the table.
    pub fn insert(&mut self, name: String, description: String, uuid: String) -> (r: Result<
        ClipInfo,
        CatalogError,
    >)
        requires
            old(self).wf(),
        ensures
            final(self).wf(),
            final(self).is_available() == old(self).is_available(),
            !old(self).is_available() ==> r == Err::<ClipInfo, CatalogError>(
                CatalogError::StoreUnavailable,
            ) && *final(self) == *old(self),
            old(self).is_available() && has_uuid(old(self)@, uuid@) ==> r == Err::<
                ClipInfo,
                CatalogError,
            >(CatalogError::ValidationError) && *final(self) == *old(self),
            old(self).is_available() && !has_uuid(old(self)@, uuid@) && !old(self).can_assign_id()
                ==> r == Err::<ClipInfo, CatalogError>(CatalogError::StoreUnavailable)
                && *final(self) == *old(self),
            old(self).is_available() && !has_uuid(old(self)@, uuid@) && old(self).can_assign_id()
                ==> {
                &&& r is Ok
                &&& r->Ok_0@.name == name@
                &&& r->Ok_0@.description == description@
                &&& r->Ok_0@.uuid == uuid@
                &&& r->Ok_0@.id == old(self).id_cursor()
                &&& final(self)@ == old(self)@.push(r->Ok_0@)
                &&& forall|i: int|
                    0 <= i < old(self)@.len() ==> #[trigger] old(self)@[i].id != r->Ok_0@.id
                &&& final(self).id_cursor() == old(self).id_cursor() + 1
            },
    {
        if !self.available {
            return Err(CatalogError::StoreUnavailable);
        }
        if self.contains_uuid(&uuid) {
            return Err(CatalogError::ValidationError);
        }
        if self.next_id == i32::MAX {
            return Err(CatalogError::StoreUnavailable);
        }
        let row = ClipInfo { id: self.next_id, name: name, description: description, uuid: uuid };
        let result = row.clone();
        self.rows.push(row);
        self.next_id = self.next_id + 1;
        proof {
            assert(self@ =~= old(self)@.push(result@));
        }
        Ok(result)
    }

    /// Replace `name` and `description` of the row with id `id`; `id` and
    /// `uuid` are untouched, as is every other row.
    pub fn update(&mut self, id: i32, name: String, description: String) -> (r: Result<
        ClipInfo,
        CatalogError,
    >)
        requires
            old(self).wf(),
        ensures
            final(self).wf(),
            final(self).is_available() == old(self).is_available(),
            final(self).id_cursor() == old(self).id_cursor(),
            !old(self).is_available() ==> r == Err::<ClipInfo, CatalogError>(
                CatalogError::StoreUnavailable,
            ) && *final(self) == *old(self),
            old(self).is_available() && !has_id(old(self)@, id as int) ==> r == Err::<
                ClipInfo,
                CatalogError,
            >(CatalogError::NotFound) && *final(self) == *old(self),
            old(self).is_available() && has_id(old(self)@, id as int) ==> {
                &&& r is Ok
                &&& row_edited(old(self)@, final(self)@, r->Ok_0@, id as int, name@, description@)
            },
    {
        if !self.available {
            return Err(CatalogError::StoreUnavailable);
        }
        match self.index_of_id(id) {
            Some(i) => {
                self.rows[i].name = name;
                self.rows[i].description = description;
                let row = self.rows[i].clone();
                proof {
                    assert(self@ =~= old(self)@.update(i as int, row@));
                    assert(row_edited(old(self)@, self@, row@, id as int, name@, description@))
                        by {
                        assert(0 <= (i as int) < old(self)@.len()
                            && old(self)@[i as int].id == id as int
                            && row@ == edited(old(self)@[i as int], name@, description@)
                            && self@ == old(self)@.update(i as int, row@));
                    }
                }
                Ok(row)
            },
            None => Err(CatalogError::NotFound),
        }
    }

    /// Remove the row with id `id` and return it (its `uuid` names the
    /// object that should now be cleaned up).
    pub fn delete(&mut self, id: i32) -> (r: Result<ClipInfo, CatalogError>)
        requires
            old(self).wf(),
        ensures
            final(self).wf(),
            final(self).is_available() == old(self).is_available(),
            final(self).id_cursor() == old(self).id_cursor(),
            !old(self).is_available() ==> r == Err::<ClipInfo, CatalogError>(
                CatalogError::StoreUnavailable,
            ) && *final(self) == *old(self),
            old(self).is_available() && !has_id(old(self)@, id as int) ==> r == Err::<
                ClipInfo,
                CatalogError,
            >(CatalogError::NotFound) && *final(self) == *old(self),
            old(self).is_available() && has_id(old(self)@, id as int) ==> {
                &&& r is Ok
                &&& row_removed(old(self)@, final(self)@, r->Ok_0@, id as int)
            },
    {
        if !self.available {
            return Err(CatalogError::StoreUnavailable);
        }
        match self.index_of_id(id) {
            Some(i) => {
                let row = self.rows.remove(i);
                proof {
                    assert(self@ =~= old(self)@.remove(i as int));
                    assert(row_removed(old(self)@, self@, row@, id as int)) by {
                        assert(0 <= (i as int) < old(self)@.len()
                            && old(self)@[i as int].id == id as int
                            && row@ == old(self)@[i as int]
                            && self@ == old(self)@.remove(i as int));
                    }
                }
                Ok(row)
            },
            None => Err(CatalogError::NotFound),
        }
    }
}

} // verus!
