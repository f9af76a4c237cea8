use vstd::prelude::*;

verus! {

/// Mathematical model of one catalog entry: the metadata row as the
/// contracts speak of it.
pub struct ClipModel {
    pub id: int,
    pub name: Seq<char>,
    pub description: Seq<char>,
    pub uuid: Seq<char>,
}

/// One catalog entry: metadata for a stored clip.  `id` is assigned by the
/// metadata store on creation and `uuid` is the external identifier and
/// storage key; both are immutable for the lifetime of the record, while
/// `name` and `description` are mutable by an authorized edit.
#[derive(Debug, PartialEq, Eq)]
pub struct ClipInfo {
    pub id: i32,
    pub name: String,
    pub description: String,
    pub uuid: String,
}

impl View for ClipInfo {
    type V = ClipModel;

    open spec fn view(&self) -> ClipModel {
        ClipModel {
            id: self.id as int,
            name: self.name@,
            description: self.description@,
            uuid: self.uuid@,
        }
    }
}

impl Clone for ClipInfo {
    /// A clone denotes the same model.
    fn clone(&self) -> (res: Self)
        ensures
            res@ == self@,
    {
        ClipInfo {
            id: self.id,
            name: self.name.clone(),
            description: self.description.clone(),
            uuid: self.uuid.clone(),
        }
    }
}

/// The row `c` edited: `name` and `description` replaced, `id` and `uuid`
/// kept.
pub open spec fn edited(c: ClipModel, name: Seq<char>, description: Seq<char>) -> ClipModel {
    ClipModel { id: c.id, name: name, description: description, uuid: c.uuid }
}

} // verus!
