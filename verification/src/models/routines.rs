//! Routines: the habits a user tracks.

use crate::error::ApiResult;
use vstd::prelude::*;

verus! {

/// Ghost form of a routine.
pub struct RoutineView {
    pub id: Seq<char>,
    pub title: Seq<char>,
    pub color: Seq<char>,
    pub user_id: Seq<char>,
    pub created_at: int,
    pub updated_at: Option<int>,
}

/// A routine record.
#[verifier::ext_equal]
pub struct Routine {
    pub id: String,
    pub title: String,
    pub color: String,
    pub user_id: String,
    pub created_at: i64,
    pub updated_at: Option<i64>,
}

impl View for Routine {
    type V = RoutineView;

    open spec fn view(&self) -> RoutineView {
        RoutineView {
            id: self.id@,
            title: self.title@,
            color: self.color@,
            user_id: self.user_id@,
            created_at: self.created_at as int,
            updated_at: crate::codec::opt_i64_view(self.updated_at),
        }
    }
}

/// A routine together with its rendered completion grid: one flag per day,
/// days counted since the epoch.
pub struct RoutineWithEntries {
    pub routine: Routine,
    pub entries: Vec<(i64, bool)>,
}

/// Routine capability: lookup by id or owner, creation, removal.
pub trait RoutineDataLayer: crate::database::StoreModel {
    fn get_routine(&self, id: &str) -> (r: ApiResult<Option<Routine>>)
        ensures
            match r {
                Ok(Some(rt)) => self.routines().contains_key(id@) && rt@ == self.routines()[id@],
                Ok(None) => !self.routines().contains_key(id@),
                Err(_) => true,
            },
    ;

    /// All routines owned by `user_id`: sound, complete, and free of
    /// duplicates.
    fn get_routines(&self, user_id: &str) -> (r: ApiResult<Vec<Routine>>)
        ensures
            match r {
                Ok(v) => {
                    &&& forall|i: int| 0 <= i < v@.len() ==> self.routines().contains_key(
                        (#[trigger] v@[i])@.id,
                    ) && v@[i]@ == self.routines()[v@[i]@.id] && v@[i]@.user_id == user_id@
                    &&& forall|k: Seq<char>| #[trigger] self.routines().contains_key(k)
                        && self.routines()[k].user_id == user_id@ ==> exists|i: int|
                        0 <= i < v@.len() && (#[trigger] v@[i])@.id == k
                    &&& forall|i: int, j: int| 0 <= i < j < v@.len() ==> (#[trigger] v@[i])@.id != (
                    #[trigger] v@[j])@.id
                },
                Err(_) => true,
            },
    ;

    /// A fresh routine owned by `user_id` with the given title and color.
    fn create_routine(&mut self, title: &str, color: &str, user_id: &str) -> (r: ApiResult<Routine>)
        ensures
            crate::database::only_routines_changed(*old(self), *final(self)),
            match r {
                Ok(rt) => {
                    &&& !old(self).routines().contains_key(rt@.id)
                    &&& rt@.title == title@
                    &&& rt@.color == color@
                    &&& rt@.user_id == user_id@
                    &&& rt@.updated_at is None
                    &&& final(self).routines() == old(self).routines().insert(rt@.id, rt@)
                },
                Err(_) => final(self).routines() == old(self).routines(),
            },
    ;

    fn delete_routine(&mut self, id: &str) -> (r: ApiResult<()>)
        ensures
            crate::database::only_routines_changed(*old(self), *final(self)),
            match r {
                Ok(_) => final(self).routines() == old(self).routines().remove(id@),
                Err(_) => final(self).routines() == old(self).routines(),
            },
    ;
}

} // verus!
