//! Daily completion entries: one per routine per day.

use crate::error::ApiResult;
use vstd::prelude::*;

verus! {

/// A completion mark for a routine on a day, days counted since the epoch.
#[verifier::ext_equal]
pub struct RoutineEntry {
    pub date: i64,
    pub routine_id: String,
}

impl View for RoutineEntry {
    type V = (int, Seq<char>);

    open spec fn view(&self) -> (int, Seq<char>) {
        (self.date as int, self.routine_id@)
    }
}

/// Whether some element of `s` reads as `k`.
pub open spec fn in_str_list(s: Seq<String>, k: Seq<char>) -> bool {
    exists|j: int| 0 <= j < s.len() && (#[trigger] s[j])@ == k
}

/// What a listing of the marks of `ids` must be: sound against the stored
/// set, complete for every listed routine, and free of duplicates.
pub open spec fn entries_listing_ok(
    model: Set<(int, Seq<char>)>,
    ids: Seq<String>,
    v: Seq<RoutineEntry>,
) -> bool {
    &&& forall|i: int| 0 <= i < v.len() ==> model.contains((#[trigger] v[i])@) && in_str_list(
        ids,
        v[i]@.1,
    )
    &&& forall|d: int, rid: Seq<char>| #[trigger] model.contains((d, rid)) && in_str_list(ids, rid)
        ==> exists|i: int| 0 <= i < v.len() && (#[trigger] v[i])@ == (d, rid)
    &&& forall|i: int, j: int| 0 <= i < j < v.len() ==> (#[trigger] v[i])@ != (#[trigger] v[j])@
}

/// Entry capability: bulk lookup and the toggle that flips one day's mark.
pub trait RoutineEntryDataLayer: crate::database::StoreModel {
    /// Every stored entry of every listed routine: sound, complete, and
    /// free of duplicates.
    fn get_entries(&self, routine_ids: &Vec<String>) -> (r: ApiResult<Vec<RoutineEntry>>)
        ensures
            match r {
                Ok(v) => entries_listing_ok(self.entries(), routine_ids@, v@),
                Err(_) => true,
            },
    ;

    /// Removes the mark when present (returning `true`), places it when
    /// absent (returning `false`).
    fn toggle_entries(&mut self, date: i64, routine_id: &str) -> (r: ApiResult<bool>)
        ensures
            crate::database::only_entries_changed(*old(self), *final(self)),
            match r {
                Ok(removed) => if removed {
                    old(self).entries().contains((date as int, routine_id@)) && final(self).entries() == old(self).entries().remove((date as int, routine_id@))
                } else {
                    !old(self).entries().contains((date as int, routine_id@)) && final(self).entries() == old(self).entries().insert((date as int, routine_id@))
                },
                Err(_) => final(self).entries() == old(self).entries(),
            },
    ;

    fn create_entry(&mut self, date: i64, routine_id: &str) -> (r: ApiResult<()>)
        ensures
            crate::database::only_entries_changed(*old(self), *final(self)),
            match r {
                Ok(_) => final(self).entries() == old(self).entries().insert(
                    (date as int, routine_id@),
                ),
                Err(_) => final(self).entries() == old(self).entries(),
            },
    ;

    fn delete_entry(&mut self, date: i64, routine_id: &str) -> (r: ApiResult<()>)
        ensures
            crate::database::only_entries_changed(*old(self), *final(self)),
            match r {
                Ok(_) => final(self).entries() == old(self).entries().remove(
                    (date as int, routine_id@),
                ),
                Err(_) => final(self).entries() == old(self).entries(),
            },
    ;
}

} // verus!
