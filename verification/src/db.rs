use vstd::prelude::*;
use crate::store::Store;

verus! {

/// A fresh, empty store: no rows, no credentials, ids starting at 1.
pub fn init_memory_db() -> (r: Store)
    ensures
        r.wf(),
        r.exercises@.len() == 0,
        r.templates@.len() == 0,
        r.template_exercises@.len() == 0,
        r.sessions@.len() == 0,
        r.session_exercises@.len() == 0,
        r.sets@.len() == 0,
        r.auth is None,
        r.next_id == 1,
{
    Store {
        exercises: Vec::new(),
        templates: Vec::new(),
        template_exercises: Vec::new(),
        sessions: Vec::new(),
        session_exercises: Vec::new(),
        sets: Vec::new(),
        auth: None,
        next_id: 1,
    }
}

/// Picks the migrations directory: the caller reports, for the usual
/// candidates `migrations`, `../migrations`, `../../migrations` and
/// `../../../migrations` in that order, whether each is a directory, and
/// the first existing one wins; with none, the local name is returned as
/// a fallback.
pub fn find_migrations_dir(exists: &Vec<bool>) -> (r: String)
    requires
        exists@.len() == 4,
    ensures
        r@ == (if exists@[0] {
            "migrations"@
        } else if exists@[1] {
            "../migrations"@
        } else if exists@[2] {
            "../../migrations"@
        } else if exists@[3] {
            "../../../migrations"@
        } else {
            "migrations"@
        }),
{
    if exists[0] {
        "migrations".to_owned()
    } else if exists[1] {
        "../migrations".to_owned()
    } else if exists[2] {
        "../../migrations".to_owned()
    } else if exists[3] {
        "../../../migrations".to_owned()
    } else {
        "migrations".to_owned()
    }
}

} // verus!
