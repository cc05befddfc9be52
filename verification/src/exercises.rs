use vstd::prelude::*;
use crate::error::AppError;
use crate::models::{clone_opt_string, CreateExercise, Exercise, UpdateExercise};
use crate::order::{sort_rows, sorted};
use crate::store::{
    exercise_name_taken, exercise_names_unique, find_key, has_key, key_index, lemma_push_row,
    lemma_row_at, lemma_update_row, row_at, Keyed, Store,
};

verus! {

/// The listing keeps exactly the non-archived exercises.
pub open spec fn live_exercise() -> spec_fn(Exercise) -> bool {
    |e: Exercise| !e.archived
}

/// The row as it stands after applying the supplied fields of an update.
pub open spec fn apply_exercise_update(row: Exercise, u: UpdateExercise) -> Exercise {
    Exercise {
        id: row.id,
        name: if u.name is Some { u.name->0 } else { row.name },
        muscle_group: if u.muscle_group is Some { u.muscle_group } else { row.muscle_group },
        equipment: if u.equipment is Some { u.equipment } else { row.equipment },
        notes: if u.notes is Some { u.notes } else { row.notes },
        archived: row.archived,
        created_at: row.created_at,
    }
}

/// A non-archived exercise other than `id` is named `name`.
pub open spec fn other_exercise_named(s: Seq<Exercise>, id: i64, name: Seq<char>) -> bool {
    exists|j: int|
        0 <= j < s.len() && (#[trigger] s[j]).id != id && !s[j].archived && s[j].name@ == name
}

/// Whether a non-archived exercise holds `name`.
fn name_in_use(store: &Store, name: &String) -> (r: bool)
    ensures
        r == exercise_name_taken(store.exercises@, name@),
{
    let n = store.exercises.len();
    let mut i: usize = 0;
    while i < n
        invariant
            i <= n,
            n == store.exercises@.len(),
            forall|j: int|
                0 <= j < i ==> ((#[trigger] store.exercises@[j]).archived
                    || store.exercises@[j].name@ != name@),
        decreases n - i,
    {
        let e = &store.exercises[i];
        if !e.archived && e.name == *name {
            proof {
                assert(!store.exercises@[i as int].archived && store.exercises@[i as int].name@
                    == name@);
            }
            return true;
        }
        i += 1;
    }
    false
}

/// Whether a non-archived exercise other than `id` holds `name`.
fn name_in_use_by_other(store: &Store, id: i64, name: &String) -> (r: bool)
    ensures
        r == other_exercise_named(store.exercises@, id, name@),
{
    let n = store.exercises.len();
    let mut i: usize = 0;
    while i < n
        invariant
            i <= n,
            n == store.exercises@.len(),
            forall|j: int|
                0 <= j < i ==> ((#[trigger] store.exercises@[j]).id == id
                    || store.exercises@[j].archived || store.exercises@[j].name@ != name@),
        decreases n - i,
    {
        let e = &store.exercises[i];
        if e.read_key() != id && !e.archived && e.name == *name {
            proof {
                assert(store.exercises@[i as int].id != id && !store.exercises@[i as int].archived
                    && store.exercises@[i as int].name@ == name@);
            }
            return true;
        }
        i += 1;
    }
    false
}

/// All non-archived exercises, ordered by name.
pub fn list(store: &Store) -> (r: Result<Vec<Exercise>, AppError>)
    requires
        store.wf(),
    ensures
        r matches Ok(v) && sorted(v@) && v@.to_multiset() == store.exercises@.filter(
            live_exercise(),
        ).to_multiset(),
{
    let mut rows: Vec<Exercise> = Vec::new();
    let n = store.exercises.len();
    let mut i: usize = 0;
    proof {
        assert(store.exercises@.take(0).filter(live_exercise()) =~= rows@);
    }
    while i < n
        invariant
            i <= n,
            n == store.exercises@.len(),
            rows@ == store.exercises@.take(i as int).filter(live_exercise()),
        decreases n - i,
    {
        let e = &store.exercises[i];
        proof {
            assert(store.exercises@.take(i + 1) =~= store.exercises@.take(i as int).push(
                store.exercises@[i as int],
            ));
            store.exercises@.take(i as int).lemma_filter_push(
                store.exercises@[i as int],
                live_exercise(),
            );
        }
        if !e.archived {
            rows.push(e.clone());
        }
        i += 1;
    }
    proof {
        assert(store.exercises@.take(n as int) =~= store.exercises@);
    }
    Ok(sort_rows(rows))
}

/// The exercise with the given id, archived or not.
pub fn get(store: &Store, id: i64) -> (r: Result<Exercise, AppError>)
    requires
        store.wf(),
    ensures
        match r {
            Ok(e) => has_key(store.exercises@, id) && e == row_at(store.exercises@, id),
            Err(e) => e is NotFound && !has_key(store.exercises@, id),
        },
{
    match find_key(&store.exercises, id) {
        Some(i) => {
            proof {
                lemma_row_at(store.exercises@, id, i as int);
            }
            Ok(store.exercises[i].clone())
        },
        None => Err(AppError::NotFound),
    }
}

/// Creates an exercise named as requested, unless a non-archived exercise
/// already holds the name.
pub fn create(store: &mut Store, input: &CreateExercise, now: i64) -> (r: Result<
    Exercise,
    AppError,
>)
    requires
        old(store).wf(),
        old(store).next_id < i64::MAX,
    ensures
        final(store).wf(),
        match r {
            Ok(e) => {
                &&& !exercise_name_taken(old(store).exercises@, input.name@)
                &&& e.id == old(store).next_id
                &&& e.name == input.name
                &&& e.muscle_group == input.muscle_group
                &&& e.equipment == input.equipment
                &&& e.notes == input.notes
                &&& !e.archived
                &&& e.created_at == now
                &&& final(store).exercises@ == old(store).exercises@.push(e)
                &&& final(store).next_id == old(store).next_id + 1
                &&& final(store).templates == old(store).templates
                &&& final(store).template_exercises == old(store).template_exercises
                &&& final(store).sessions == old(store).sessions
                &&& final(store).session_exercises == old(store).session_exercises
                &&& final(store).sets == old(store).sets
                &&& final(store).auth == old(store).auth
            },
            Err(e) => e is AlreadyExists && exercise_name_taken(
                old(store).exercises@,
                input.name@,
            ) && *final(store) == *old(store),
        },
{
    if name_in_use(store, &input.name) {
        return Err(AppError::AlreadyExists);
    }
    let row = Exercise {
        id: store.next_id,
        name: input.name.clone(),
        muscle_group: clone_opt_string(&input.muscle_group),
        equipment: clone_opt_string(&input.equipment),
        notes: clone_opt_string(&input.notes),
        archived: false,
        created_at: now,
    };
    let out = row.clone();
    proof {
        lemma_push_row(old(store).exercises@, row, old(store).next_id as int, old(store).next_id + 1);
    }
    store.exercises.push(row);
    store.next_id = store.next_id + 1;
    proof {
        assert(exercise_names_unique(store.exercises@)) by {
            let s = store.exercises@;
            let m = s.len() - 1;
            assert forall|a: int, b: int|
                0 <= a < s.len() && 0 <= b < s.len() && a != b && !(#[trigger] s[a]).archived && !(
                #[trigger] s[b]).archived implies s[a].name@ != s[b].name@ by {
                if a < m && b < m {
                    assert(old(store).exercises@[a].name@ != old(store).exercises@[b].name@);
                }
            }
        }
    }
    Ok(out)
}

/// Applies the supplied fields to an existing exercise and returns the
/// updated row. Renaming a non-archived exercise to a name that another
/// non-archived exercise holds is refused, keeping names unique.
pub fn update(store: &mut Store, id: i64, input: &UpdateExercise) -> (r: Result<
    Exercise,
    AppError,
>)
    requires
        old(store).wf(),
    ensures
        final(store).wf(),
        final(store).next_id == old(store).next_id,
        final(store).templates == old(store).templates,
        final(store).template_exercises == old(store).template_exercises,
        final(store).sessions == old(store).sessions,
        final(store).session_exercises == old(store).session_exercises,
        final(store).sets == old(store).sets,
        final(store).auth == old(store).auth,
        match r {
            Ok(e) => {
                &&& has_key(old(store).exercises@, id)
                &&& e == apply_exercise_update(row_at(old(store).exercises@, id), *input)
                &&& final(store).exercises@ == old(store).exercises@.update(
                    key_index(old(store).exercises@, id),
                    e,
                )
            },
            Err(err) => {
                &&& *final(store) == *old(store)
                &&& match err {
                    AppError::NotFound => !has_key(old(store).exercises@, id),
                    AppError::AlreadyExists => {
                        &&& has_key(old(store).exercises@, id)
                        &&& input.name is Some
                        &&& !row_at(old(store).exercises@, id).archived
                        &&& other_exercise_named(old(store).exercises@, id, input.name->0@)
                    },
                    _ => false,
                }
            },
        },
{
    let i = match find_key(&store.exercises, id) {
        Some(i) => i,
        None => {
            return Err(AppError::NotFound);
        },
    };
    proof {
        lemma_row_at(store.exercises@, id, i as int);
    }
    // A renamed live exercise must not collide with another live name.
    let mut rename_checked = false;
    if let Some(new_name) = &input.name {
        if !store.exercises[i].archived {
            if name_in_use_by_other(store, id, new_name) {
                return Err(AppError::AlreadyExists);
            }
            rename_checked = true;
        }
    }
    let row = &store.exercises[i];
    let updated = Exercise {
        id: row.id,
        name: match &input.name {
            Some(n) => n.clone(),
            None => row.name.clone(),
        },
        muscle_group: match &input.muscle_group {
            Some(_) => clone_opt_string(&input.muscle_group),
            None => clone_opt_string(&row.muscle_group),
        },
        equipment: match &input.equipment {
            Some(_) => clone_opt_string(&input.equipment),
            None => clone_opt_string(&row.equipment),
        },
        notes: match &input.notes {
            Some(_) => clone_opt_string(&input.notes),
            None => clone_opt_string(&row.notes),
        },
        archived: row.archived,
        created_at: row.created_at,
    };
    let out = updated.clone();
    proof {
        assert(updated == apply_exercise_update(row_at(old(store).exercises@, id), *input));
        lemma_update_row(old(store).exercises@, i as int, updated, old(store).next_id as int);
    }
    store.exercises.set(i, updated);
    proof {
        assert(exercise_names_unique(store.exercises@)) by {
            let s = store.exercises@;
            let olds = old(store).exercises@;
            assert forall|a: int, b: int|
                0 <= a < s.len() && 0 <= b < s.len() && a != b && !(#[trigger] s[a]).archived && !(
                #[trigger] s[b]).archived implies s[a].name@ != s[b].name@ by {
                if a != i && b != i {
                    assert(olds[a].name@ != olds[b].name@);
                } else {
                    let c = if a == i { b } else { a };
                    assert(s[c] == olds[c]);
                    assert(olds[c].key() != olds[i as int].key());
                    assert(olds[c].id != id);
                    if input.name is Some {
                        assert(rename_checked);
                        assert(!other_exercise_named(olds, id, input.name->0@));
                        assert(!(olds[c].id != id && !olds[c].archived && olds[c].name@
                            == input.name->0@));
                    } else {
                        assert(olds[i as int].name@ != olds[c].name@);
                    }
                }
            }
        }
    }
    Ok(out)
}

/// Soft-deletes an exercise: it disappears from listings but keeps its id
/// for templates and history that reference it. An id that is absent or
/// already gone from the catalog (already archived) is not found.
pub fn archive(store: &mut Store, id: i64) -> (r: Result<(), AppError>)
    requires
        old(store).wf(),
    ensures
        final(store).wf(),
        final(store).next_id == old(store).next_id,
        final(store).templates == old(store).templates,
        final(store).template_exercises == old(store).template_exercises,
        final(store).sessions == old(store).sessions,
        final(store).session_exercises == old(store).session_exercises,
        final(store).sets == old(store).sets,
        final(store).auth == old(store).auth,
        match r {
            Ok(_) => {
                &&& has_key(old(store).exercises@, id)
                &&& !row_at(old(store).exercises@, id).archived
                &&& final(store).exercises@ == old(store).exercises@.update(
                    key_index(old(store).exercises@, id),
                    Exercise { archived: true, ..row_at(old(store).exercises@, id) },
                )
            },
            Err(e) => e is NotFound && (!has_key(old(store).exercises@, id) || row_at(
                old(store).exercises@,
                id,
            ).archived) && *final(store) == *old(store),
        },
{
    let i = match find_key(&store.exercises, id) {
        Some(i) => i,
        None => {
            return Err(AppError::NotFound);
        },
    };
    proof {
        lemma_row_at(store.exercises@, id, i as int);
    }
    let row = &store.exercises[i];
    if row.archived {
        return Err(AppError::NotFound);
    }
    let row = &store.exercises[i];
    let updated = Exercise {
        id: row.id,
        name: row.name.clone(),
        muscle_group: clone_opt_string(&row.muscle_group),
        equipment: clone_opt_string(&row.equipment),
        notes: clone_opt_string(&row.notes),
        archived: true,
        created_at: row.created_at,
    };
    proof {
        lemma_update_row(old(store).exercises@, i as int, updated, old(store).next_id as int);
    }
    store.exercises.set(i, updated);
    proof {
        assert(exercise_names_unique(store.exercises@)) by {
            let s = store.exercises@;
            let olds = old(store).exercises@;
            assert forall|a: int, b: int|
                0 <= a < s.len() && 0 <= b < s.len() && a != b && !(#[trigger] s[a]).archived && !(
                #[trigger] s[b]).archived implies s[a].name@ != s[b].name@ by {
                assert(olds[a].name@ != olds[b].name@);
            }
        }
    }
    Ok(())
}

} // verus!
