use vstd::prelude::*;
use crate::error::AppError;
use crate::models::{
    clone_opt_string, CreateTemplate, CreateTemplateExercise, Exercise, Template, TemplateExercise,
    UpdateTemplate,
};
use crate::order::{sort_rows, sorted};
use crate::store::{
    exercise_name, find_key, has_key, key_index, lemma_filter_rows, lemma_push_row, lemma_row_at,
    lemma_rows_from_filter, lemma_update_row, row_at, template_name_taken, template_names_unique,
    Keyed, Store, TemplateExerciseRow, TemplateRow,
};

verus! {

/// The listing keeps exactly the non-archived templates.
pub open spec fn live_template() -> spec_fn(TemplateRow) -> bool {
    |t: TemplateRow| !t.archived
}

/// The exercise specs belonging to one template.
pub open spec fn te_of_template(tid: i64) -> spec_fn(TemplateExerciseRow) -> bool {
    |te: TemplateExerciseRow| te.template_id == tid
}

/// The exercise specs not belonging to one template.
pub open spec fn te_of_other_template(tid: i64) -> spec_fn(TemplateExerciseRow) -> bool {
    |te: TemplateExerciseRow| te.template_id != tid
}

/// The display form of a stored exercise spec: the row joined with the
/// referenced exercise's name.
pub open spec fn te_view_ok(exs: Seq<Exercise>, row: TemplateExerciseRow, v: TemplateExercise) -> bool {
    &&& v.id == row.id
    &&& v.exercise_id == row.exercise_id
    &&& v.exercise_name == row_at(exs, row.exercise_id).name
    &&& v.position == row.position
    &&& v.target_sets == row.target_sets
    &&& v.target_reps_min == row.target_reps_min
    &&& v.target_reps_max == row.target_reps_max
    &&& v.rest_seconds == row.rest_seconds
    &&& v.notes == row.notes
}

/// `vs` displays `rows`, an ordered permutation of the template's specs.
pub open spec fn te_rows_match(
    store: Store,
    tid: i64,
    rows: Seq<TemplateExerciseRow>,
    vs: Seq<TemplateExercise>,
) -> bool {
    &&& sorted(rows)
    &&& rows.to_multiset() == store.template_exercises@.filter(te_of_template(tid)).to_multiset()
    &&& vs.len() == rows.len()
    &&& forall|i: int| 0 <= i < rows.len() ==> te_view_ok(store.exercises@, rows[i], #[trigger] vs[i])
}

/// `vs` is the template's spec list, ordered by position, joined with
/// exercise names.
pub open spec fn template_exercises_view_ok(store: Store, tid: i64, vs: Seq<TemplateExercise>) -> bool {
    exists|rows: Seq<TemplateExerciseRow>| te_rows_match(store, tid, rows, vs)
}

/// `t` displays the template row `row` with its eager-loaded spec list.
pub open spec fn template_view_ok(store: Store, row: TemplateRow, t: Template) -> bool {
    &&& t.id == row.id
    &&& t.name == row.name
    &&& t.notes == row.notes
    &&& t.archived == row.archived
    &&& t.created_at == row.created_at
    &&& t.updated_at == row.updated_at
    &&& template_exercises_view_ok(store, row.id, t.exercises@)
}

/// `vs` displays `trows`, an ordered permutation of the live templates.
pub open spec fn template_rows_match(store: Store, trows: Seq<TemplateRow>, vs: Seq<Template>) -> bool {
    &&& sorted(trows)
    &&& trows.to_multiset() == store.templates@.filter(live_template()).to_multiset()
    &&& vs.len() == trows.len()
    &&& forall|i: int| 0 <= i < trows.len() ==> template_view_ok(store, trows[i], #[trigger] vs[i])
}

/// `vs` is the listing of the live templates, ordered by name.
pub open spec fn templates_listing_ok(store: Store, vs: Seq<Template>) -> bool {
    exists|trows: Seq<TemplateRow>| template_rows_match(store, trows, vs)
}

/// The stored form of a caller-supplied exercise spec.
pub open spec fn spec_te_row(sp: CreateTemplateExercise, tid: i64, id: i64) -> TemplateExerciseRow {
    TemplateExerciseRow {
        id: id,
        template_id: tid,
        exercise_id: sp.exercise_id,
        position: sp.position,
        target_sets: sp.target_sets,
        target_reps_min: sp.target_reps_min,
        target_reps_max: sp.target_reps_max,
        rest_seconds: sp.rest_seconds,
        notes: sp.notes,
    }
}

/// The rows a spec list inserts, with ids counted up from `base`.
pub open spec fn fresh_te_rows(
    specs: Seq<CreateTemplateExercise>,
    tid: i64,
    base: int,
) -> Seq<TemplateExerciseRow> {
    Seq::new(specs.len(), |k: int| spec_te_row(specs[k], tid, (base + k) as i64))
}

/// The template row as it stands after an update: supplied fields replace
/// old ones, and any change stamps `updated_at`.
pub open spec fn apply_template_update(row: TemplateRow, u: UpdateTemplate, now: i64) -> TemplateRow {
    TemplateRow {
        id: row.id,
        name: if u.name is Some { u.name->0 } else { row.name },
        notes: if u.notes is Some { u.notes } else { row.notes },
        archived: row.archived,
        created_at: row.created_at,
        updated_at: if u.name is Some || u.notes is Some || u.exercises is Some { now } else {
            row.updated_at
        },
    }
}

/// A non-archived template other than `id` is named `name`.
pub open spec fn other_template_named(s: Seq<TemplateRow>, id: i64, name: Seq<char>) -> bool {
    exists|j: int|
        0 <= j < s.len() && (#[trigger] s[j]).id != id && !s[j].archived && s[j].name@ == name
}

/// Whether a non-archived template holds `name`.
fn name_in_use(store: &Store, name: &String) -> (r: bool)
    ensures
        r == template_name_taken(store.templates@, name@),
{
    let n = store.templates.len();
    let mut i: usize = 0;
    while i < n
        invariant
            i <= n,
            n == store.templates@.len(),
            forall|j: int|
                0 <= j < i ==> ((#[trigger] store.templates@[j]).archived
                    || store.templates@[j].name@ != name@),
        decreases n - i,
    {
        let t = &store.templates[i];
        if !t.archived && t.name == *name {
            proof {
                assert(!store.templates@[i as int].archived && store.templates@[i as int].name@
                    == name@);
            }
            return true;
        }
        i += 1;
    }
    false
}

/// Whether a non-archived template other than `id` holds `name`.
fn name_in_use_by_other(store: &Store, id: i64, name: &String) -> (r: bool)
    ensures
        r == other_template_named(store.templates@, id, name@),
{
    let n = store.templates.len();
    let mut i: usize = 0;
    while i < n
        invariant
            i <= n,
            n == store.templates@.len(),
            forall|j: int|
                0 <= j < i ==> ((#[trigger] store.templates@[j]).id == id
                    || store.templates@[j].archived || store.templates@[j].name@ != name@),
        decreases n - i,
    {
        let t = &store.templates[i];
        if t.read_key() != id && !t.archived && t.name == *name {
            proof {
                assert(store.templates@[i as int].id != id && !store.templates@[i as int].archived
                    && store.templates@[i as int].name@ == name@);
            }
            return true;
        }
        i += 1;
    }
    false
}

/// The index of the first supplied spec whose exercise does not exist.
fn first_bad_exercise_ref(store: &Store, specs: &Vec<CreateTemplateExercise>) -> (r: Option<usize>)
    ensures
        match r {
            Some(k) => k < specs@.len() && !has_key(store.exercises@, specs@[k as int].exercise_id),
            None => forall|k: int|
                0 <= k < specs@.len() ==> has_key(
                    store.exercises@,
                    (#[trigger] specs@[k]).exercise_id,
                ),
        },
{
    let mut k: usize = 0;
    while k < specs.len()
        invariant
            k <= specs@.len(),
            forall|j: int|
                0 <= j < k ==> has_key(store.exercises@, (#[trigger] specs@[j]).exercise_id),
        decreases specs@.len() - k,
    {
        if find_key(&store.exercises, specs[k].exercise_id).is_none() {
            return Some(k);
        }
        k += 1;
    }
    None
}

/// The ordered, name-joined spec list of one template.
fn get_template_exercises(store: &Store, tid: i64) -> (r: Vec<TemplateExercise>)
    requires
        store.wf(),
    ensures
        template_exercises_view_ok(*store, tid, r@),
{
    let mut rows: Vec<TemplateExerciseRow> = Vec::new();
    let n = store.template_exercises.len();
    let mut i: usize = 0;
    proof {
        assert(store.template_exercises@.take(0).filter(te_of_template(tid)) =~= rows@);
    }
    while i < n
        invariant
            i <= n,
            n == store.template_exercises@.len(),
            rows@ == store.template_exercises@.take(i as int).filter(te_of_template(tid)),
        decreases n - i,
    {
        let te = &store.template_exercises[i];
        proof {
            assert(store.template_exercises@.take(i + 1) =~= store.template_exercises@.take(
                i as int,
            ).push(store.template_exercises@[i as int]));
            store.template_exercises@.take(i as int).lemma_filter_push(
                store.template_exercises@[i as int],
                te_of_template(tid),
            );
        }
        if te.template_id == tid {
            rows.push(te.clone());
        }
        i += 1;
    }
    proof {
        assert(store.template_exercises@.take(n as int) =~= store.template_exercises@);
    }
    let rows = sort_rows(rows);
    proof {
        lemma_rows_from_filter(
            store.template_exercises@,
            te_of_template(tid),
            rows@,
            store.next_id as int,
        );
    }
    let mut out: Vec<TemplateExercise> = Vec::new();
    let mut j: usize = 0;
    while j < rows.len()
        invariant
            store.wf(),
            j <= rows@.len(),
            out@.len() == j,
            forall|k: int|
                0 <= k < rows@.len() ==> has_key(
                    store.exercises@,
                    (#[trigger] rows@[k]).exercise_id,
                ),
            forall|k: int|
                0 <= k < j ==> te_view_ok(store.exercises@, rows@[k], #[trigger] out@[k]),
        decreases rows@.len() - j,
    {
        let te = &rows[j];
        out.push(
            TemplateExercise {
                id: te.id,
                exercise_id: te.exercise_id,
                exercise_name: exercise_name(store, te.exercise_id),
                position: te.position,
                target_sets: te.target_sets,
                target_reps_min: te.target_reps_min,
                target_reps_max: te.target_reps_max,
                rest_seconds: te.rest_seconds,
                notes: clone_opt_string(&te.notes),
            },
        );
        j += 1;
    }
    proof {
        assert(te_rows_match(*store, tid, rows@, out@));
    }
    out
}

/// All non-archived templates ordered by name, each with its spec list.
pub fn list(store: &Store) -> (r: Result<Vec<Template>, AppError>)
    requires
        store.wf(),
    ensures
        r matches Ok(v) && templates_listing_ok(*store, v@),
{
    let mut rows: Vec<TemplateRow> = Vec::new();
    let n = store.templates.len();
    let mut i: usize = 0;
    proof {
        assert(store.templates@.take(0).filter(live_template()) =~= rows@);
    }
    while i < n
        invariant
            i <= n,
            n == store.templates@.len(),
            rows@ == store.templates@.take(i as int).filter(live_template()),
        decreases n - i,
    {
        let t = &store.templates[i];
        proof {
            assert(store.templates@.take(i + 1) =~= store.templates@.take(i as int).push(
                store.templates@[i as int],
            ));
            store.templates@.take(i as int).lemma_filter_push(
                store.templates@[i as int],
                live_template(),
            );
        }
        if !t.archived {
            rows.push(t.clone());
        }
        i += 1;
    }
    proof {
        assert(store.templates@.take(n as int) =~= store.templates@);
    }
    let trows = sort_rows(rows);
    let mut out: Vec<Template> = Vec::new();
    let mut j: usize = 0;
    while j < trows.len()
        invariant
            store.wf(),
            j <= trows@.len(),
            out@.len() == j,
            forall|k: int|
                0 <= k < j ==> template_view_ok(*store, trows@[k], #[trigger] out@[k]),
        decreases trows@.len() - j,
    {
        let t = &trows[j];
        out.push(
            Template {
                id: t.id,
                name: t.name.clone(),
                notes: clone_opt_string(&t.notes),
                archived: t.archived,
                created_at: t.created_at,
                updated_at: t.updated_at,
                exercises: get_template_exercises(store, t.id),
            },
        );
        j += 1;
    }
    proof {
        assert(template_rows_match(*store, trows@, out@));
    }
    Ok(out)
}

/// The template with the given id, archived or not, with its spec list.
pub fn get(store: &Store, id: i64) -> (r: Result<Template, AppError>)
    requires
        store.wf(),
    ensures
        match r {
            Ok(t) => has_key(store.templates@, id) && template_view_ok(
                *store,
                row_at(store.templates@, id),
                t,
            ),
            Err(e) => e is NotFound && !has_key(store.templates@, id),
        },
{
    let i = match find_key(&store.templates, id) {
        Some(i) => i,
        None => {
            return Err(AppError::NotFound);
        },
    };
    proof {
        lemma_row_at(store.templates@, id, i as int);
    }
    let t = &store.templates[i];
    Ok(
        Template {
            id: t.id,
            name: t.name.clone(),
            notes: clone_opt_string(&t.notes),
            archived: t.archived,
            created_at: t.created_at,
            updated_at: t.updated_at,
            exercises: get_template_exercises(store, id),
        },
    )
}

/// Appends the supplied specs as rows of template `tid`, assigning ids in
/// order.
fn append_template_exercises(store: &mut Store, tid: i64, specs: &Vec<CreateTemplateExercise>)
    requires
        old(store).wf(),
        has_key(old(store).templates@, tid),
        forall|k: int|
            0 <= k < specs@.len() ==> has_key(
                old(store).exercises@,
                (#[trigger] specs@[k]).exercise_id,
            ),
        old(store).next_id + specs@.len() <= i64::MAX,
    ensures
        final(store).wf(),
        final(store).template_exercises@ == old(store).template_exercises@ + fresh_te_rows(
            specs@,
            tid,
            old(store).next_id as int,
        ),
        final(store).next_id == old(store).next_id + specs@.len(),
        final(store).exercises == old(store).exercises,
        final(store).templates == old(store).templates,
        final(store).sessions == old(store).sessions,
        final(store).session_exercises == old(store).session_exercises,
        final(store).sets == old(store).sets,
        final(store).auth == old(store).auth,
{
    let ghost base = old(store).next_id as int;
    let ghost fresh = fresh_te_rows(specs@, tid, base);
    let mut k: usize = 0;
    proof {
        assert(store.template_exercises@ =~= old(store).template_exercises@ + fresh.take(0));
    }
    while k < specs.len()
        invariant
            k <= specs@.len(),
            store.wf(),
            store.exercises == old(store).exercises,
            store.templates == old(store).templates,
            store.sessions == old(store).sessions,
            store.session_exercises == old(store).session_exercises,
            store.sets == old(store).sets,
            store.auth == old(store).auth,
            store.next_id == old(store).next_id + k,
            old(store).next_id + specs@.len() <= i64::MAX,
            has_key(store.templates@, tid),
            forall|j: int|
                0 <= j < specs@.len() ==> has_key(
                    store.exercises@,
                    (#[trigger] specs@[j]).exercise_id,
                ),
            fresh == fresh_te_rows(specs@, tid, base),
            base == old(store).next_id as int,
            store.template_exercises@ == old(store).template_exercises@ + fresh.take(k as int),
        decreases specs@.len() - k,
    {
        let sp = &specs[k];
        let row = TemplateExerciseRow {
            id: store.next_id,
            template_id: tid,
            exercise_id: sp.exercise_id,
            position: sp.position,
            target_sets: sp.target_sets,
            target_reps_min: sp.target_reps_min,
            target_reps_max: sp.target_reps_max,
            rest_seconds: sp.rest_seconds,
            notes: clone_opt_string(&sp.notes),
        };
        proof {
            assert(row == fresh[k as int]);
            lemma_push_row(
                store.template_exercises@,
                row,
                store.next_id as int,
                store.next_id + 1,
            );
            assert(fresh.take(k + 1) =~= fresh.take(k as int).push(row));
        }
        store.template_exercises.push(row);
        store.next_id = store.next_id + 1;
        proof {
            assert(store.template_exercises@ =~= old(store).template_exercises@ + fresh.take(
                k + 1,
            ));
        }
        k += 1;
    }
    proof {
        assert(fresh.take(specs@.len() as int) =~= fresh);
    }
}

/// Creates a template with the supplied ordered spec list, unless a
/// non-archived template already holds the name; every spec must
/// reference an existing exercise.
pub fn create(store: &mut Store, input: &CreateTemplate, now: i64) -> (r: Result<
    Template,
    AppError,
>)
    requires
        old(store).wf(),
        old(store).next_id + 1 + input.exercises@.len() <= i64::MAX,
    ensures
        final(store).wf(),
        match r {
            Ok(t) => {
                &&& !template_name_taken(old(store).templates@, input.name@)
                &&& forall|k: int|
                    0 <= k < input.exercises@.len() ==> has_key(
                        old(store).exercises@,
                        (#[trigger] input.exercises@[k]).exercise_id,
                    )
                &&& final(store).templates@ == old(store).templates@.push(
                    TemplateRow {
                        id: old(store).next_id,
                        name: input.name,
                        notes: input.notes,
                        archived: false,
                        created_at: now,
                        updated_at: now,
                    },
                )
                &&& final(store).template_exercises@ == old(store).template_exercises@
                    + fresh_te_rows(
                    input.exercises@,
                    old(store).next_id,
                    old(store).next_id + 1,
                )
                &&& final(store).next_id == old(store).next_id + 1 + input.exercises@.len()
                &&& final(store).exercises == old(store).exercises
                &&& final(store).sessions == old(store).sessions
                &&& final(store).session_exercises == old(store).session_exercises
                &&& final(store).sets == old(store).sets
                &&& final(store).auth == old(store).auth
                &&& t.id == old(store).next_id
                &&& template_view_ok(
                    *final(store),
                    row_at(final(store).templates@, old(store).next_id),
                    t,
                )
            },
            Err(e) => {
                &&& *final(store) == *old(store)
                &&& match e {
                    AppError::AlreadyExists => template_name_taken(
                        old(store).templates@,
                        input.name@,
                    ),
                    AppError::NotFound => {
                        &&& !template_name_taken(old(store).templates@, input.name@)
                        &&& exists|k: int|
                            0 <= k < input.exercises@.len() && !has_key(
                                old(store).exercises@,
                                (#[trigger] input.exercises@[k]).exercise_id,
                            )
                    },
                    _ => false,
                }
            },
        },
{
    if name_in_use(store, &input.name) {
        return Err(AppError::AlreadyExists);
    }
    if let Some(k) = first_bad_exercise_ref(store, &input.exercises) {
        proof {
            assert(!has_key(store.exercises@, input.exercises@[k as int].exercise_id));
        }
        return Err(AppError::NotFound);
    }
    let tid = store.next_id;
    let row = TemplateRow {
        id: tid,
        name: input.name.clone(),
        notes: clone_opt_string(&input.notes),
        archived: false,
        created_at: now,
        updated_at: now,
    };
    proof {
        lemma_push_row(old(store).templates@, row, old(store).next_id as int, old(store).next_id + 1);
    }
    store.templates.push(row);
    store.next_id = store.next_id + 1;
    proof {
        assert(template_names_unique(store.templates@)) by {
            let s = store.templates@;
            let m = s.len() - 1;
            assert forall|a: int, b: int|
                0 <= a < s.len() && 0 <= b < s.len() && a != b && !(#[trigger] s[a]).archived && !(
                #[trigger] s[b]).archived implies s[a].name@ != s[b].name@ by {
                if a < m && b < m {
                    assert(old(store).templates@[a].name@ != old(store).templates@[b].name@);
                }
            }
        }
    }
    append_template_exercises(store, tid, &input.exercises);
    match get(store, tid) {
        Ok(t) => Ok(t),
        Err(_) => {
            proof {
                assert(false);
            }
            Err(AppError::NotFound)
        },
    }
}

/// Applies the supplied fields to a template. A supplied spec list
/// replaces the whole stored list; name and notes update independently;
/// any change stamps `updated_at`. Renaming a non-archived template to a
/// name another non-archived template holds is refused.
pub fn update(store: &mut Store, id: i64, input: &UpdateTemplate, now: i64) -> (r: Result<
    Template,
    AppError,
>)
    requires
        old(store).wf(),
        input.exercises matches Some(specs) ==> old(store).next_id + specs@.len() <= i64::MAX,
    ensures
        final(store).wf(),
        final(store).exercises == old(store).exercises,
        final(store).sessions == old(store).sessions,
        final(store).session_exercises == old(store).session_exercises,
        final(store).sets == old(store).sets,
        final(store).auth == old(store).auth,
        match r {
            Ok(t) => {
                &&& has_key(old(store).templates@, id)
                &&& final(store).templates@ == old(store).templates@.update(
                    key_index(old(store).templates@, id),
                    apply_template_update(row_at(old(store).templates@, id), *input, now),
                )
                &&& (match input.exercises {
                    Some(specs) => {
                        &&& (forall|k: int|
                            0 <= k < specs@.len() ==> has_key(
                                old(store).exercises@,
                                (#[trigger] specs@[k]).exercise_id,
                            ))
                        &&& final(store).template_exercises@ == old(
                            store,
                        ).template_exercises@.filter(te_of_other_template(id)) + fresh_te_rows(
                            specs@,
                            id,
                            old(store).next_id as int,
                        )
                        &&& final(store).next_id == old(store).next_id + specs@.len()
                    },
                    None => {
                        &&& final(store).template_exercises@ == old(store).template_exercises@
                        &&& final(store).next_id == old(store).next_id
                    },
                })
                &&& template_view_ok(
                    *final(store),
                    apply_template_update(row_at(old(store).templates@, id), *input, now),
                    t,
                )
            },
            Err(e) => {
                &&& *final(store) == *old(store)
                &&& match e {
                    AppError::NotFound => !has_key(old(store).templates@, id) || (
                    input.exercises matches Some(specs) && exists|k: int|
                        0 <= k < specs@.len() && !has_key(
                            old(store).exercises@,
                            (#[trigger] specs@[k]).exercise_id,
                        )),
                    AppError::AlreadyExists => {
                        &&& has_key(old(store).templates@, id)
                        &&& input.name is Some
                        &&& !row_at(old(store).templates@, id).archived
                        &&& other_template_named(old(store).templates@, id, input.name->0@)
                    },
                    _ => false,
                }
            },
        },
{
    let i = match find_key(&store.templates, id) {
        Some(i) => i,
        None => {
            return Err(AppError::NotFound);
        },
    };
    proof {
        lemma_row_at(store.templates@, id, i as int);
    }
    // A renamed live template must not collide with another live name.
    let mut rename_checked = false;
    if let Some(new_name) = &input.name {
        if !store.templates[i].archived {
            if name_in_use_by_other(store, id, new_name) {
                return Err(AppError::AlreadyExists);
            }
            rename_checked = true;
        }
    }
    if let Some(specs) = &input.exercises {
        if let Some(k) = first_bad_exercise_ref(store, specs) {
            proof {
                assert(!has_key(store.exercises@, specs@[k as int].exercise_id));
            }
            return Err(AppError::NotFound);
        }
    }
    let row = &store.templates[i];
    let any_change = input.name.is_some() || input.notes.is_some() || input.exercises.is_some();
    let updated = TemplateRow {
        id: row.id,
        name: match &input.name {
            Some(n) => n.clone(),
            None => row.name.clone(),
        },
        notes: match &input.notes {
            Some(_) => clone_opt_string(&input.notes),
            None => clone_opt_string(&row.notes),
        },
        archived: row.archived,
        created_at: row.created_at,
        updated_at: if any_change {
            now
        } else {
            row.updated_at
        },
    };
    proof {
        assert(updated == apply_template_update(row_at(old(store).templates@, id), *input, now));
        lemma_update_row(old(store).templates@, i as int, updated, old(store).next_id as int);
    }
    store.templates.set(i, updated);
    proof {
        assert(template_names_unique(store.templates@)) by {
            let s = store.templates@;
            let olds = old(store).templates@;
            assert forall|a: int, b: int|
                0 <= a < s.len() && 0 <= b < s.len() && a != b && !(#[trigger] s[a]).archived && !(
                #[trigger] s[b]).archived implies s[a].name@ != s[b].name@ by {
                if a != i && b != i {
                    assert(olds[a].name@ != olds[b].name@);
                } else {
                    let c = if a == i { b } else { a };
                    assert(s[c] == olds[c]);
                    assert(olds[c].key() != olds[i as int].key());
                    assert(olds[c].id != id);
                    if input.name is Some {
                        assert(rename_checked);
                        assert(!other_template_named(olds, id, input.name->0@));
                        assert(!(olds[c].id != id && !olds[c].archived && olds[c].name@
                            == input.name->0@));
                    } else {
                        assert(olds[i as int].name@ != olds[c].name@);
                    }
                }
            }
        }
    }
    if let Some(specs) = &input.exercises {
        // Full-replace semantics: drop the stored list, insert the new one.
        let ghost before = store.template_exercises@;
        let mut kept: Vec<TemplateExerciseRow> = Vec::new();
        let n = store.template_exercises.len();
        let mut j: usize = 0;
        proof {
            assert(before.take(0).filter(te_of_other_template(id)) =~= kept@);
        }
        while j < n
            invariant
                j <= n,
                n == store.template_exercises@.len(),
                store.template_exercises@ == before,
                kept@ == before.take(j as int).filter(te_of_other_template(id)),
            decreases n - j,
        {
            let te = &store.template_exercises[j];
            proof {
                assert(before.take(j + 1) =~= before.take(j as int).push(before[j as int]));
                before.take(j as int).lemma_filter_push(before[j as int], te_of_other_template(id));
            }
            if te.template_id != id {
                kept.push(te.clone());
            }
            j += 1;
        }
        proof {
            assert(before.take(n as int) =~= before);
            lemma_filter_rows(before, te_of_other_template(id), store.next_id as int);
        }
        store.template_exercises = kept;
        proof {
            let olds = old(store).templates@;
            assert(store.templates@ == olds.update(i as int, updated));
            let te2 = store.template_exercises@;
            assert(te2 == before.filter(te_of_other_template(id)));
            lemma_rows_from_filter(before, te_of_other_template(id), te2, store.next_id as int);
            assert forall|x: int| 0 <= x < te2.len() implies has_key(
                store.templates@,
                (#[trigger] te2[x]).template_id,
            ) && has_key(store.exercises@, te2[x].exercise_id) by {
                let te = te2[x];
                assert(row_at(before, te.key()) == te && has_key(before, te.key()));
                let idx = key_index(before, te.key());
                assert(before[idx] == te);
                assert(has_key(olds, te.template_id));
                assert(has_key(olds.update(i as int, updated), te.template_id));
                assert(has_key(store.exercises@, te.exercise_id));
            }
            assert forall|x: int| 0 <= x < store.sessions@.len() implies ((
            #[trigger] store.sessions@[x]).template_id matches Some(t) ==> has_key(
                store.templates@,
                t,
            )) by {
                if store.sessions@[x].template_id is Some {
                    let t = store.sessions@[x].template_id->0;
                    assert(has_key(olds, t));
                    assert(has_key(olds.update(i as int, updated), t));
                }
            }
            assert(store.wf());
        }
        append_template_exercises(store, id, specs);
    }
    match get(store, id) {
        Ok(t) => Ok(t),
        Err(_) => {
            proof {
                assert(false);
            }
            Err(AppError::NotFound)
        },
    }
}

/// Soft-deletes a template: it disappears from listings but keeps its id
/// for the sessions that were created from it. An id that is absent or
/// already gone from the library (already archived) is not found.
pub fn archive(store: &mut Store, id: i64) -> (r: Result<(), AppError>)
    requires
        old(store).wf(),
    ensures
        final(store).wf(),
        final(store).next_id == old(store).next_id,
        final(store).exercises == old(store).exercises,
        final(store).template_exercises == old(store).template_exercises,
        final(store).sessions == old(store).sessions,
        final(store).session_exercises == old(store).session_exercises,
        final(store).sets == old(store).sets,
        final(store).auth == old(store).auth,
        match r {
            Ok(_) => {
                &&& has_key(old(store).templates@, id)
                &&& !row_at(old(store).templates@, id).archived
                &&& final(store).templates@ == old(store).templates@.update(
                    key_index(old(store).templates@, id),
                    TemplateRow { archived: true, ..row_at(old(store).templates@, id) },
                )
            },
            Err(e) => e is NotFound && (!has_key(old(store).templates@, id) || row_at(
                old(store).templates@,
                id,
            ).archived) && *final(store) == *old(store),
        },
{
    let i = match find_key(&store.templates, id) {
        Some(i) => i,
        None => {
            return Err(AppError::NotFound);
        },
    };
    proof {
        lemma_row_at(store.templates@, id, i as int);
    }
    let row = &store.templates[i];
    if row.archived {
        return Err(AppError::NotFound);
    }
    let row = &store.templates[i];
    let updated = TemplateRow {
        id: row.id,
        name: row.name.clone(),
        notes: clone_opt_string(&row.notes),
        archived: true,
        created_at: row.created_at,
        updated_at: row.updated_at,
    };
    proof {
        lemma_update_row(old(store).templates@, i as int, updated, old(store).next_id as int);
    }
    store.templates.set(i, updated);
    proof {
        assert(template_names_unique(store.templates@)) by {
            let s = store.templates@;
            let olds = old(store).templates@;
            assert forall|a: int, b: int|
                0 <= a < s.len() && 0 <= b < s.len() && a != b && !(#[trigger] s[a]).archived && !(
                #[trigger] s[b]).archived implies s[a].name@ != s[b].name@ by {
                assert(olds[a].name@ != olds[b].name@);
            }
        }
    }
    Ok(())
}

} // verus!
