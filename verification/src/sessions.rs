use vstd::prelude::*;
use crate::error::AppError;
use crate::models::{
    clone_opt_string, AddSessionExercise, CreateSession, CreateSet, Session,
    SessionExerciseWithSets, SessionListParams, SessionStatus, SessionSummary, UpdateSession,
    UpdateSessionExercise, UpdateSet, WorkoutSet,
};
use crate::order::{sort_rows, sorted};
use crate::store::{
    exercise_name, find_key, has_key, key_index, lemma_filter_rows, lemma_push_row, lemma_row_at,
    lemma_rows_from_filter, lemma_update_row, row_at, Keyed, SessionExerciseRow, SessionRow, Store,
    TemplateExerciseRow,
};

verus! {

// ── Status parsing ──

/// The four status words the engine accepts.
pub open spec fn spec_parse_status(s: Seq<char>) -> Option<SessionStatus> {
    if s == "active"@ {
        Some(SessionStatus::Active)
    } else if s == "paused"@ {
        Some(SessionStatus::Paused)
    } else if s == "completed"@ {
        Some(SessionStatus::Completed)
    } else if s == "abandoned"@ {
        Some(SessionStatus::Abandoned)
    } else {
        None
    }
}

/// Parses a status word; anything but the four valid words is rejected.
pub fn parse_status(s: &String) -> (r: Option<SessionStatus>)
    ensures
        r == spec_parse_status(s@),
{
    let active = "active".to_owned();
    let paused = "paused".to_owned();
    let completed = "completed".to_owned();
    let abandoned = "abandoned".to_owned();
    if *s == active {
        Some(SessionStatus::Active)
    } else if *s == paused {
        Some(SessionStatus::Paused)
    } else if *s == completed {
        Some(SessionStatus::Completed)
    } else if *s == abandoned {
        Some(SessionStatus::Abandoned)
    } else {
        None
    }
}

// ── Spec views ──

/// A session that counts as running: active or paused.
pub open spec fn is_live_session(s: SessionRow) -> bool {
    s.status == SessionStatus::Active || s.status == SessionStatus::Paused
}

/// The exercises performed within one session.
pub open spec fn se_of_session(sid: i64) -> spec_fn(SessionExerciseRow) -> bool {
    |se: SessionExerciseRow| se.session_id == sid
}

/// The sets logged under one session exercise.
pub open spec fn set_of_se(seid: i64) -> spec_fn(WorkoutSet) -> bool {
    |st: WorkoutSet| st.session_exercise_id == seid
}

/// `vs` is the ordered set list of one session exercise.
pub open spec fn sets_view_ok(store: Store, seid: i64, vs: Seq<WorkoutSet>) -> bool {
    &&& sorted(vs)
    &&& vs.to_multiset() == store.sets@.filter(set_of_se(seid)).to_multiset()
}

/// The display form of one stored session exercise with its sets.
pub open spec fn se_view_ok(store: Store, row: SessionExerciseRow, v: SessionExerciseWithSets) -> bool {
    &&& v.id == row.id
    &&& v.exercise_id == row.exercise_id
    &&& v.exercise_name == row_at(store.exercises@, row.exercise_id).name
    &&& v.position == row.position
    &&& v.notes == row.notes
    &&& sets_view_ok(store, row.id, v.sets@)
}

/// `vs` displays `rows`, an ordered permutation of the session's exercises.
pub open spec fn se_rows_match(
    store: Store,
    sid: i64,
    rows: Seq<SessionExerciseRow>,
    vs: Seq<SessionExerciseWithSets>,
) -> bool {
    &&& sorted(rows)
    &&& rows.to_multiset() == store.session_exercises@.filter(se_of_session(sid)).to_multiset()
    &&& vs.len() == rows.len()
    &&& forall|i: int| 0 <= i < rows.len() ==> se_view_ok(store, rows[i], #[trigger] vs[i])
}

/// `vs` is the session's exercise list, ordered by position, each with its
/// ordered sets.
pub open spec fn session_exercises_view_ok(
    store: Store,
    sid: i64,
    vs: Seq<SessionExerciseWithSets>,
) -> bool {
    exists|rows: Seq<SessionExerciseRow>| se_rows_match(store, sid, rows, vs)
}

/// The joined template name of a session, if it was created from one.
pub open spec fn template_name_matches(store: Store, tid: Option<i64>, v: Option<String>) -> bool {
    match tid {
        Some(t) => v == Some(row_at(store.templates@, t).name),
        None => v is None,
    }
}

/// `v` displays the session row `row` with its nested exercises and sets.
pub open spec fn session_view_ok(store: Store, row: SessionRow, v: Session) -> bool {
    &&& v.id == row.id
    &&& v.template_id == row.template_id
    &&& template_name_matches(store, row.template_id, v.template_name)
    &&& v.name == row.name
    &&& v.started_at == row.started_at
    &&& v.ended_at == row.ended_at
    &&& v.paused_duration == row.paused_duration
    &&& v.notes == row.notes
    &&& v.status == row.status
    &&& session_exercises_view_ok(store, row.id, v.exercises@)
}

/// `v` summarizes the session row `row` (no nested exercises).
pub open spec fn summary_view_ok(store: Store, row: SessionRow, v: SessionSummary) -> bool {
    &&& v.id == row.id
    &&& v.template_id == row.template_id
    &&& template_name_matches(store, row.template_id, v.template_name)
    &&& v.name == row.name
    &&& v.started_at == row.started_at
    &&& v.ended_at == row.ended_at
    &&& v.status == row.status
}

/// The sessions a listing filter keeps: all, or those of one template.
pub open spec fn session_in_scope(tid: Option<i64>) -> spec_fn(SessionRow) -> bool {
    |s: SessionRow|
        match tid {
            Some(t) => s.template_id == Some(t),
            None => true,
        }
}

/// The first row index of a page: the offset clamped to `0 ..= total`.
pub open spec fn slice_start(offset: Option<i64>, total: int) -> int {
    let o = if offset is Some { offset->0 as int } else { 0 };
    if o <= 0 {
        0
    } else if o >= total {
        total
    } else {
        o
    }
}

/// One past the last row index of a page; a negative limit means no limit.
pub open spec fn slice_end(limit: Option<i64>, start: int, total: int) -> int {
    let l = if limit is Some { limit->0 as int } else { 20 };
    if l < 0 {
        total
    } else if start + l >= total {
        total
    } else {
        start + l
    }
}

/// `vs` is the page that offset and limit cut out of `rows`, the ordered
/// permutation of the sessions in scope.
pub open spec fn summary_rows_match(
    store: Store,
    params: SessionListParams,
    rows: Seq<SessionRow>,
    vs: Seq<SessionSummary>,
) -> bool {
    let total = rows.len() as int;
    let start = slice_start(params.offset, total);
    let end = slice_end(params.limit, start, total);
    &&& sorted(rows)
    &&& rows.to_multiset() == store.sessions@.filter(
        session_in_scope(params.template_id),
    ).to_multiset()
    &&& vs.len() == end - start
    &&& forall|i: int|
        0 <= i < vs.len() ==> summary_view_ok(store, rows[start + i], #[trigger] vs[i])
}

/// `vs` is one page of the session listing: most recently started first,
/// optionally restricted to one template, then sliced by offset and limit.
pub open spec fn sessions_listing_ok(
    store: Store,
    params: SessionListParams,
    vs: Seq<SessionSummary>,
) -> bool {
    exists|rows: Seq<SessionRow>| summary_rows_match(store, params, rows, vs)
}

// ── Exec view helpers ──

/// The joined template name for a session row.
fn template_name_opt(store: &Store, tid: &Option<i64>) -> (r: Option<String>)
    requires
        store.wf(),
        tid matches Some(t) ==> has_key(store.templates@, *t),
    ensures
        template_name_matches(*store, *tid, r),
{
    match tid {
        Some(t) => {
            match find_key(&store.templates, *t) {
                Some(i) => {
                    proof {
                        lemma_row_at(store.templates@, *t, i as int);
                    }
                    Some(store.templates[i].name.clone())
                },
                None => {
                    proof {
                        assert(false);
                    }
                    None
                },
            }
        },
        None => None,
    }
}

/// The ordered sets of one session exercise.
fn get_sets_for_se(store: &Store, seid: i64) -> (r: Vec<WorkoutSet>)
    requires
        store.wf(),
    ensures
        sets_view_ok(*store, seid, r@),
{
    let mut rows: Vec<WorkoutSet> = Vec::new();
    let n = store.sets.len();
    let mut i: usize = 0;
    proof {
        assert(store.sets@.take(0).filter(set_of_se(seid)) =~= rows@);
    }
    while i < n
        invariant
            i <= n,
            n == store.sets@.len(),
            rows@ == store.sets@.take(i as int).filter(set_of_se(seid)),
        decreases n - i,
    {
        let st = &store.sets[i];
        proof {
            assert(store.sets@.take(i + 1) =~= store.sets@.take(i as int).push(
                store.sets@[i as int],
            ));
            store.sets@.take(i as int).lemma_filter_push(store.sets@[i as int], set_of_se(seid));
        }
        if st.session_exercise_id == seid {
            rows.push(st.clone());
        }
        i += 1;
    }
    proof {
        assert(store.sets@.take(n as int) =~= store.sets@);
    }
    sort_rows(rows)
}

/// The session's exercises ordered by position, each with its ordered
/// sets and the exercise name joined in.
fn get_session_exercises(store: &Store, sid: i64) -> (r: Vec<SessionExerciseWithSets>)
    requires
        store.wf(),
    ensures
        session_exercises_view_ok(*store, sid, r@),
{
    let mut rows: Vec<SessionExerciseRow> = Vec::new();
    let n = store.session_exercises.len();
    let mut i: usize = 0;
    proof {
        assert(store.session_exercises@.take(0).filter(se_of_session(sid)) =~= rows@);
    }
    while i < n
        invariant
            i <= n,
            n == store.session_exercises@.len(),
            rows@ == store.session_exercises@.take(i as int).filter(se_of_session(sid)),
        decreases n - i,
    {
        let se = &store.session_exercises[i];
        proof {
            assert(store.session_exercises@.take(i + 1) =~= store.session_exercises@.take(
                i as int,
            ).push(store.session_exercises@[i as int]));
            store.session_exercises@.take(i as int).lemma_filter_push(
                store.session_exercises@[i as int],
                se_of_session(sid),
            );
        }
        if se.session_id == sid {
            rows.push(se.clone());
        }
        i += 1;
    }
    proof {
        assert(store.session_exercises@.take(n as int) =~= store.session_exercises@);
    }
    let rows = sort_rows(rows);
    proof {
        lemma_rows_from_filter(
            store.session_exercises@,
            se_of_session(sid),
            rows@,
            store.next_id as int,
        );
    }
    let mut out: Vec<SessionExerciseWithSets> = Vec::new();
    let mut j: usize = 0;
    while j < rows.len()
        invariant
            store.wf(),
            j <= rows@.len(),
            out@.len() == j,
            forall|k: int|
                0 <= k < rows@.len() ==> has_key(
                    store.exercises@,
                    (#[trigger] rows@[k]).exercise_id,
                ),
            forall|k: int| 0 <= k < j ==> se_view_ok(*store, rows@[k], #[trigger] out@[k]),
        decreases rows@.len() - j,
    {
        let se = &rows[j];
        out.push(
            SessionExerciseWithSets {
                id: se.id,
                exercise_id: se.exercise_id,
                exercise_name: exercise_name(store, se.exercise_id),
                position: se.position,
                notes: clone_opt_string(&se.notes),
                sets: get_sets_for_se(store, se.id),
            },
        );
        j += 1;
    }
    proof {
        assert(se_rows_match(*store, sid, rows@, out@));
    }
    out
}

/// Builds the full view of an existing session row.
fn build_session(store: &Store, i: usize) -> (r: Session)
    requires
        store.wf(),
        i < store.sessions@.len(),
    ensures
        session_view_ok(*store, store.sessions@[i as int], r),
{
    let row = &store.sessions[i];
    Session {
        id: row.id,
        template_id: row.template_id,
        template_name: template_name_opt(store, &row.template_id),
        name: clone_opt_string(&row.name),
        started_at: row.started_at,
        ended_at: row.ended_at,
        paused_duration: row.paused_duration,
        notes: clone_opt_string(&row.notes),
        status: row.status,
        exercises: get_session_exercises(store, row.id),
    }
}

// ── Queries ──

/// One page of session summaries: most recently started first, optionally
/// those of one template, sliced by offset and limit.
pub fn list(store: &Store, params: &SessionListParams) -> (r: Result<Vec<SessionSummary>, AppError>)
    requires
        store.wf(),
    ensures
        r matches Ok(v) && sessions_listing_ok(*store, *params, v@),
{
    let mut rows: Vec<SessionRow> = Vec::new();
    let n = store.sessions.len();
    let mut i: usize = 0;
    proof {
        assert(store.sessions@.take(0).filter(session_in_scope(params.template_id)) =~= rows@);
    }
    while i < n
        invariant
            i <= n,
            n == store.sessions@.len(),
            rows@ == store.sessions@.take(i as int).filter(session_in_scope(params.template_id)),
        decreases n - i,
    {
        let s = &store.sessions[i];
        proof {
            assert(store.sessions@.take(i + 1) =~= store.sessions@.take(i as int).push(
                store.sessions@[i as int],
            ));
            store.sessions@.take(i as int).lemma_filter_push(
                store.sessions@[i as int],
                session_in_scope(params.template_id),
            );
        }
        let keep = match &params.template_id {
            Some(t) => {
                match &s.template_id {
                    Some(own) => *own == *t,
                    None => false,
                }
            },
            None => true,
        };
        if keep {
            rows.push(s.clone());
        }
        i += 1;
    }
    proof {
        assert(store.sessions@.take(n as int) =~= store.sessions@);
    }
    let rows = sort_rows(rows);
    proof {
        lemma_rows_from_filter(
            store.sessions@,
            session_in_scope(params.template_id),
            rows@,
            store.next_id as int,
        );
    }
    let total = rows.len();
    let offset = match &params.offset {
        Some(o) => *o,
        None => 0,
    };
    let limit = match &params.limit {
        Some(l) => *l,
        None => 20,
    };
    let start: usize = if offset <= 0 {
        0
    } else if offset as u64 >= total as u64 {
        total
    } else {
        offset as usize
    };
    let end: usize = if limit < 0 {
        total
    } else if limit as u64 >= (total - start) as u64 {
        total
    } else {
        start + (limit as usize)
    };
    proof {
        assert(start as int == slice_start(params.offset, total as int));
        assert(end as int == slice_end(params.limit, start as int, total as int));
    }
    let mut out: Vec<SessionSummary> = Vec::new();
    let mut j: usize = start;
    while j < end
        invariant
            store.wf(),
            start <= j <= end <= rows@.len(),
            out@.len() == j - start,
            forall|k: int|
                0 <= k < rows@.len() ==> {
                    let x = #[trigger] rows@[k];
                    x.template_id matches Some(t) ==> has_key(store.templates@, t)
                },
            forall|k: int|
                0 <= k < out@.len() ==> summary_view_ok(
                    *store,
                    rows@[start + k],
                    #[trigger] out@[k],
                ),
        decreases end - j,
    {
        let s = &rows[j];
        out.push(
            SessionSummary {
                id: s.id,
                template_id: s.template_id,
                template_name: template_name_opt(store, &s.template_id),
                name: clone_opt_string(&s.name),
                started_at: s.started_at,
                ended_at: s.ended_at,
                status: s.status,
            },
        );
        j += 1;
    }
    proof {
        let total_i = rows@.len() as int;
        let start_i = slice_start(params.offset, total_i);
        let end_i = slice_end(params.limit, start_i, total_i);
        assert(out@.len() == end_i - start_i);
        assert(summary_rows_match(*store, *params, rows@, out@));
        assert(sessions_listing_ok(*store, *params, out@));
    }
    Ok(out)
}

/// The full session with the given id.
pub fn get(store: &Store, id: i64) -> (r: Result<Session, AppError>)
    requires
        store.wf(),
    ensures
        match r {
            Ok(s) => has_key(store.sessions@, id) && session_view_ok(
                *store,
                row_at(store.sessions@, id),
                s,
            ),
            Err(e) => e is NotFound && !has_key(store.sessions@, id),
        },
{
    let i = match find_key(&store.sessions, id) {
        Some(i) => i,
        None => {
            return Err(AppError::NotFound);
        },
    };
    proof {
        lemma_row_at(store.sessions@, id, i as int);
    }
    Ok(build_session(store, i))
}

/// The running session, if any: the most recently started among the
/// active and paused ones (latest start wins, newest id on a tie).
pub fn get_active(store: &Store) -> (r: Result<Option<Session>, AppError>)
    requires
        store.wf(),
    ensures
        match r {
            Ok(opt) => match opt {
                Some(s) => {
                    &&& has_key(store.sessions@, s.id)
                    &&& is_live_session(row_at(store.sessions@, s.id))
                    &&& session_view_ok(*store, row_at(store.sessions@, s.id), s)
                    &&& forall|j: int|
                        0 <= j < store.sessions@.len() && is_live_session(
                            #[trigger] store.sessions@[j],
                        ) ==> (store.sessions@[j].started_at < row_at(
                            store.sessions@,
                            s.id,
                        ).started_at || (store.sessions@[j].started_at == row_at(
                            store.sessions@,
                            s.id,
                        ).started_at && store.sessions@[j].id <= row_at(
                            store.sessions@,
                            s.id,
                        ).id))
                },
                None => forall|j: int|
                    0 <= j < store.sessions@.len() ==> !is_live_session(
                        #[trigger] store.sessions@[j],
                    ),
            },
            Err(_) => false,
        },
{
    let n = store.sessions.len();
    let mut best: Option<usize> = None;
    let mut i: usize = 0;
    while i < n
        invariant
            i <= n,
            n == store.sessions@.len(),
            match best {
                Some(b) => {
                    &&& b < i
                    &&& is_live_session(store.sessions@[b as int])
                    &&& forall|j: int|
                        0 <= j < i && is_live_session(#[trigger] store.sessions@[j]) ==> (
                        store.sessions@[j].started_at < store.sessions@[b as int].started_at || (
                        store.sessions@[j].started_at == store.sessions@[b as int].started_at
                            && store.sessions@[j].id <= store.sessions@[b as int].id))
                },
                None => forall|j: int|
                    0 <= j < i ==> !is_live_session(#[trigger] store.sessions@[j]),
            },
        decreases n - i,
    {
        let s = &store.sessions[i];
        let live = match s.status {
            SessionStatus::Active => true,
            SessionStatus::Paused => true,
            _ => false,
        };
        if live {
            let replace = match best {
                Some(b) => {
                    let cur = &store.sessions[b];
                    s.started_at > cur.started_at || (s.started_at == cur.started_at && s.id
                        > cur.id)
                },
                None => true,
            };
            if replace {
                best = Some(i);
            }
        }
        i += 1;
    }
    match best {
        Some(b) => {
            proof {
                lemma_row_at(store.sessions@, store.sessions@[b as int].id, b as int);
            }
            Ok(Some(build_session(store, b)))
        },
        None => Ok(None),
    }
}

// ── Creation ──

/// The stored form of a new session: supplied fields, defaulting the
/// start to now, an empty pause budget, and the given status.
pub open spec fn new_session_row(u: CreateSession, id: i64, now: i64, st: SessionStatus) -> SessionRow {
    SessionRow {
        id: id,
        template_id: u.template_id,
        name: u.name,
        started_at: if u.started_at is Some { u.started_at->0 } else { now },
        ended_at: u.ended_at,
        paused_duration: 0,
        notes: u.notes,
        status: st,
    }
}

/// The status a creation request asks for, when valid.
pub open spec fn requested_status(u: CreateSession) -> Option<SessionStatus> {
    if u.status is Some {
        spec_parse_status(u.status->0@)
    } else {
        Some(SessionStatus::Active)
    }
}

/// The session-exercise rows a template copy inserts: exercise, position
/// and notes are taken over; target fields stay on the template.
pub open spec fn copied_se_rows(tes: Seq<TemplateExerciseRow>, sid: i64, base: int) -> Seq<
    SessionExerciseRow,
> {
    Seq::new(
        tes.len(),
        |k: int|
            SessionExerciseRow {
                id: (base + k) as i64,
                session_id: sid,
                exercise_id: tes[k].exercise_id,
                position: tes[k].position,
                notes: tes[k].notes,
            },
    )
}

/// `new_ses` extends the old table by a copy of the template's specs,
/// taken in display order (ascending position).
pub open spec fn copy_rows_match(
    old_store: Store,
    tid: i64,
    sid: i64,
    base: int,
    tes: Seq<TemplateExerciseRow>,
    new_ses: Seq<SessionExerciseRow>,
) -> bool {
    &&& sorted(tes)
    &&& tes.to_multiset() == old_store.template_exercises@.filter(
        crate::templates::te_of_template(tid),
    ).to_multiset()
    &&& new_ses == old_store.session_exercises@ + copied_se_rows(tes, sid, base)
}

/// `new_ses` is the old table after the template copy of a new session,
/// for some display order of the template's specs.
pub open spec fn session_copy_ok(
    old_store: Store,
    tid: i64,
    sid: i64,
    base: int,
    count: int,
    new_ses: Seq<SessionExerciseRow>,
) -> bool {
    exists|tes: Seq<TemplateExerciseRow>|
        copy_rows_match(old_store, tid, sid, base, tes, new_ses) && tes.len() == count
}

/// Starts a session. A supplied template is copied into the session's
/// exercise list once, here: exercise, position and notes carry over,
/// target fields do not. The start time defaults to now; an invalid
/// status word is rejected; a template id that does not exist is not
/// found.
pub fn create(store: &mut Store, input: &CreateSession, now: i64) -> (r: Result<Session, AppError>)
    requires
        old(store).wf(),
        old(store).next_id + 1 + (if input.template_id is Some {
            old(store).template_exercises@.len() as int
        } else {
            0
        }) <= i64::MAX,
    ensures
        final(store).wf(),
        final(store).exercises == old(store).exercises,
        final(store).templates == old(store).templates,
        final(store).template_exercises == old(store).template_exercises,
        final(store).sets == old(store).sets,
        final(store).auth == old(store).auth,
        match r {
            Ok(s) => {
                &&& requested_status(*input) is Some
                &&& (input.template_id matches Some(t) ==> has_key(old(store).templates@, t))
                &&& final(store).sessions@ == old(store).sessions@.push(
                    new_session_row(*input, old(store).next_id, now, requested_status(*input)->0),
                )
                &&& (match input.template_id {
                    Some(tid) => session_copy_ok(
                        *old(store),
                        tid,
                        old(store).next_id,
                        old(store).next_id + 1,
                        final(store).next_id - old(store).next_id - 1,
                        final(store).session_exercises@,
                    ),
                    None => final(store).session_exercises@ == old(store).session_exercises@
                        && final(store).next_id == old(store).next_id + 1,
                })
                &&& s.id == old(store).next_id
                &&& session_view_ok(
                    *final(store),
                    new_session_row(*input, old(store).next_id, now, requested_status(*input)->0),
                    s,
                )
            },
            Err(e) => {
                &&& *final(store) == *old(store)
                &&& match e {
                    AppError::BadRequest(_) => requested_status(*input) is None,
                    AppError::NotFound => requested_status(*input) is Some && (
                    input.template_id matches Some(t) && !has_key(old(store).templates@, t)),
                    _ => false,
                }
            },
        },
{
    let st = match &input.status {
        Some(txt) => {
            match parse_status(txt) {
                Some(st) => st,
                None => {
                    return Err(AppError::BadRequest("invalid status".to_owned()));
                },
            }
        },
        None => SessionStatus::Active,
    };
    if let Some(t) = &input.template_id {
        if find_key(&store.templates, *t).is_none() {
            return Err(AppError::NotFound);
        }
    }
    let sid = store.next_id;
    let row = SessionRow {
        id: sid,
        template_id: input.template_id,
        name: clone_opt_string(&input.name),
        started_at: match input.started_at {
            Some(t) => t,
            None => now,
        },
        ended_at: input.ended_at,
        paused_duration: 0,
        notes: clone_opt_string(&input.notes),
        status: st,
    };
    proof {
        assert(row == new_session_row(*input, old(store).next_id, now, st));
        lemma_push_row(old(store).sessions@, row, old(store).next_id as int, old(store).next_id + 1);
    }
    store.sessions.push(row);
    store.next_id = store.next_id + 1;
    let mut copied_count: usize = 0;
    if let Some(tid) = &input.template_id {
        let tid = *tid;
        // Gather and order the template's specs, then copy them in.
        let mut trows: Vec<TemplateExerciseRow> = Vec::new();
        let n = store.template_exercises.len();
        let mut i: usize = 0;
        proof {
            assert(store.template_exercises@.take(0).filter(crate::templates::te_of_template(tid))
                =~= trows@);
        }
        while i < n
            invariant
                i <= n,
                n == store.template_exercises@.len(),
                trows@ == store.template_exercises@.take(i as int).filter(
                    crate::templates::te_of_template(tid),
                ),
            decreases n - i,
        {
            let te = &store.template_exercises[i];
            proof {
                assert(store.template_exercises@.take(i + 1) =~= store.template_exercises@.take(
                    i as int,
                ).push(store.template_exercises@[i as int]));
                store.template_exercises@.take(i as int).lemma_filter_push(
                    store.template_exercises@[i as int],
                    crate::templates::te_of_template(tid),
                );
            }
            if te.template_id == tid {
                trows.push(te.clone());
            }
            i += 1;
        }
        proof {
            assert(store.template_exercises@.take(n as int) =~= store.template_exercises@);
        }
        let tes = sort_rows(trows);
        proof {
            lemma_rows_from_filter(
                store.template_exercises@,
                crate::templates::te_of_template(tid),
                tes@,
                store.next_id as int,
            );
            store.template_exercises@.lemma_filter_len(crate::templates::te_of_template(tid));
            tes@.to_multiset_ensures();
            store.template_exercises@.filter(
                crate::templates::te_of_template(tid),
            ).to_multiset_ensures();
            assert(tes@.len() == store.template_exercises@.filter(
                crate::templates::te_of_template(tid),
            ).len());
        }
        let ghost base = store.next_id as int;
        let ghost fresh = copied_se_rows(tes@, sid, base);
        let ghost ses_before = store.session_exercises@;
        let mut k: usize = 0;
        proof {
            assert(store.session_exercises@ =~= ses_before + fresh.take(0));
        }
        while k < tes.len()
            invariant
                k <= tes@.len(),
                store.wf(),
                store.exercises == old(store).exercises,
                store.templates == old(store).templates,
                store.template_exercises == old(store).template_exercises,
                store.sets == old(store).sets,
                store.auth == old(store).auth,
                store.sessions@ == old(store).sessions@.push(
                    new_session_row(*input, old(store).next_id, now, st),
                ),
                sid == old(store).next_id,
                has_key(store.sessions@, sid),
                store.next_id == base + k,
                base == old(store).next_id + 1,
                base + tes@.len() <= i64::MAX,
                forall|j: int|
                    0 <= j < tes@.len() ==> has_key(
                        store.exercises@,
                        (#[trigger] tes@[j]).exercise_id,
                    ),
                fresh == copied_se_rows(tes@, sid, base),
                ses_before == old(store).session_exercises@,
                store.session_exercises@ == ses_before + fresh.take(k as int),
            decreases tes@.len() - k,
        {
            let te = &tes[k];
            let se = SessionExerciseRow {
                id: store.next_id,
                session_id: sid,
                exercise_id: te.exercise_id,
                position: te.position,
                notes: clone_opt_string(&te.notes),
            };
            proof {
                assert(se == fresh[k as int]);
                lemma_push_row(
                    store.session_exercises@,
                    se,
                    store.next_id as int,
                    store.next_id + 1,
                );
                assert(fresh.take(k + 1) =~= fresh.take(k as int).push(se));
            }
            store.session_exercises.push(se);
            store.next_id = store.next_id + 1;
            proof {
                assert(store.session_exercises@ =~= ses_before + fresh.take(k + 1));
            }
            k += 1;
        }
        copied_count = tes.len();
        proof {
            assert(fresh.take(tes@.len() as int) =~= fresh);
            assert(copy_rows_match(
                *old(store),
                tid,
                sid,
                base,
                tes@,
                store.session_exercises@,
            ));
            assert(session_copy_ok(
                *old(store),
                tid,
                sid,
                base,
                tes@.len() as int,
                store.session_exercises@,
            ));
        }
    }
    let i = match find_key(&store.sessions, sid) {
        Some(i) => i,
        None => {
            proof {
                assert(false);
            }
            return Err(AppError::NotFound);
        },
    };
    proof {
        lemma_row_at(store.sessions@, sid, i as int);
    }
    Ok(build_session(store, i))
}

// ── Update and delete ──

/// The session row after an update: supplied fields replace old ones, and
/// a transition into a terminal status stamps the end time with now,
/// overriding any end time supplied in the same call.
pub open spec fn apply_session_update(row: SessionRow, u: UpdateSession, now: i64) -> SessionRow {
    let st = if u.status is Some { spec_parse_status(u.status->0@)->0 } else { row.status };
    SessionRow {
        id: row.id,
        template_id: row.template_id,
        name: row.name,
        started_at: if u.started_at is Some { u.started_at->0 } else { row.started_at },
        ended_at: if u.status is Some && (st == SessionStatus::Completed || st
            == SessionStatus::Abandoned) {
            Some(now)
        } else if u.ended_at is Some {
            u.ended_at
        } else {
            row.ended_at
        },
        paused_duration: if u.paused_duration is Some { u.paused_duration->0 } else {
            row.paused_duration
        },
        notes: if u.notes is Some { u.notes } else { row.notes },
        status: st,
    }
}

/// Applies the supplied fields to a session. A status word must be one of
/// the four valid ones; completing or abandoning stamps the end time with
/// now even if the call also supplies an end time.
pub fn update(store: &mut Store, id: i64, input: &UpdateSession, now: i64) -> (r: Result<
    Session,
    AppError,
>)
    requires
        old(store).wf(),
    ensures
        final(store).wf(),
        final(store).next_id == old(store).next_id,
        final(store).exercises == old(store).exercises,
        final(store).templates == old(store).templates,
        final(store).template_exercises == old(store).template_exercises,
        final(store).session_exercises == old(store).session_exercises,
        final(store).sets == old(store).sets,
        final(store).auth == old(store).auth,
        match r {
            Ok(s) => {
                &&& (input.status matches Some(t) ==> spec_parse_status(t@) is Some)
                &&& has_key(old(store).sessions@, id)
                &&& final(store).sessions@ == old(store).sessions@.update(
                    key_index(old(store).sessions@, id),
                    apply_session_update(row_at(old(store).sessions@, id), *input, now),
                )
                &&& session_view_ok(
                    *final(store),
                    apply_session_update(row_at(old(store).sessions@, id), *input, now),
                    s,
                )
                &&& (input.status matches Some(t) && (spec_parse_status(t@) == Some(
                    SessionStatus::Completed,
                ) || spec_parse_status(t@) == Some(SessionStatus::Abandoned))
                    ==> apply_session_update(row_at(old(store).sessions@, id), *input, now).ended_at
                    == Some(now))
            },
            Err(e) => {
                &&& *final(store) == *old(store)
                &&& match e {
                    AppError::BadRequest(_) => input.status matches Some(t) && spec_parse_status(
                        t@,
                    ) is None,
                    AppError::NotFound => (input.status matches Some(t) ==> spec_parse_status(
                        t@,
                    ) is Some) && !has_key(old(store).sessions@, id),
                    _ => false,
                }
            },
        },
{
    let st_opt = match &input.status {
        Some(txt) => {
            match parse_status(txt) {
                Some(st) => Some(st),
                None => {
                    return Err(AppError::BadRequest("invalid status".to_owned()));
                },
            }
        },
        None => None,
    };
    let i = match find_key(&store.sessions, id) {
        Some(i) => i,
        None => {
            return Err(AppError::NotFound);
        },
    };
    proof {
        lemma_row_at(store.sessions@, id, i as int);
    }
    let row = &store.sessions[i];
    let new_status = match st_opt {
        Some(st) => st,
        None => row.status,
    };
    let terminal = match new_status {
        SessionStatus::Completed => true,
        SessionStatus::Abandoned => true,
        _ => false,
    };
    let updated = SessionRow {
        id: row.id,
        template_id: row.template_id,
        name: clone_opt_string(&row.name),
        started_at: match input.started_at {
            Some(t) => t,
            None => row.started_at,
        },
        ended_at: if st_opt.is_some() && terminal {
            Some(now)
        } else {
            match input.ended_at {
                Some(t) => Some(t),
                None => row.ended_at,
            }
        },
        paused_duration: match input.paused_duration {
            Some(p) => p,
            None => row.paused_duration,
        },
        notes: match &input.notes {
            Some(_) => clone_opt_string(&input.notes),
            None => clone_opt_string(&row.notes),
        },
        status: new_status,
    };
    proof {
        assert(updated == apply_session_update(row_at(old(store).sessions@, id), *input, now));
        lemma_update_row(old(store).sessions@, i as int, updated, old(store).next_id as int);
    }
    store.sessions.set(i, updated);
    proof {
        lemma_row_at(store.sessions@, id, i as int);
    }
    Ok(build_session(store, i))
}

/// Hard-deletes a session and everything under it: its exercises and
/// their sets.
pub fn delete(store: &mut Store, id: i64) -> (r: Result<(), AppError>)
    requires
        old(store).wf(),
    ensures
        final(store).wf(),
        final(store).next_id == old(store).next_id,
        final(store).exercises == old(store).exercises,
        final(store).templates == old(store).templates,
        final(store).template_exercises == old(store).template_exercises,
        final(store).auth == old(store).auth,
        match r {
            Ok(_) => {
                &&& has_key(old(store).sessions@, id)
                &&& final(store).sessions@ == old(store).sessions@.filter(
                    |s: SessionRow| s.id != id,
                )
                &&& final(store).session_exercises@ == old(store).session_exercises@.filter(
                    |se: SessionExerciseRow| se.session_id != id,
                )
                &&& final(store).sets@ == old(store).sets@.filter(
                    |st: WorkoutSet|
                        row_at(
                            old(store).session_exercises@,
                            st.session_exercise_id,
                        ).session_id != id,
                )
            },
            Err(e) => e is NotFound && !has_key(old(store).sessions@, id) && *final(store)
                == *old(store),
        },
{
    if find_key(&store.sessions, id).is_none() {
        return Err(AppError::NotFound);
    }
    let ghost keep_session = |s: SessionRow| s.id != id;
    let ghost keep_se = |se: SessionExerciseRow| se.session_id != id;
    let ghost keep_set = |st: WorkoutSet|
        row_at(old(store).session_exercises@, st.session_exercise_id).session_id != id;

    // Surviving sessions.
    let mut kept_sessions: Vec<SessionRow> = Vec::new();
    let n1 = store.sessions.len();
    let mut i: usize = 0;
    proof {
        assert(store.sessions@.take(0).filter(keep_session) =~= kept_sessions@);
    }
    while i < n1
        invariant
            i <= n1,
            n1 == store.sessions@.len(),
            store == old(store),
            kept_sessions@ == store.sessions@.take(i as int).filter(keep_session),
            keep_session == (|s: SessionRow| s.id != id),
        decreases n1 - i,
    {
        let s = &store.sessions[i];
        proof {
            assert(store.sessions@.take(i + 1) =~= store.sessions@.take(i as int).push(
                store.sessions@[i as int],
            ));
            store.sessions@.take(i as int).lemma_filter_push(
                store.sessions@[i as int],
                keep_session,
            );
        }
        if s.read_key() != id {
            kept_sessions.push(s.clone());
        }
        i += 1;
    }
    // Surviving session exercises.
    let mut kept_ses: Vec<SessionExerciseRow> = Vec::new();
    let n2 = store.session_exercises.len();
    let mut i: usize = 0;
    proof {
        assert(store.session_exercises@.take(0).filter(keep_se) =~= kept_ses@);
    }
    while i < n2
        invariant
            i <= n2,
            n2 == store.session_exercises@.len(),
            store == old(store),
            kept_ses@ == store.session_exercises@.take(i as int).filter(keep_se),
            keep_se == (|se: SessionExerciseRow| se.session_id != id),
        decreases n2 - i,
    {
        let se = &store.session_exercises[i];
        proof {
            assert(store.session_exercises@.take(i + 1) =~= store.session_exercises@.take(
                i as int,
            ).push(store.session_exercises@[i as int]));
            store.session_exercises@.take(i as int).lemma_filter_push(
                store.session_exercises@[i as int],
                keep_se,
            );
        }
        if se.session_id != id {
            kept_ses.push(se.clone());
        }
        i += 1;
    }
    // Surviving sets: those whose parent exercise belongs to another
    // session.
    let mut kept_sets: Vec<WorkoutSet> = Vec::new();
    let n3 = store.sets.len();
    let mut i: usize = 0;
    proof {
        assert(store.sets@.take(0).filter(keep_set) =~= kept_sets@);
    }
    while i < n3
        invariant
            i <= n3,
            n3 == store.sets@.len(),
            store == old(store),
            old(store).wf(),
            kept_sets@ == store.sets@.take(i as int).filter(keep_set),
            keep_set == (|st: WorkoutSet|
                row_at(
                    old(store).session_exercises@,
                    st.session_exercise_id,
                ).session_id != id),
        decreases n3 - i,
    {
        let st = &store.sets[i];
        proof {
            assert(store.sets@.take(i + 1) =~= store.sets@.take(i as int).push(
                store.sets@[i as int],
            ));
            store.sets@.take(i as int).lemma_filter_push(store.sets@[i as int], keep_set);
        }
        let keep = match find_key(&store.session_exercises, st.session_exercise_id) {
            Some(j) => {
                proof {
                    lemma_row_at(store.session_exercises@, st.session_exercise_id, j as int);
                }
                store.session_exercises[j].session_id != id
            },
            None => {
                proof {
                    assert(has_key(store.session_exercises@, store.sets@[i as int].session_exercise_id));
                    assert(false);
                }
                false
            },
        };
        if keep {
            kept_sets.push(st.clone());
        }
        i += 1;
    }
    proof {
        assert(store.sessions@.take(n1 as int) =~= store.sessions@);
        assert(store.session_exercises@.take(n2 as int) =~= store.session_exercises@);
        assert(store.sets@.take(n3 as int) =~= store.sets@);
        lemma_filter_rows(store.sessions@, keep_session, store.next_id as int);
        lemma_filter_rows(store.session_exercises@, keep_se, store.next_id as int);
        lemma_filter_rows(store.sets@, keep_set, store.next_id as int);
    }
    store.sessions = kept_sessions;
    store.session_exercises = kept_ses;
    store.sets = kept_sets;
    proof {
        let olds = *old(store);
        let new_ses = store.session_exercises@;
        let new_sets = store.sets@;
        lemma_rows_from_filter(olds.sessions@, keep_session, store.sessions@, olds.next_id as int);
        lemma_rows_from_filter(olds.session_exercises@, keep_se, new_ses, olds.next_id as int);
        lemma_rows_from_filter(olds.sets@, keep_set, new_sets, olds.next_id as int);
        assert forall|x: int| 0 <= x < store.sessions@.len() implies ((
        #[trigger] store.sessions@[x]).template_id matches Some(t) ==> has_key(
            store.templates@,
            t,
        )) by {
            let s = store.sessions@[x];
            let idx = key_index(olds.sessions@, s.key());
            assert(olds.sessions@[idx] == s);
        }
        assert forall|x: int| 0 <= x < new_ses.len() implies has_key(
            store.sessions@,
            (#[trigger] new_ses[x]).session_id,
        ) && has_key(store.exercises@, new_ses[x].exercise_id) by {
            let se = new_ses[x];
            let idx = key_index(olds.session_exercises@, se.key());
            assert(olds.session_exercises@[idx] == se);
            assert(has_key(olds.sessions@, se.session_id));
            assert(row_at(olds.sessions@, se.session_id).id == se.session_id) by {
                let w = key_index(olds.sessions@, se.session_id);
                lemma_row_at(olds.sessions@, se.session_id, w);
            }
            assert(has_key(olds.sessions@.filter(keep_session), se.session_id));
        }
        assert forall|x: int| 0 <= x < new_sets.len() implies has_key(
            store.session_exercises@,
            (#[trigger] new_sets[x]).session_exercise_id,
        ) by {
            let st = new_sets[x];
            let idx = key_index(olds.sets@, st.key());
            assert(olds.sets@[idx] == st);
            assert(has_key(olds.session_exercises@, st.session_exercise_id));
            assert(keep_se(row_at(olds.session_exercises@, st.session_exercise_id)));
            assert(has_key(olds.session_exercises@.filter(keep_se), st.session_exercise_id));
        }
        assert(store.wf());
    }
    Ok(())
}

// ── Auto-numbering ──

/// The greatest position among a session's exercises, if it has any.
pub open spec fn max_position_opt(s: Seq<SessionExerciseRow>, sid: i64) -> Option<int>
    decreases s.len(),
{
    if s.len() == 0 {
        None
    } else {
        let m = max_position_opt(s.drop_last(), sid);
        let x = s.last();
        if x.session_id != sid {
            m
        } else {
            match m {
                None => Some(x.position as int),
                Some(p) => Some(if x.position as int > p { x.position as int } else { p }),
            }
        }
    }
}

/// The position an exercise added without one receives: max(existing)+1,
/// or 1 on an empty session.
pub open spec fn next_position(s: Seq<SessionExerciseRow>, sid: i64) -> int {
    match max_position_opt(s, sid) {
        None => 1,
        Some(m) => m + 1,
    }
}

/// The position the engine stores for an added exercise: the supplied
/// one, or the auto-assigned one.
pub open spec fn chosen_position(u: AddSessionExercise, s: Seq<SessionExerciseRow>, sid: i64) -> int {
    if u.position is Some {
        u.position->0 as int
    } else {
        next_position(s, sid)
    }
}

/// Every position of the session is bounded by the maximum.
pub proof fn lemma_max_position(s: Seq<SessionExerciseRow>, sid: i64)
    ensures
        forall|j: int|
            0 <= j < s.len() && (#[trigger] s[j]).session_id == sid ==> max_position_opt(
                s,
                sid,
            ) is Some && s[j].position as int <= max_position_opt(s, sid)->0,
    decreases s.len(),
{
    if s.len() > 0 {
        let t = s.drop_last();
        lemma_max_position(t, sid);
        assert(forall|j: int| 0 <= j < t.len() ==> t[j] == s[j]);
    }
}

/// The greatest set number among a session exercise's sets, if any.
pub open spec fn max_set_number_opt(s: Seq<WorkoutSet>, seid: i64) -> Option<int>
    decreases s.len(),
{
    if s.len() == 0 {
        None
    } else {
        let m = max_set_number_opt(s.drop_last(), seid);
        let x = s.last();
        if x.session_exercise_id != seid {
            m
        } else {
            match m {
                None => Some(x.set_number as int),
                Some(p) => Some(if x.set_number as int > p { x.set_number as int } else { p }),
            }
        }
    }
}

/// The number a logged set receives: max(existing)+1, or 1 for the first.
pub open spec fn next_set_number(s: Seq<WorkoutSet>, seid: i64) -> int {
    match max_set_number_opt(s, seid) {
        None => 1,
        Some(m) => m + 1,
    }
}

/// Every set number of the session exercise is bounded by the maximum.
pub proof fn lemma_max_set_number(s: Seq<WorkoutSet>, seid: i64)
    ensures
        forall|j: int|
            0 <= j < s.len() && (#[trigger] s[j]).session_exercise_id == seid
                ==> max_set_number_opt(s, seid) is Some && s[j].set_number as int
                <= max_set_number_opt(s, seid)->0,
    decreases s.len(),
{
    if s.len() > 0 {
        let t = s.drop_last();
        lemma_max_set_number(t, seid);
        assert(forall|j: int| 0 <= j < t.len() ==> t[j] == s[j]);
    }
}

// ── Session exercises ──

/// Adds an exercise to a session. Without a supplied position it takes
/// max(existing)+1, or 1 on an empty session; positions of deleted
/// exercises are never filled back in.
pub fn add_exercise(store: &mut Store, session_id: i64, input: &AddSessionExercise) -> (r: Result<
    SessionExerciseWithSets,
    AppError,
>)
    requires
        old(store).wf(),
        old(store).next_id < i64::MAX,
        input.position is None ==> (match max_position_opt(
            old(store).session_exercises@,
            session_id,
        ) {
            Some(m) => m < i32::MAX,
            None => true,
        }),
    ensures
        final(store).wf(),
        final(store).exercises == old(store).exercises,
        final(store).templates == old(store).templates,
        final(store).template_exercises == old(store).template_exercises,
        final(store).sessions == old(store).sessions,
        final(store).sets == old(store).sets,
        final(store).auth == old(store).auth,
        match r {
            Ok(v) => {
                &&& has_key(old(store).sessions@, session_id)
                &&& has_key(old(store).exercises@, input.exercise_id)
                &&& v.id == old(store).next_id
                &&& v.exercise_id == input.exercise_id
                &&& v.exercise_name == row_at(old(store).exercises@, input.exercise_id).name
                &&& v.position as int == chosen_position(
                    *input,
                    old(store).session_exercises@,
                    session_id,
                )
                &&& v.notes == input.notes
                &&& v.sets@.len() == 0
                &&& final(store).session_exercises@ == old(store).session_exercises@.push(
                    SessionExerciseRow {
                        id: v.id,
                        session_id: session_id,
                        exercise_id: v.exercise_id,
                        position: v.position,
                        notes: v.notes,
                    },
                )
                &&& final(store).next_id == old(store).next_id + 1
                &&& (input.position is None ==> forall|j: int|
                    0 <= j < old(store).session_exercises@.len() && (#[trigger] old(
                        store,
                    ).session_exercises@[j]).session_id == session_id ==> (old(
                        store,
                    ).session_exercises@[j].position as int) < v.position as int)
            },
            Err(e) => {
                &&& e is NotFound
                &&& (!has_key(old(store).sessions@, session_id) || !has_key(
                    old(store).exercises@,
                    input.exercise_id,
                ))
                &&& *final(store) == *old(store)
            },
        },
{
    if find_key(&store.sessions, session_id).is_none() {
        return Err(AppError::NotFound);
    }
    if find_key(&store.exercises, input.exercise_id).is_none() {
        return Err(AppError::NotFound);
    }
    let pos: i32 = match input.position {
        Some(p) => p,
        None => {
            let s = &store.session_exercises;
            let n = s.len();
            let mut maxp: Option<i32> = None;
            let mut i: usize = 0;
            proof {
                assert(s@.take(0) =~= Seq::<SessionExerciseRow>::empty());
            }
            while i < n
                invariant
                    i <= n,
                    n == s@.len(),
                    (maxp is None <==> max_position_opt(s@.take(i as int), session_id) is None),
                    maxp matches Some(p) ==> max_position_opt(s@.take(i as int), session_id)
                        == Some(p as int),
                decreases n - i,
            {
                let se = &s[i];
                proof {
                    assert(s@.take(i + 1).drop_last() =~= s@.take(i as int));
                    assert(s@.take(i + 1).last() == s@[i as int]);
                }
                if se.session_id == session_id {
                    maxp = match maxp {
                        None => Some(se.position),
                        Some(p) => Some(
                            if se.position > p {
                                se.position
                            } else {
                                p
                            },
                        ),
                    };
                }
                i += 1;
            }
            proof {
                assert(s@.take(n as int) =~= s@);
            }
            match maxp {
                None => 1,
                Some(p) => p + 1,
            }
        },
    };
    let row = SessionExerciseRow {
        id: store.next_id,
        session_id: session_id,
        exercise_id: input.exercise_id,
        position: pos,
        notes: clone_opt_string(&input.notes),
    };
    proof {
        lemma_push_row(
            old(store).session_exercises@,
            row,
            old(store).next_id as int,
            old(store).next_id + 1,
        );
        if input.position is None {
            lemma_max_position(old(store).session_exercises@, session_id);
        }
    }
    let v = SessionExerciseWithSets {
        id: row.id,
        exercise_id: row.exercise_id,
        exercise_name: exercise_name(store, input.exercise_id),
        position: row.position,
        notes: clone_opt_string(&row.notes),
        sets: Vec::new(),
    };
    store.session_exercises.push(row);
    store.next_id = store.next_id + 1;
    Ok(v)
}

/// The session-exercise row after an update of its supplied fields.
pub open spec fn apply_se_update(row: SessionExerciseRow, u: UpdateSessionExercise) -> SessionExerciseRow {
    SessionExerciseRow {
        id: row.id,
        session_id: row.session_id,
        exercise_id: row.exercise_id,
        position: if u.position is Some { u.position->0 } else { row.position },
        notes: if u.notes is Some { u.notes } else { row.notes },
    }
}

/// Applies position and notes to a session exercise. The owning session
/// id is accepted for interface parity but not consulted; a missing
/// session exercise is reported as not found.
pub fn update_exercise(
    store: &mut Store,
    session_id: i64,
    se_id: i64,
    input: &UpdateSessionExercise,
) -> (r: Result<(), AppError>)
    requires
        old(store).wf(),
    ensures
        final(store).wf(),
        final(store).next_id == old(store).next_id,
        final(store).exercises == old(store).exercises,
        final(store).templates == old(store).templates,
        final(store).template_exercises == old(store).template_exercises,
        final(store).sessions == old(store).sessions,
        final(store).sets == old(store).sets,
        final(store).auth == old(store).auth,
        match r {
            Ok(_) => {
                &&& has_key(old(store).session_exercises@, se_id)
                &&& final(store).session_exercises@ == old(store).session_exercises@.update(
                    key_index(old(store).session_exercises@, se_id),
                    apply_se_update(row_at(old(store).session_exercises@, se_id), *input),
                )
            },
            Err(e) => e is NotFound && !has_key(old(store).session_exercises@, se_id) && *final(store) == *old(store),
        },
{
    let _ = session_id;
    let i = match find_key(&store.session_exercises, se_id) {
        Some(i) => i,
        None => {
            return Err(AppError::NotFound);
        },
    };
    proof {
        lemma_row_at(store.session_exercises@, se_id, i as int);
    }
    let row = &store.session_exercises[i];
    let updated = SessionExerciseRow {
        id: row.id,
        session_id: row.session_id,
        exercise_id: row.exercise_id,
        position: match input.position {
            Some(p) => p,
            None => row.position,
        },
        notes: match &input.notes {
            Some(_) => clone_opt_string(&input.notes),
            None => clone_opt_string(&row.notes),
        },
    };
    proof {
        assert(updated == apply_se_update(row_at(old(store).session_exercises@, se_id), *input));
        lemma_update_row(old(store).session_exercises@, i as int, updated, old(store).next_id as int);
    }
    store.session_exercises.set(i, updated);
    Ok(())
}

/// Removes a session exercise and cascades to its sets. The owning
/// session id is accepted for interface parity but not consulted.
pub fn remove_exercise(store: &mut Store, session_id: i64, se_id: i64) -> (r: Result<
    (),
    AppError,
>)
    requires
        old(store).wf(),
    ensures
        final(store).wf(),
        final(store).next_id == old(store).next_id,
        final(store).exercises == old(store).exercises,
        final(store).templates == old(store).templates,
        final(store).template_exercises == old(store).template_exercises,
        final(store).sessions == old(store).sessions,
        final(store).auth == old(store).auth,
        match r {
            Ok(_) => {
                &&& has_key(old(store).session_exercises@, se_id)
                &&& final(store).session_exercises@ == old(store).session_exercises@.filter(
                    |se: SessionExerciseRow| se.id != se_id,
                )
                &&& final(store).sets@ == old(store).sets@.filter(
                    |st: WorkoutSet| st.session_exercise_id != se_id,
                )
            },
            Err(e) => e is NotFound && !has_key(old(store).session_exercises@, se_id) && *final(store) == *old(store),
        },
{
    let _ = session_id;
    if find_key(&store.session_exercises, se_id).is_none() {
        return Err(AppError::NotFound);
    }
    let ghost keep_se = |se: SessionExerciseRow| se.id != se_id;
    let ghost keep_set = |st: WorkoutSet| st.session_exercise_id != se_id;
    let mut kept_ses: Vec<SessionExerciseRow> = Vec::new();
    let n1 = store.session_exercises.len();
    let mut i: usize = 0;
    proof {
        assert(store.session_exercises@.take(0).filter(keep_se) =~= kept_ses@);
    }
    while i < n1
        invariant
            i <= n1,
            n1 == store.session_exercises@.len(),
            store == old(store),
            kept_ses@ == store.session_exercises@.take(i as int).filter(keep_se),
            keep_se == (|se: SessionExerciseRow| se.id != se_id),
        decreases n1 - i,
    {
        let se = &store.session_exercises[i];
        proof {
            assert(store.session_exercises@.take(i + 1) =~= store.session_exercises@.take(
                i as int,
            ).push(store.session_exercises@[i as int]));
            store.session_exercises@.take(i as int).lemma_filter_push(
                store.session_exercises@[i as int],
                keep_se,
            );
        }
        if se.read_key() != se_id {
            kept_ses.push(se.clone());
        }
        i += 1;
    }
    let mut kept_sets: Vec<WorkoutSet> = Vec::new();
    let n2 = store.sets.len();
    let mut i: usize = 0;
    proof {
        assert(store.sets@.take(0).filter(keep_set) =~= kept_sets@);
    }
    while i < n2
        invariant
            i <= n2,
            n2 == store.sets@.len(),
            store == old(store),
            kept_sets@ == store.sets@.take(i as int).filter(keep_set),
            keep_set == (|st: WorkoutSet| st.session_exercise_id != se_id),
        decreases n2 - i,
    {
        let st = &store.sets[i];
        proof {
            assert(store.sets@.take(i + 1) =~= store.sets@.take(i as int).push(
                store.sets@[i as int],
            ));
            store.sets@.take(i as int).lemma_filter_push(store.sets@[i as int], keep_set);
        }
        if st.session_exercise_id != se_id {
            kept_sets.push(st.clone());
        }
        i += 1;
    }
    proof {
        assert(store.session_exercises@.take(n1 as int) =~= store.session_exercises@);
        assert(store.sets@.take(n2 as int) =~= store.sets@);
        lemma_filter_rows(store.session_exercises@, keep_se, store.next_id as int);
        lemma_filter_rows(store.sets@, keep_set, store.next_id as int);
    }
    store.session_exercises = kept_ses;
    store.sets = kept_sets;
    proof {
        let olds = *old(store);
        lemma_rows_from_filter(
            olds.session_exercises@,
            keep_se,
            store.session_exercises@,
            olds.next_id as int,
        );
        lemma_rows_from_filter(olds.sets@, keep_set, store.sets@, olds.next_id as int);
        assert forall|x: int| 0 <= x < store.sets@.len() implies has_key(
            store.session_exercises@,
            (#[trigger] store.sets@[x]).session_exercise_id,
        ) by {
            let st = store.sets@[x];
            let idx = key_index(olds.sets@, st.key());
            assert(olds.sets@[idx] == st);
            assert(has_key(olds.session_exercises@, st.session_exercise_id));
            assert(row_at(olds.session_exercises@, st.session_exercise_id).id
                == st.session_exercise_id) by {
                let w = key_index(olds.session_exercises@, st.session_exercise_id);
                lemma_row_at(olds.session_exercises@, st.session_exercise_id, w);
            }
            assert(has_key(olds.session_exercises@.filter(keep_se), st.session_exercise_id));
        }
        assert forall|x: int| 0 <= x < store.session_exercises@.len() implies has_key(
            store.sessions@,
            (#[trigger] store.session_exercises@[x]).session_id,
        ) && has_key(store.exercises@, store.session_exercises@[x].exercise_id) by {
            let se = store.session_exercises@[x];
            let idx = key_index(olds.session_exercises@, se.key());
            assert(olds.session_exercises@[idx] == se);
        }
        assert(store.wf());
    }
    Ok(())
}

// ── Sets ──

/// Logs a set under a session exercise: the number is max(existing)+1 or
/// 1 for the first; numbers of deleted sets below the maximum are never
/// filled back in; the type defaults to "working".
pub fn add_set(store: &mut Store, se_id: i64, input: &CreateSet, now: i64) -> (r: Result<
    WorkoutSet,
    AppError,
>)
    requires
        old(store).wf(),
        old(store).next_id < i64::MAX,
        match max_set_number_opt(old(store).sets@, se_id) {
            Some(m) => m < i32::MAX,
            None => true,
        },
    ensures
        final(store).wf(),
        final(store).exercises == old(store).exercises,
        final(store).templates == old(store).templates,
        final(store).template_exercises == old(store).template_exercises,
        final(store).sessions == old(store).sessions,
        final(store).session_exercises == old(store).session_exercises,
        final(store).auth == old(store).auth,
        match r {
            Ok(st) => {
                &&& has_key(old(store).session_exercises@, se_id)
                &&& st.id == old(store).next_id
                &&& st.session_exercise_id == se_id
                &&& st.set_number as int == next_set_number(old(store).sets@, se_id)
                &&& st.weight_g == input.weight_g
                &&& st.reps == input.reps
                &&& (match input.set_type {
                    Some(t) => st.set_type == t,
                    None => st.set_type@ == "working"@,
                })
                &&& st.completed_at == now
                &&& final(store).sets@ == old(store).sets@.push(st)
                &&& final(store).next_id == old(store).next_id + 1
                &&& forall|j: int|
                    0 <= j < old(store).sets@.len() && (#[trigger] old(
                        store,
                    ).sets@[j]).session_exercise_id == se_id ==> old(store).sets@[j].set_number
                        < st.set_number
            },
            Err(e) => e is NotFound && !has_key(old(store).session_exercises@, se_id) && *final(store) == *old(store),
        },
{
    if find_key(&store.session_exercises, se_id).is_none() {
        return Err(AppError::NotFound);
    }
    let s = &store.sets;
    let n = s.len();
    let mut maxn: Option<i32> = None;
    let mut i: usize = 0;
    proof {
        assert(s@.take(0) =~= Seq::<WorkoutSet>::empty());
    }
    while i < n
        invariant
            i <= n,
            n == s@.len(),
            (maxn is None <==> max_set_number_opt(s@.take(i as int), se_id) is None),
            maxn matches Some(p) ==> max_set_number_opt(s@.take(i as int), se_id) == Some(p as int),
        decreases n - i,
    {
        let st = &s[i];
        proof {
            assert(s@.take(i + 1).drop_last() =~= s@.take(i as int));
            assert(s@.take(i + 1).last() == s@[i as int]);
        }
        if st.session_exercise_id == se_id {
            maxn = match maxn {
                None => Some(st.set_number),
                Some(p) => Some(
                    if st.set_number > p {
                        st.set_number
                    } else {
                        p
                    },
                ),
            };
        }
        i += 1;
    }
    proof {
        assert(s@.take(n as int) =~= s@);
    }
    let number: i32 = match maxn {
        None => 1,
        Some(p) => p + 1,
    };
    let row = WorkoutSet {
        id: store.next_id,
        session_exercise_id: se_id,
        set_number: number,
        weight_g: input.weight_g,
        reps: input.reps,
        set_type: match &input.set_type {
            Some(t) => t.clone(),
            None => "working".to_owned(),
        },
        completed_at: now,
    };
    let out = row.clone();
    proof {
        lemma_push_row(old(store).sets@, row, old(store).next_id as int, old(store).next_id + 1);
        lemma_max_set_number(old(store).sets@, se_id);
    }
    store.sets.push(row);
    store.next_id = store.next_id + 1;
    Ok(out)
}

/// The set row after an update of its supplied fields.
pub open spec fn apply_set_update(row: WorkoutSet, u: UpdateSet) -> WorkoutSet {
    WorkoutSet {
        id: row.id,
        session_exercise_id: row.session_exercise_id,
        set_number: row.set_number,
        weight_g: if u.weight_g is Some { u.weight_g } else { row.weight_g },
        reps: if u.reps is Some { u.reps->0 } else { row.reps },
        set_type: if u.set_type is Some { u.set_type->0 } else { row.set_type },
        completed_at: row.completed_at,
    }
}

/// Applies weight, reps and type to a set and returns the updated row;
/// the set number never changes.
pub fn update_set(store: &mut Store, set_id: i64, input: &UpdateSet) -> (r: Result<
    WorkoutSet,
    AppError,
>)
    requires
        old(store).wf(),
    ensures
        final(store).wf(),
        final(store).next_id == old(store).next_id,
        final(store).exercises == old(store).exercises,
        final(store).templates == old(store).templates,
        final(store).template_exercises == old(store).template_exercises,
        final(store).sessions == old(store).sessions,
        final(store).session_exercises == old(store).session_exercises,
        final(store).auth == old(store).auth,
        match r {
            Ok(st) => {
                &&& has_key(old(store).sets@, set_id)
                &&& st == apply_set_update(row_at(old(store).sets@, set_id), *input)
                &&& final(store).sets@ == old(store).sets@.update(
                    key_index(old(store).sets@, set_id),
                    st,
                )
            },
            Err(e) => e is NotFound && !has_key(old(store).sets@, set_id) && *final(store) == *old(
                store,
            ),
        },
{
    let i = match find_key(&store.sets, set_id) {
        Some(i) => i,
        None => {
            return Err(AppError::NotFound);
        },
    };
    proof {
        lemma_row_at(store.sets@, set_id, i as int);
    }
    let row = &store.sets[i];
    let updated = WorkoutSet {
        id: row.id,
        session_exercise_id: row.session_exercise_id,
        set_number: row.set_number,
        weight_g: match input.weight_g {
            Some(w) => Some(w),
            None => row.weight_g,
        },
        reps: match input.reps {
            Some(rp) => rp,
            None => row.reps,
        },
        set_type: match &input.set_type {
            Some(t) => t.clone(),
            None => row.set_type.clone(),
        },
        completed_at: row.completed_at,
    };
    let out = updated.clone();
    proof {
        assert(updated == apply_set_update(row_at(old(store).sets@, set_id), *input));
        lemma_update_row(old(store).sets@, i as int, updated, old(store).next_id as int);
    }
    store.sets.set(i, updated);
    Ok(out)
}

/// Hard-deletes one set; sibling numbers are left as they are.
pub fn delete_set(store: &mut Store, set_id: i64) -> (r: Result<(), AppError>)
    requires
        old(store).wf(),
    ensures
        final(store).wf(),
        final(store).next_id == old(store).next_id,
        final(store).exercises == old(store).exercises,
        final(store).templates == old(store).templates,
        final(store).template_exercises == old(store).template_exercises,
        final(store).sessions == old(store).sessions,
        final(store).session_exercises == old(store).session_exercises,
        final(store).auth == old(store).auth,
        match r {
            Ok(_) => {
                &&& has_key(old(store).sets@, set_id)
                &&& final(store).sets@ == old(store).sets@.filter(
                    |st: WorkoutSet| st.id != set_id,
                )
            },
            Err(e) => e is NotFound && !has_key(old(store).sets@, set_id) && *final(store) == *old(
                store,
            ),
        },
{
    if find_key(&store.sets, set_id).is_none() {
        return Err(AppError::NotFound);
    }
    let ghost keep_set = |st: WorkoutSet| st.id != set_id;
    let mut kept: Vec<WorkoutSet> = Vec::new();
    let n = store.sets.len();
    let mut i: usize = 0;
    proof {
        assert(store.sets@.take(0).filter(keep_set) =~= kept@);
    }
    while i < n
        invariant
            i <= n,
            n == store.sets@.len(),
            store == old(store),
            kept@ == store.sets@.take(i as int).filter(keep_set),
            keep_set == (|st: WorkoutSet| st.id != set_id),
        decreases n - i,
    {
        let st = &store.sets[i];
        proof {
            assert(store.sets@.take(i + 1) =~= store.sets@.take(i as int).push(
                store.sets@[i as int],
            ));
            store.sets@.take(i as int).lemma_filter_push(store.sets@[i as int], keep_set);
        }
        if st.read_key() != set_id {
            kept.push(st.clone());
        }
        i += 1;
    }
    proof {
        assert(store.sets@.take(n as int) =~= store.sets@);
        lemma_filter_rows(store.sets@, keep_set, store.next_id as int);
    }
    store.sets = kept;
    proof {
        let olds = *old(store);
        lemma_rows_from_filter(olds.sets@, keep_set, store.sets@, olds.next_id as int);
        assert forall|x: int| 0 <= x < store.sets@.len() implies has_key(
            store.session_exercises@,
            (#[trigger] store.sets@[x]).session_exercise_id,
        ) by {
            let st = store.sets@[x];
            let idx = key_index(olds.sets@, st.key());
            assert(olds.sets@[idx] == st);
        }
        assert(store.wf());
    }
    Ok(())
}

// ── History ──

/// The session performed this exercise at least once.
pub open spec fn session_includes_exercise(
    ses: Seq<SessionExerciseRow>,
    sid: i64,
    eid: i64,
) -> bool {
    exists|j: int|
        0 <= j < ses.len() && (#[trigger] ses[j]).session_id == sid && ses[j].exercise_id == eid
}

/// The sessions history reports for an exercise: completed ones that
/// included it.
pub open spec fn history_session(store: Store, eid: i64) -> spec_fn(SessionRow) -> bool {
    |s: SessionRow|
        s.status == SessionStatus::Completed && session_includes_exercise(
            store.session_exercises@,
            s.id,
            eid,
        )
}

/// The sets logged for this exercise within this session.
pub open spec fn set_in_session_for(store: Store, sid: i64, eid: i64) -> spec_fn(WorkoutSet) -> bool {
    |st: WorkoutSet|
        {
            let se = row_at(store.session_exercises@, st.session_exercise_id);
            se.session_id == sid && se.exercise_id == eid
        }
}

/// One history entry: the session's identity and the exercise's ordered
/// sets within it.
pub open spec fn entry_view_ok(
    store: Store,
    row: SessionRow,
    eid: i64,
    v: crate::models::ExerciseHistoryEntry,
) -> bool {
    &&& v.session_id == row.id
    &&& v.session_name == row.name
    &&& v.date == row.started_at
    &&& sorted(v.sets@)
    &&& v.sets@.to_multiset() == store.sets@.filter(
        set_in_session_for(store, row.id, eid),
    ).to_multiset()
}

/// `vs` is the first page of `rows`, the history sessions in most recent
/// order, each entry carrying the exercise's sets.
pub open spec fn history_rows_match(
    store: Store,
    eid: i64,
    limit: i64,
    rows: Seq<SessionRow>,
    vs: Seq<crate::models::ExerciseHistoryEntry>,
) -> bool {
    let total = rows.len() as int;
    let end = slice_end(Some(limit), 0, total);
    &&& sorted(rows)
    &&& rows.to_multiset() == store.sessions@.filter(history_session(store, eid)).to_multiset()
    &&& vs.len() == end
    &&& forall|i: int| 0 <= i < vs.len() ==> entry_view_ok(store, rows[i], eid, #[trigger] vs[i])
}

/// `vs` is the history listing for an exercise.
pub open spec fn history_ok(
    store: Store,
    eid: i64,
    limit: i64,
    vs: Seq<crate::models::ExerciseHistoryEntry>,
) -> bool {
    exists|rows: Seq<SessionRow>| history_rows_match(store, eid, limit, rows, vs)
}

/// Whether a session performed an exercise.
fn session_has_exercise(store: &Store, sid: i64, eid: i64) -> (r: bool)
    ensures
        r == session_includes_exercise(store.session_exercises@, sid, eid),
{
    let n = store.session_exercises.len();
    let mut i: usize = 0;
    while i < n
        invariant
            i <= n,
            n == store.session_exercises@.len(),
            forall|j: int|
                0 <= j < i ==> !((#[trigger] store.session_exercises@[j]).session_id == sid
                    && store.session_exercises@[j].exercise_id == eid),
        decreases n - i,
    {
        let se = &store.session_exercises[i];
        if se.session_id == sid && se.exercise_id == eid {
            proof {
                assert(store.session_exercises@[i as int].session_id == sid
                    && store.session_exercises@[i as int].exercise_id == eid);
            }
            return true;
        }
        i += 1;
    }
    false
}

/// The ordered sets this exercise got within this session.
fn get_exercise_sets_in_session(store: &Store, sid: i64, eid: i64) -> (r: Vec<WorkoutSet>)
    requires
        store.wf(),
    ensures
        sorted(r@),
        r@.to_multiset() == store.sets@.filter(set_in_session_for(*store, sid, eid)).to_multiset(),
{
    let ghost pred = set_in_session_for(*store, sid, eid);
    let mut rows: Vec<WorkoutSet> = Vec::new();
    let n = store.sets.len();
    let mut i: usize = 0;
    proof {
        assert(store.sets@.take(0).filter(pred) =~= rows@);
    }
    while i < n
        invariant
            i <= n,
            store.wf(),
            n == store.sets@.len(),
            rows@ == store.sets@.take(i as int).filter(pred),
            pred == set_in_session_for(*store, sid, eid),
        decreases n - i,
    {
        let st = &store.sets[i];
        proof {
            assert(store.sets@.take(i + 1) =~= store.sets@.take(i as int).push(
                store.sets@[i as int],
            ));
            store.sets@.take(i as int).lemma_filter_push(store.sets@[i as int], pred);
        }
        let keep = match find_key(&store.session_exercises, st.session_exercise_id) {
            Some(j) => {
                proof {
                    lemma_row_at(store.session_exercises@, st.session_exercise_id, j as int);
                }
                let se = &store.session_exercises[j];
                se.session_id == sid && se.exercise_id == eid
            },
            None => {
                proof {
                    assert(has_key(
                        store.session_exercises@,
                        store.sets@[i as int].session_exercise_id,
                    ));
                    assert(false);
                }
                false
            },
        };
        if keep {
            rows.push(st.clone());
        }
        i += 1;
    }
    proof {
        assert(store.sets@.take(n as int) =~= store.sets@);
    }
    sort_rows(rows)
}

/// The most recent completed sessions that included an exercise, newest
/// first, at most `limit` of them (a negative limit means no limit), each
/// with only that exercise's sets ordered by set number. An unknown
/// exercise is not found; one with no history gets an empty list.
pub fn exercise_history(store: &Store, exercise_id: i64, limit: i64) -> (r: Result<
    crate::models::ExerciseHistory,
    AppError,
>)
    requires
        store.wf(),
    ensures
        match r {
            Ok(h) => {
                &&& has_key(store.exercises@, exercise_id)
                &&& h.exercise_id == exercise_id
                &&& h.exercise_name == row_at(store.exercises@, exercise_id).name
                &&& history_ok(*store, exercise_id, limit, h.sessions@)
            },
            Err(e) => e is NotFound && !has_key(store.exercises@, exercise_id),
        },
{
    if find_key(&store.exercises, exercise_id).is_none() {
        return Err(AppError::NotFound);
    }
    let name = exercise_name(store, exercise_id);
    let ghost pred = history_session(*store, exercise_id);
    let mut rows: Vec<SessionRow> = Vec::new();
    let n = store.sessions.len();
    let mut i: usize = 0;
    proof {
        assert(store.sessions@.take(0).filter(pred) =~= rows@);
    }
    while i < n
        invariant
            i <= n,
            store.wf(),
            n == store.sessions@.len(),
            rows@ == store.sessions@.take(i as int).filter(pred),
            pred == history_session(*store, exercise_id),
        decreases n - i,
    {
        let s = &store.sessions[i];
        proof {
            assert(store.sessions@.take(i + 1) =~= store.sessions@.take(i as int).push(
                store.sessions@[i as int],
            ));
            store.sessions@.take(i as int).lemma_filter_push(store.sessions@[i as int], pred);
        }
        let completed = match s.status {
            SessionStatus::Completed => true,
            _ => false,
        };
        if completed && session_has_exercise(store, s.read_key(), exercise_id) {
            rows.push(s.clone());
        }
        i += 1;
    }
    proof {
        assert(store.sessions@.take(n as int) =~= store.sessions@);
    }
    let rows = sort_rows(rows);
    let total = rows.len();
    let end: usize = if limit < 0 {
        total
    } else if limit as u64 >= total as u64 {
        total
    } else {
        limit as usize
    };
    proof {
        assert(end as int == slice_end(Some(limit), 0, total as int));
    }
    let mut out: Vec<crate::models::ExerciseHistoryEntry> = Vec::new();
    let mut j: usize = 0;
    while j < end
        invariant
            store.wf(),
            j <= end <= rows@.len(),
            out@.len() == j,
            forall|k: int|
                0 <= k < j ==> entry_view_ok(*store, rows@[k], exercise_id, #[trigger] out@[k]),
        decreases end - j,
    {
        let s = &rows[j];
        out.push(
            crate::models::ExerciseHistoryEntry {
                session_id: s.id,
                session_name: clone_opt_string(&s.name),
                date: s.started_at,
                sets: get_exercise_sets_in_session(store, s.read_key(), exercise_id),
            },
        );
        j += 1;
    }
    proof {
        assert(history_rows_match(*store, exercise_id, limit, rows@, out@));
        assert(history_ok(*store, exercise_id, limit, out@));
    }
    Ok(crate::models::ExerciseHistory { exercise_id, exercise_name: name, sessions: out })
}

/// The sessions a template's history reports: completed ones created
/// from it.
pub open spec fn is_template_run(s: SessionRow, tid: i64) -> bool {
    s.status == SessionStatus::Completed && s.template_id == Some(tid)
}

/// The most recent completed session created from a template, or none.
pub fn template_previous(store: &Store, template_id: i64) -> (r: Result<Option<Session>, AppError>)
    requires
        store.wf(),
    ensures
        match r {
            Ok(opt) => match opt {
                Some(s) => {
                    &&& has_key(store.sessions@, s.id)
                    &&& is_template_run(row_at(store.sessions@, s.id), template_id)
                    &&& session_view_ok(*store, row_at(store.sessions@, s.id), s)
                    &&& forall|j: int|
                        0 <= j < store.sessions@.len() && is_template_run(
                            #[trigger] store.sessions@[j],
                            template_id,
                        ) ==> (store.sessions@[j].started_at < row_at(
                            store.sessions@,
                            s.id,
                        ).started_at || (store.sessions@[j].started_at == row_at(
                            store.sessions@,
                            s.id,
                        ).started_at && store.sessions@[j].id <= row_at(
                            store.sessions@,
                            s.id,
                        ).id))
                },
                None => forall|j: int|
                    0 <= j < store.sessions@.len() ==> !is_template_run(
                        #[trigger] store.sessions@[j],
                        template_id,
                    ),
            },
            Err(_) => false,
        },
{
    let n = store.sessions.len();
    let mut best: Option<usize> = None;
    let mut i: usize = 0;
    while i < n
        invariant
            i <= n,
            n == store.sessions@.len(),
            match best {
                Some(b) => {
                    &&& b < i
                    &&& is_template_run(store.sessions@[b as int], template_id)
                    &&& forall|j: int|
                        0 <= j < i && is_template_run(
                            #[trigger] store.sessions@[j],
                            template_id,
                        ) ==> (store.sessions@[j].started_at
                            < store.sessions@[b as int].started_at || (
                        store.sessions@[j].started_at == store.sessions@[b as int].started_at
                            && store.sessions@[j].id <= store.sessions@[b as int].id))
                },
                None => forall|j: int|
                    0 <= j < i ==> !is_template_run(#[trigger] store.sessions@[j], template_id),
            },
        decreases n - i,
    {
        let s = &store.sessions[i];
        let completed = match s.status {
            SessionStatus::Completed => true,
            _ => false,
        };
        let of_template = match &s.template_id {
            Some(t) => *t == template_id,
            None => false,
        };
        if completed && of_template {
            let replace = match best {
                Some(b) => {
                    let cur = &store.sessions[b];
                    s.started_at > cur.started_at || (s.started_at == cur.started_at && s.id
                        > cur.id)
                },
                None => true,
            };
            if replace {
                best = Some(i);
            }
        }
        i += 1;
    }
    match best {
        Some(b) => {
            proof {
                lemma_row_at(store.sessions@, store.sessions@[b as int].id, b as int);
            }
            Ok(Some(build_session(store, b)))
        },
        None => Ok(None),
    }
}

} // verus!
