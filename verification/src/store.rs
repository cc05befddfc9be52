use vstd::prelude::*;
use crate::models::{clone_opt_string, Exercise, SessionStatus, WorkoutSet};

verus! {

// The store keeps one growing vector per table, in insertion order, and a
// single id counter shared by all tables. Rows are found by id; queries
// filter and sort copies of the rows.

/// A row type addressed by a unique integer id.
pub trait Keyed: Sized {
    /// The row's id in specifications.
    spec fn key(self) -> i64;

    /// The row's id.
    fn read_key(&self) -> (r: i64)
        ensures
            r == self.key(),
    ;
}

/// Some row of `s` has id `id`.
pub open spec fn has_key<T: Keyed>(s: Seq<T>, id: i64) -> bool {
    exists|i: int| 0 <= i < s.len() && #[trigger] s[i].key() == id
}

/// The index of the row of `s` with id `id` (meaningful when `has_key`).
pub open spec fn key_index<T: Keyed>(s: Seq<T>, id: i64) -> int {
    choose|i: int| 0 <= i < s.len() && #[trigger] s[i].key() == id
}

/// The row of `s` with id `id` (meaningful when `has_key` and ids are unique).
pub open spec fn row_at<T: Keyed>(s: Seq<T>, id: i64) -> T {
    s[key_index(s, id)]
}

/// No two rows of `s` share an id.
pub open spec fn unique_keys<T: Keyed>(s: Seq<T>) -> bool {
    forall|i: int, j: int|
        0 <= i < s.len() && 0 <= j < s.len() && i != j ==> #[trigger] s[i].key() != #[trigger] s[j].key()
}

/// Every id of `s` lies in `1 ..= bound - 1`.
pub open spec fn keys_below<T: Keyed>(s: Seq<T>, bound: int) -> bool {
    forall|i: int| 0 <= i < s.len() ==> 1 <= #[trigger] s[i].key() < bound
}

/// `row_at` and `key_index` pick exactly the row found at a known index.
pub proof fn lemma_row_at<T: Keyed>(s: Seq<T>, id: i64, i: int)
    requires
        unique_keys(s),
        0 <= i < s.len(),
        s[i].key() == id,
    ensures
        has_key(s, id),
        key_index(s, id) == i,
        row_at(s, id) == s[i],
{
    assert(has_key(s, id));
    let j = key_index(s, id);
    assert(0 <= j < s.len() && s[j].key() == id);
    if i != j {
        assert(s[i].key() != s[j].key());
    }
}

/// Appending a fresh row keeps the table well keyed and leaves the old
/// rows reachable unchanged.
pub proof fn lemma_push_row<T: Keyed>(s: Seq<T>, x: T, b1: int, b2: int)
    requires
        unique_keys(s),
        keys_below(s, b1),
        1 <= x.key(),
        b1 <= x.key() < b2,
    ensures
        unique_keys(s.push(x)),
        keys_below(s.push(x), b2),
        forall|id: i64| #[trigger] has_key(s.push(x), id) <==> (has_key(s, id) || x.key() == id),
        has_key(s.push(x), x.key()),
        row_at(s.push(x), x.key()) == x,
        forall|id: i64|
            has_key(s, id) ==> #[trigger] row_at(s.push(x), id) == row_at(s, id)
                && key_index(s.push(x), id) == key_index(s, id),
{
    let t = s.push(x);
    assert(t[s.len() as int] == x);
    assert(unique_keys(t)) by {
        assert forall|i: int, j: int|
            0 <= i < t.len() && 0 <= j < t.len() && i != j implies #[trigger] t[i].key()
            != #[trigger] t[j].key() by {
            if i < s.len() && j < s.len() {
                assert(s[i].key() != s[j].key());
            } else if i < s.len() {
                assert(s[i].key() < b1);
            } else {
                assert(s[j].key() < b1);
            }
        }
    }
    assert forall|id: i64| #[trigger] has_key(t, id) implies (has_key(s, id) || x.key() == id) by {
        let i = choose|i: int| 0 <= i < t.len() && #[trigger] t[i].key() == id;
        if i < s.len() {
            assert(s[i].key() == id);
        }
    }
    assert forall|id: i64| (has_key(s, id) || x.key() == id) implies #[trigger] has_key(t, id) by {
        if has_key(s, id) {
            let i = choose|i: int| 0 <= i < s.len() && #[trigger] s[i].key() == id;
            assert(t[i].key() == id);
        } else {
            assert(t[s.len() as int].key() == id);
        }
    }
    lemma_row_at(t, x.key(), s.len() as int);
    assert forall|id: i64| has_key(s, id) implies #[trigger] row_at(t, id) == row_at(s, id)
        && key_index(t, id) == key_index(s, id) by {
        let i = key_index(s, id);
        assert(0 <= i < s.len() && s[i].key() == id);
        assert(t[i].key() == id);
        lemma_row_at(t, id, i);
    }
}

/// Replacing a row by another with the same id keeps the table well keyed;
/// every other row is reached unchanged.
pub proof fn lemma_update_row<T: Keyed>(s: Seq<T>, i: int, x: T, b: int)
    requires
        unique_keys(s),
        keys_below(s, b),
        0 <= i < s.len(),
        x.key() == s[i].key(),
    ensures
        unique_keys(s.update(i, x)),
        keys_below(s.update(i, x), b),
        forall|id: i64| #[trigger] has_key(s.update(i, x), id) <==> has_key(s, id),
        row_at(s.update(i, x), x.key()) == x,
        forall|id: i64|
            has_key(s, id) && id != x.key() ==> #[trigger] row_at(s.update(i, x), id) == row_at(
                s,
                id,
            ),
{
    let t = s.update(i, x);
    assert(t[i] == x);
    assert forall|id: i64| #[trigger] has_key(t, id) implies has_key(s, id) by {
        let j = choose|j: int| 0 <= j < t.len() && #[trigger] t[j].key() == id;
        if j == i {
            assert(s[i].key() == id);
        } else {
            assert(s[j].key() == id);
        }
    }
    assert forall|id: i64| has_key(s, id) implies #[trigger] has_key(t, id) by {
        let j = choose|j: int| 0 <= j < s.len() && #[trigger] s[j].key() == id;
        assert(t[j].key() == id);
    }
    lemma_row_at(t, x.key(), i);
    assert forall|id: i64| has_key(s, id) && id != x.key() implies #[trigger] row_at(t, id)
        == row_at(s, id) by {
        let j = key_index(s, id);
        assert(0 <= j < s.len() && s[j].key() == id);
        assert(j != i);
        assert(t[j].key() == id);
        lemma_row_at(t, id, j);
    }
}

/// Filtering a table keeps it well keyed; a row survives exactly when it
/// satisfies the predicate, and survives unchanged.
pub proof fn lemma_filter_rows<T: Keyed>(s: Seq<T>, pred: spec_fn(T) -> bool, b: int)
    requires
        unique_keys(s),
        keys_below(s, b),
    ensures
        unique_keys(s.filter(pred)),
        keys_below(s.filter(pred), b),
        forall|id: i64| #[trigger] has_key(s.filter(pred), id) <==> (has_key(s, id) && pred(
            row_at(s, id),
        )),
        forall|id: i64|
            has_key(s.filter(pred), id) ==> #[trigger] row_at(s.filter(pred), id) == row_at(s, id),
    decreases s.len(),
{
    reveal(Seq::filter);
    let f = s.filter(pred);
    if s.len() == 0 {
        assert forall|id: i64| #[trigger] has_key(f, id) implies (has_key(s, id) && pred(
            row_at(s, id),
        )) by {}
    } else {
        let t = s.drop_last();
        let y = s.last();
        assert(unique_keys(t) && keys_below(t, b)) by {
            assert(forall|i: int| 0 <= i < t.len() ==> t[i] == s[i]);
        }
        lemma_filter_rows(t, pred, b);
        let ft = t.filter(pred);
        // Every row of t is a row of s at the same index.
        assert(forall|i: int| 0 <= i < t.len() ==> t[i] == s[i]);
        assert forall|id: i64| has_key(t, id) implies #[trigger] has_key(s, id) && row_at(s, id)
            == row_at(t, id) by {
            let i = key_index(t, id);
            assert(0 <= i < t.len() && t[i].key() == id);
            lemma_row_at(s, id, i);
            lemma_row_at(t, id, i);
        }
        assert(s[s.len() - 1] == y);
        assert(has_key(s, y.key())) by {
            lemma_row_at(s, y.key(), s.len() - 1);
        }
        assert(row_at(s, y.key()) == y) by {
            lemma_row_at(s, y.key(), s.len() - 1);
        }
        // y's id appears nowhere in t.
        assert forall|id: i64| has_key(t, id) implies id != y.key() by {
            let i = key_index(t, id);
            assert(s[i].key() == id);
            assert(s[i].key() != s[s.len() - 1].key());
        }
        if pred(y) {
            assert(f == ft.push(y));
            // ft's keys sit below b and exclude y's key, so the push lemma applies
            // only in spirit; redo the three parts directly.
            assert(unique_keys(f)) by {
                assert forall|i: int, j: int|
                    0 <= i < f.len() && 0 <= j < f.len() && i != j implies #[trigger] f[i].key()
                    != #[trigger] f[j].key() by {
                    if i < ft.len() && j < ft.len() {
                        assert(ft[i].key() != ft[j].key());
                    } else if i < ft.len() {
                        lemma_row_at(ft, ft[i].key(), i);
                        assert(has_key(t, ft[i].key()));
                    } else if j < ft.len() {
                        lemma_row_at(ft, ft[j].key(), j);
                        assert(has_key(t, ft[j].key()));
                    }
                }
            }
            assert(keys_below(f, b)) by {
                assert forall|i: int| 0 <= i < f.len() implies 1 <= #[trigger] f[i].key() < b by {
                    if i < ft.len() {
                        assert(1 <= ft[i].key() < b);
                    } else {
                        assert(f[i] == y);
                        assert(1 <= s[s.len() - 1].key() < b);
                    }
                }
            }
            assert forall|id: i64| #[trigger] has_key(f, id) implies (has_key(s, id) && pred(
                row_at(s, id),
            )) by {
                let i = choose|i: int| 0 <= i < f.len() && #[trigger] f[i].key() == id;
                if i < ft.len() {
                    lemma_row_at(ft, id, i);
                    assert(has_key(ft, id));
                } else {
                    assert(f[i] == y);
                }
            }
            assert forall|id: i64| (has_key(s, id) && pred(row_at(s, id))) implies #[trigger] has_key(
                f,
                id,
            ) by {
                let i = key_index(s, id);
                assert(0 <= i < s.len() && s[i].key() == id);
                if i < t.len() {
                    lemma_row_at(t, id, i);
                    assert(has_key(ft, id));
                    let j = key_index(ft, id);
                    assert(f[j].key() == id);
                } else {
                    assert(s[i] == y);
                    assert(f[f.len() - 1].key() == id);
                }
            }
            assert forall|id: i64| has_key(f, id) implies #[trigger] row_at(f, id) == row_at(
                s,
                id,
            ) by {
                let i = choose|i: int| 0 <= i < f.len() && #[trigger] f[i].key() == id;
                if i < ft.len() {
                    lemma_row_at(ft, id, i);
                    assert(row_at(ft, id) == ft[i]);
                    assert(has_key(t, id) && row_at(t, id) == ft[i]);
                    lemma_row_at(f, id, i);
                } else {
                    assert(f[i] == y);
                    lemma_row_at(f, y.key(), i);
                }
            }
        } else {
            assert(f == ft);
            assert forall|id: i64| #[trigger] has_key(f, id) implies (has_key(s, id) && pred(
                row_at(s, id),
            )) by {
                assert(has_key(ft, id));
            }
            assert forall|id: i64| (has_key(s, id) && pred(row_at(s, id))) implies #[trigger] has_key(
                f,
                id,
            ) by {
                let i = key_index(s, id);
                assert(0 <= i < s.len() && s[i].key() == id);
                if i < t.len() {
                    lemma_row_at(t, id, i);
                } else {
                    assert(s[i] == y);
                    assert(row_at(s, id) == y) by {
                        lemma_row_at(s, id, i);
                    }
                }
            }
            assert forall|id: i64| has_key(f, id) implies #[trigger] row_at(f, id) == row_at(
                s,
                id,
            ) by {
                assert(has_key(ft, id));
                assert(row_at(ft, id) == row_at(t, id));
            }
        }
    }
}

/// Every member of a permutation of a filtered table is the table's own
/// row under its id and satisfies the filter.
pub proof fn lemma_rows_from_filter<T: Keyed>(
    orig: Seq<T>,
    pred: spec_fn(T) -> bool,
    rows: Seq<T>,
    b: int,
)
    requires
        unique_keys(orig),
        keys_below(orig, b),
        rows.to_multiset() == orig.filter(pred).to_multiset(),
    ensures
        forall|j: int|
            0 <= j < rows.len() ==> {
                let x = #[trigger] rows[j];
                &&& has_key(orig, x.key())
                &&& row_at(orig, x.key()) == x
                &&& pred(x)
                &&& 1 <= x.key() < b
            },
{
    lemma_filter_rows(orig, pred, b);
    let f = orig.filter(pred);
    assert forall|j: int| 0 <= j < rows.len() implies {
        let x = #[trigger] rows[j];
        &&& has_key(orig, x.key())
        &&& row_at(orig, x.key()) == x
        &&& pred(x)
        &&& 1 <= x.key() < b
    } by {
        let x = rows[j];
        assert(rows.contains(x));
        rows.to_multiset_ensures();
        assert(rows.to_multiset().count(x) > 0);
        f.to_multiset_ensures();
        assert(f.contains(x));
        let k = choose|k: int| 0 <= k < f.len() && f[k] == x;
        lemma_row_at(f, x.key(), k);
        assert(has_key(f, x.key()) && row_at(f, x.key()) == x);
        assert(has_key(orig, x.key()) && pred(row_at(orig, x.key())));
        assert(row_at(orig, x.key()) == x);
        let i = key_index(orig, x.key());
        assert(1 <= orig[i].key() < b);
    }
}

/// Finds the index of the row with the given id, scanning in order.
pub(crate) fn find_key<T: Keyed>(v: &Vec<T>, id: i64) -> (r: Option<usize>)
    ensures
        match r {
            Some(i) => i < v.len() && v@[i as int].key() == id,
            None => !has_key(v@, id),
        },
{
    let mut i: usize = 0;
    while i < v.len()
        invariant
            i <= v.len(),
            forall|j: int| 0 <= j < i ==> #[trigger] v@[j].key() != id,
        decreases v.len() - i,
    {
        if v[i].read_key() == id {
            return Some(i);
        }
        i += 1;
    }
    None
}

// ── Internal row types ──

/// A template row without its exercise specs.
pub struct TemplateRow {
    pub id: i64,
    pub name: String,
    pub notes: Option<String>,
    pub archived: bool,
    pub created_at: i64,
    pub updated_at: i64,
}

/// One exercise spec of a template, as stored.
pub struct TemplateExerciseRow {
    pub id: i64,
    pub template_id: i64,
    pub exercise_id: i64,
    pub position: i32,
    pub target_sets: Option<i32>,
    pub target_reps_min: Option<i32>,
    pub target_reps_max: Option<i32>,
    pub rest_seconds: Option<i32>,
    pub notes: Option<String>,
}

/// A session row without its exercises.
pub struct SessionRow {
    pub id: i64,
    pub template_id: Option<i64>,
    pub name: Option<String>,
    pub started_at: i64,
    pub ended_at: Option<i64>,
    pub paused_duration: i64,
    pub notes: Option<String>,
    pub status: SessionStatus,
}

/// One exercise performed within a session, as stored. Target fields of the
/// template are never copied here.
pub struct SessionExerciseRow {
    pub id: i64,
    pub session_id: i64,
    pub exercise_id: i64,
    pub position: i32,
    pub notes: Option<String>,
}

/// The single credential record: a password hash and the current token.
pub struct AuthRecord {
    pub password_hash: String,
    pub token: String,
}

impl Keyed for Exercise {
    open spec fn key(self) -> i64 {
        self.id
    }

    fn read_key(&self) -> i64 {
        self.id
    }
}

impl Keyed for TemplateRow {
    open spec fn key(self) -> i64 {
        self.id
    }

    fn read_key(&self) -> i64 {
        self.id
    }
}

impl Keyed for TemplateExerciseRow {
    open spec fn key(self) -> i64 {
        self.id
    }

    fn read_key(&self) -> i64 {
        self.id
    }
}

impl Keyed for SessionRow {
    open spec fn key(self) -> i64 {
        self.id
    }

    fn read_key(&self) -> i64 {
        self.id
    }
}

impl Keyed for SessionExerciseRow {
    open spec fn key(self) -> i64 {
        self.id
    }

    fn read_key(&self) -> i64 {
        self.id
    }
}

impl Keyed for WorkoutSet {
    open spec fn key(self) -> i64 {
        self.id
    }

    fn read_key(&self) -> i64 {
        self.id
    }
}

impl Clone for TemplateRow {
    fn clone(&self) -> (r: Self)
        ensures
            r == *self,
    {
        TemplateRow {
            id: self.id,
            name: self.name.clone(),
            notes: clone_opt_string(&self.notes),
            archived: self.archived,
            created_at: self.created_at,
            updated_at: self.updated_at,
        }
    }
}

impl Clone for TemplateExerciseRow {
    fn clone(&self) -> (r: Self)
        ensures
            r == *self,
    {
        TemplateExerciseRow {
            id: self.id,
            template_id: self.template_id,
            exercise_id: self.exercise_id,
            position: self.position,
            target_sets: self.target_sets,
            target_reps_min: self.target_reps_min,
            target_reps_max: self.target_reps_max,
            rest_seconds: self.rest_seconds,
            notes: clone_opt_string(&self.notes),
        }
    }
}

impl Clone for SessionRow {
    fn clone(&self) -> (r: Self)
        ensures
            r == *self,
    {
        SessionRow {
            id: self.id,
            template_id: self.template_id,
            name: clone_opt_string(&self.name),
            started_at: self.started_at,
            ended_at: self.ended_at,
            paused_duration: self.paused_duration,
            notes: clone_opt_string(&self.notes),
            status: self.status,
        }
    }
}

impl Clone for SessionExerciseRow {
    fn clone(&self) -> (r: Self)
        ensures
            r == *self,
    {
        SessionExerciseRow {
            id: self.id,
            session_id: self.session_id,
            exercise_id: self.exercise_id,
            position: self.position,
            notes: clone_opt_string(&self.notes),
        }
    }
}

// ── The store ──

/// A non-archived exercise named `n` exists.
pub open spec fn exercise_name_taken(s: Seq<Exercise>, n: Seq<char>) -> bool {
    exists|i: int| 0 <= i < s.len() && !(#[trigger] s[i]).archived && s[i].name@ == n
}

/// Non-archived exercise names are pairwise distinct.
pub open spec fn exercise_names_unique(s: Seq<Exercise>) -> bool {
    forall|i: int, j: int|
        0 <= i < s.len() && 0 <= j < s.len() && i != j && !(#[trigger] s[i]).archived && !(
        #[trigger] s[j]).archived ==> s[i].name@ != s[j].name@
}

/// A non-archived template named `n` exists.
pub open spec fn template_name_taken(s: Seq<TemplateRow>, n: Seq<char>) -> bool {
    exists|i: int| 0 <= i < s.len() && !(#[trigger] s[i]).archived && s[i].name@ == n
}

/// Non-archived template names are pairwise distinct.
pub open spec fn template_names_unique(s: Seq<TemplateRow>) -> bool {
    forall|i: int, j: int|
        0 <= i < s.len() && 0 <= j < s.len() && i != j && !(#[trigger] s[i]).archived && !(
        #[trigger] s[j]).archived ==> s[i].name@ != s[j].name@
}

/// The whole data set, one vector per table, plus the auth record and the
/// id counter. Access is assumed to be serialized by the caller (one
/// logical operation at a time); every operation requires and preserves
/// `wf`.
pub struct Store {
    pub exercises: Vec<Exercise>,
    pub templates: Vec<TemplateRow>,
    pub template_exercises: Vec<TemplateExerciseRow>,
    pub sessions: Vec<SessionRow>,
    pub session_exercises: Vec<SessionExerciseRow>,
    pub sets: Vec<WorkoutSet>,
    pub auth: Option<AuthRecord>,
    pub next_id: i64,
}

impl Store {
    /// Ids are unique, below the counter, and every reference lands on an
    /// existing row; non-archived names are unique per catalog.
    pub open spec fn wf(self) -> bool {
        &&& 1 <= self.next_id
        &&& unique_keys(self.exercises@) && keys_below(self.exercises@, self.next_id as int)
        &&& unique_keys(self.templates@) && keys_below(self.templates@, self.next_id as int)
        &&& unique_keys(self.template_exercises@) && keys_below(
            self.template_exercises@,
            self.next_id as int,
        )
        &&& unique_keys(self.sessions@) && keys_below(self.sessions@, self.next_id as int)
        &&& unique_keys(self.session_exercises@) && keys_below(
            self.session_exercises@,
            self.next_id as int,
        )
        &&& unique_keys(self.sets@) && keys_below(self.sets@, self.next_id as int)
        &&& forall|i: int|
            0 <= i < self.template_exercises@.len() ==> has_key(
                self.templates@,
                (#[trigger] self.template_exercises@[i]).template_id,
            ) && has_key(self.exercises@, self.template_exercises@[i].exercise_id)
        &&& forall|i: int|
            0 <= i < self.sessions@.len() ==> ((#[trigger] self.sessions@[i]).template_id matches
            Some(t) ==> has_key(self.templates@, t))
        &&& forall|i: int|
            0 <= i < self.session_exercises@.len() ==> has_key(
                self.sessions@,
                (#[trigger] self.session_exercises@[i]).session_id,
            ) && has_key(self.exercises@, self.session_exercises@[i].exercise_id)
        &&& forall|i: int|
            0 <= i < self.sets@.len() ==> has_key(
                self.session_exercises@,
                (#[trigger] self.sets@[i]).session_exercise_id,
            )
        &&& exercise_names_unique(self.exercises@)
        &&& template_names_unique(self.templates@)
    }
}

/// The name of an existing exercise (joins display rows with their names).
pub(crate) fn exercise_name(store: &Store, id: i64) -> (r: String)
    requires
        store.wf(),
        has_key(store.exercises@, id),
    ensures
        r == row_at(store.exercises@, id).name,
{
    match find_key(&store.exercises, id) {
        Some(i) => {
            proof {
                lemma_row_at(store.exercises@, id, i as int);
            }
            store.exercises[i].name.clone()
        },
        None => {
            proof {
                assert(false);
            }
            String::new()
        },
    }
}

} // verus!
