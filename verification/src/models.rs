use vstd::prelude::*;

verus! {

// Timestamps are plain integers (seconds since an epoch) supplied by the
// caller of each operation; the boundary layer renders them as date strings.
// Weights are stored in grams as integers; `None` means bodyweight.

// ── Exercises ──

/// A reusable exercise definition. Archiving is a soft delete: archived
/// exercises are hidden from listings but keep their id for history.
pub struct Exercise {
    pub id: i64,
    pub name: String,
    pub muscle_group: Option<String>,
    pub equipment: Option<String>,
    pub notes: Option<String>,
    pub archived: bool,
    pub created_at: i64,
}

pub struct CreateExercise {
    pub name: String,
    pub muscle_group: Option<String>,
    pub equipment: Option<String>,
    pub notes: Option<String>,
}

pub struct UpdateExercise {
    pub name: Option<String>,
    pub muscle_group: Option<String>,
    pub equipment: Option<String>,
    pub notes: Option<String>,
}

// ── Templates ──

/// A template as returned by queries: the template row joined with its
/// ordered exercise specs.
pub struct Template {
    pub id: i64,
    pub name: String,
    pub notes: Option<String>,
    pub archived: bool,
    pub created_at: i64,
    pub updated_at: i64,
    pub exercises: Vec<TemplateExercise>,
}

/// One target-exercise spec of a template, joined with the exercise name.
pub struct TemplateExercise {
    pub id: i64,
    pub exercise_id: i64,
    pub exercise_name: String,
    pub position: i32,
    pub target_sets: Option<i32>,
    pub target_reps_min: Option<i32>,
    pub target_reps_max: Option<i32>,
    pub rest_seconds: Option<i32>,
    pub notes: Option<String>,
}

pub struct CreateTemplate {
    pub name: String,
    pub notes: Option<String>,
    pub exercises: Vec<CreateTemplateExercise>,
}

pub struct CreateTemplateExercise {
    pub exercise_id: i64,
    pub position: i32,
    pub target_sets: Option<i32>,
    pub target_reps_min: Option<i32>,
    pub target_reps_max: Option<i32>,
    pub rest_seconds: Option<i32>,
    pub notes: Option<String>,
}

pub struct UpdateTemplate {
    pub name: Option<String>,
    pub notes: Option<String>,
    pub exercises: Option<Vec<CreateTemplateExercise>>,
}

// ── Sessions ──

/// The lifecycle state of a workout session. `Completed` and `Abandoned`
/// are terminal.
#[derive(Clone, Copy, Debug, PartialEq, Eq, Structural)]
pub enum SessionStatus {
    Active,
    Paused,
    Completed,
    Abandoned,
}

/// A full session view: the session row joined with the template name and
/// its ordered exercises, each carrying its ordered sets.
pub struct Session {
    pub id: i64,
    pub template_id: Option<i64>,
    pub template_name: Option<String>,
    pub name: Option<String>,
    pub started_at: i64,
    pub ended_at: Option<i64>,
    pub paused_duration: i64,
    pub notes: Option<String>,
    pub status: SessionStatus,
    pub exercises: Vec<SessionExerciseWithSets>,
}

/// A session list entry: no nested exercises or sets.
pub struct SessionSummary {
    pub id: i64,
    pub template_id: Option<i64>,
    pub template_name: Option<String>,
    pub name: Option<String>,
    pub started_at: i64,
    pub ended_at: Option<i64>,
    pub status: SessionStatus,
}

/// One exercise performed within a session, joined with the exercise name
/// and its logged sets ordered by set number.
pub struct SessionExerciseWithSets {
    pub id: i64,
    pub exercise_id: i64,
    pub exercise_name: String,
    pub position: i32,
    pub notes: Option<String>,
    pub sets: Vec<WorkoutSet>,
}

/// One logged set. `set_number` is assigned as max(existing)+1 within its
/// session exercise and is 1-based.
pub struct WorkoutSet {
    pub id: i64,
    pub session_exercise_id: i64,
    pub set_number: i32,
    pub weight_g: Option<i64>,
    pub reps: i32,
    pub set_type: String,
    pub completed_at: i64,
}

pub struct CreateSession {
    pub template_id: Option<i64>,
    pub name: Option<String>,
    pub started_at: Option<i64>,
    pub ended_at: Option<i64>,
    pub status: Option<String>,
    pub notes: Option<String>,
}

pub struct UpdateSession {
    pub status: Option<String>,
    pub notes: Option<String>,
    pub paused_duration: Option<i64>,
    pub started_at: Option<i64>,
    pub ended_at: Option<i64>,
}

pub struct AddSessionExercise {
    pub exercise_id: i64,
    pub position: Option<i32>,
    pub notes: Option<String>,
}

pub struct UpdateSessionExercise {
    pub position: Option<i32>,
    pub notes: Option<String>,
}

pub struct CreateSet {
    pub weight_g: Option<i64>,
    pub reps: i32,
    pub set_type: Option<String>,
}

pub struct UpdateSet {
    pub weight_g: Option<i64>,
    pub reps: Option<i32>,
    pub set_type: Option<String>,
}

// ── Auth ──

pub struct LoginRequest {
    pub password: String,
}

pub struct AuthResponse {
    pub token: String,
}

// ── Query params ──

pub struct SessionListParams {
    pub limit: Option<i64>,
    pub offset: Option<i64>,
    pub template_id: Option<i64>,
}

// ── History ──

/// The recent completed sessions that included one exercise, with only the
/// sets of that exercise in each.
pub struct ExerciseHistory {
    pub exercise_id: i64,
    pub exercise_name: String,
    pub sessions: Vec<ExerciseHistoryEntry>,
}

pub struct ExerciseHistoryEntry {
    pub session_id: i64,
    pub session_name: Option<String>,
    pub date: i64,
    pub sets: Vec<WorkoutSet>,
}

// ── Cloning ──

/// An owned copy of an optional string, equal to the original.
pub(crate) fn clone_opt_string(o: &Option<String>) -> (r: Option<String>)
    ensures
        r == *o,
{
    match o {
        Some(s) => Some(s.clone()),
        None => None,
    }
}

impl Clone for Exercise {
    fn clone(&self) -> (r: Self)
        ensures
            r == *self,
    {
        Exercise {
            id: self.id,
            name: self.name.clone(),
            muscle_group: clone_opt_string(&self.muscle_group),
            equipment: clone_opt_string(&self.equipment),
            notes: clone_opt_string(&self.notes),
            archived: self.archived,
            created_at: self.created_at,
        }
    }
}

impl Clone for WorkoutSet {
    fn clone(&self) -> (r: Self)
        ensures
            r == *self,
    {
        WorkoutSet {
            id: self.id,
            session_exercise_id: self.session_exercise_id,
            set_number: self.set_number,
            weight_g: self.weight_g,
            reps: self.reps,
            set_type: self.set_type.clone(),
            completed_at: self.completed_at,
        }
    }
}

} // verus!
