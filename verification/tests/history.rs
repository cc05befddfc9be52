use lightweight_core::db::init_memory_db;
use lightweight_core::error::AppError;
use lightweight_core::exercises;
use lightweight_core::models::{
    AddSessionExercise, CreateExercise, CreateSession, CreateSet, CreateTemplate,
    CreateTemplateExercise, SessionStatus, UpdateSession,
};
use lightweight_core::sessions;
use lightweight_core::store::Store;
use lightweight_core::templates;

fn create_exercise(store: &mut Store, name: &str) -> i64 {
    let input = CreateExercise {
        name: name.to_string(),
        muscle_group: None,
        equipment: None,
        notes: None,
    };
    exercises::create(store, &input, 100).unwrap().id
}

fn session_at(store: &mut Store, started_at: i64, template_id: Option<i64>) -> i64 {
    let input = CreateSession {
        template_id,
        name: None,
        started_at: Some(started_at),
        ended_at: None,
        status: None,
        notes: None,
    };
    sessions::create(store, &input, started_at).unwrap().id
}

fn complete(store: &mut Store, sid: i64, now: i64) {
    let upd = UpdateSession {
        status: Some("completed".to_string()),
        notes: None,
        paused_duration: None,
        started_at: None,
        ended_at: None,
    };
    sessions::update(store, sid, &upd, now).unwrap();
}

fn log_reps(store: &mut Store, sid: i64, eid: i64, reps: &[i32]) {
    let seid = sessions::add_exercise(
        store,
        sid,
        &AddSessionExercise { exercise_id: eid, position: None, notes: None },
    )
    .unwrap()
    .id;
    for (k, r) in reps.iter().enumerate() {
        sessions::add_set(
            store,
            seid,
            &CreateSet { weight_g: None, reps: *r, set_type: None },
            k as i64,
        )
        .unwrap();
    }
}

#[test]
fn history_for_unknown_exercise_is_not_found() {
    let store = init_memory_db();
    assert!(matches!(
        sessions::exercise_history(&store, 3, 10),
        Err(AppError::NotFound)
    ));
}

#[test]
fn history_without_runs_is_empty() {
    let mut store = init_memory_db();
    let e = create_exercise(&mut store, "Bench Press");
    let h = sessions::exercise_history(&store, e, 10).unwrap();
    assert_eq!(h.exercise_id, e);
    assert_eq!(h.exercise_name, "Bench Press");
    assert!(h.sessions.is_empty());
}

#[test]
fn history_reports_completed_sessions_newest_first() {
    let mut store = init_memory_db();
    let bench = create_exercise(&mut store, "Bench Press");
    let curl = create_exercise(&mut store, "Curl");
    // three sessions with bench, one of them left active, plus one without bench
    let s_old = session_at(&mut store, 100, None);
    log_reps(&mut store, s_old, bench, &[5, 5]);
    complete(&mut store, s_old, 101);
    let s_new = session_at(&mut store, 300, None);
    log_reps(&mut store, s_new, bench, &[8]);
    log_reps(&mut store, s_new, curl, &[12]);
    complete(&mut store, s_new, 301);
    let s_active = session_at(&mut store, 400, None);
    log_reps(&mut store, s_active, bench, &[9]);
    let s_other = session_at(&mut store, 200, None);
    log_reps(&mut store, s_other, curl, &[10]);
    complete(&mut store, s_other, 201);

    let h = sessions::exercise_history(&store, bench, 10).unwrap();
    assert_eq!(h.sessions.len(), 2);
    assert_eq!(h.sessions[0].session_id, s_new);
    assert_eq!(h.sessions[1].session_id, s_old);
    // only the bench sets of each session, in set order
    assert_eq!(h.sessions[0].sets.len(), 1);
    assert_eq!(h.sessions[0].sets[0].reps, 8);
    let old_reps: Vec<i32> = h.sessions[1].sets.iter().map(|s| s.reps).collect();
    assert_eq!(old_reps, vec![5, 5]);
    // the limit caps the entries to the most recent ones
    let capped = sessions::exercise_history(&store, bench, 1).unwrap();
    assert_eq!(capped.sessions.len(), 1);
    assert_eq!(capped.sessions[0].session_id, s_new);
}

#[test]
fn template_previous_finds_latest_completed_run() {
    let mut store = init_memory_db();
    let e = create_exercise(&mut store, "E");
    let tid = templates::create(
        &mut store,
        &CreateTemplate {
            name: "Day".to_string(),
            notes: None,
            exercises: vec![CreateTemplateExercise {
                exercise_id: e,
                position: 1,
                target_sets: None,
                target_reps_min: None,
                target_reps_max: None,
                rest_seconds: None,
                notes: None,
            }],
        },
        1,
    )
    .unwrap()
    .id;
    // no completed run yet
    assert!(sessions::template_previous(&store, tid).unwrap().is_none());
    let s1 = session_at(&mut store, 100, Some(tid));
    let s2 = session_at(&mut store, 500, Some(tid));
    let s3 = session_at(&mut store, 300, Some(tid));
    complete(&mut store, s1, 101);
    complete(&mut store, s3, 301);
    // s2 is newer but still active, so the latest completed run is s3
    let prev = sessions::template_previous(&store, tid).unwrap().unwrap();
    assert_eq!(prev.id, s3);
    complete(&mut store, s2, 501);
    let prev = sessions::template_previous(&store, tid).unwrap().unwrap();
    assert_eq!(prev.id, s2);
    assert!(matches!(prev.status, SessionStatus::Completed));
}

#[test]
fn full_scenario_from_catalog_to_history() {
    let mut store = init_memory_db();
    // create exercise "Bench Press"
    let bench = create_exercise(&mut store, "Bench Press");
    // create template "Push Day" with it at position 1, target_sets 3
    let tid = templates::create(
        &mut store,
        &CreateTemplate {
            name: "Push Day".to_string(),
            notes: None,
            exercises: vec![CreateTemplateExercise {
                exercise_id: bench,
                position: 1,
                target_sets: Some(3),
                target_reps_min: None,
                target_reps_max: None,
                rest_seconds: None,
                notes: None,
            }],
        },
        10,
    )
    .unwrap()
    .id;
    // start a session from "Push Day"
    let s = sessions::create(
        &mut store,
        &CreateSession {
            template_id: Some(tid),
            name: None,
            started_at: None,
            ended_at: None,
            status: None,
            notes: None,
        },
        20,
    )
    .unwrap();
    // one session exercise referencing Bench Press at position 1; the
    // session exercise carries no target fields
    assert_eq!(s.exercises.len(), 1);
    let se = &s.exercises[0];
    assert_eq!(se.exercise_id, bench);
    assert_eq!(se.exercise_name, "Bench Press");
    assert_eq!(se.position, 1);
    assert!(se.sets.is_empty());
    // log a set of 8 reps at 60 kg; its number is 1
    let st = sessions::add_set(
        &mut store,
        se.id,
        &CreateSet { weight_g: Some(60000), reps: 8, set_type: None },
        25,
    )
    .unwrap();
    assert_eq!(st.set_number, 1);
    // end the session
    let done = sessions::update(
        &mut store,
        s.id,
        &UpdateSession {
            status: Some("completed".to_string()),
            notes: None,
            paused_duration: None,
            started_at: None,
            ended_at: None,
        },
        30,
    )
    .unwrap();
    assert!(matches!(done.status, SessionStatus::Completed));
    assert_eq!(done.ended_at, Some(30));
    // the previous run of "Push Day" is this session
    let prev = sessions::template_previous(&store, tid).unwrap().unwrap();
    assert_eq!(prev.id, s.id);
    assert_eq!(prev.exercises.len(), 1);
    assert_eq!(prev.exercises[0].sets.len(), 1);
    assert_eq!(prev.exercises[0].sets[0].reps, 8);
}
