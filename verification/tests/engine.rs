use lightweight_core::db::init_memory_db;
use lightweight_core::error::AppError;
use lightweight_core::exercises;
use lightweight_core::models::{
    AddSessionExercise, CreateExercise, CreateSession, CreateSet, CreateTemplate,
    CreateTemplateExercise, SessionListParams, SessionStatus, UpdateSession, UpdateSessionExercise,
    UpdateSet,
};
use lightweight_core::sessions;
use lightweight_core::store::Store;
use lightweight_core::templates;

fn create_exercise(store: &mut Store, name: &str) -> i64 {
    let input = CreateExercise {
        name: name.to_string(),
        muscle_group: None,
        equipment: None,
        notes: None,
    };
    exercises::create(store, &input, 100).unwrap().id
}

fn freeform_session(store: &mut Store, started_at: i64) -> i64 {
    let input = CreateSession {
        template_id: None,
        name: None,
        started_at: Some(started_at),
        ended_at: None,
        status: None,
        notes: None,
    };
    sessions::create(store, &input, started_at).unwrap().id
}

fn add_exercise(store: &mut Store, sid: i64, eid: i64, position: Option<i32>) -> i64 {
    let input = AddSessionExercise {
        exercise_id: eid,
        position,
        notes: None,
    };
    sessions::add_exercise(store, sid, &input).unwrap().id
}

fn log_set(store: &mut Store, seid: i64, reps: i32, now: i64) -> lightweight_core::models::WorkoutSet {
    let input = CreateSet {
        weight_g: None,
        reps,
        set_type: None,
    };
    sessions::add_set(store, seid, &input, now).unwrap()
}

#[test]
fn session_defaults_on_creation() {
    let mut store = init_memory_db();
    let input = CreateSession {
        template_id: None,
        name: Some("morning".to_string()),
        started_at: None,
        ended_at: None,
        status: None,
        notes: None,
    };
    let s = sessions::create(&mut store, &input, 555).unwrap();
    assert_eq!(s.started_at, 555);
    assert_eq!(s.ended_at, None);
    assert_eq!(s.paused_duration, 0);
    assert!(matches!(s.status, SessionStatus::Active));
    assert_eq!(s.name.as_deref(), Some("morning"));
    assert!(s.exercises.is_empty());
    assert_eq!(s.template_name, None);
}

#[test]
fn session_with_invalid_status_is_rejected() {
    let mut store = init_memory_db();
    let input = CreateSession {
        template_id: None,
        name: None,
        started_at: None,
        ended_at: None,
        status: Some("running".to_string()),
        notes: None,
    };
    assert!(matches!(
        sessions::create(&mut store, &input, 1),
        Err(AppError::BadRequest(_))
    ));
}

#[test]
fn session_with_unknown_template_is_not_found() {
    let mut store = init_memory_db();
    let input = CreateSession {
        template_id: Some(41),
        name: None,
        started_at: None,
        ended_at: None,
        status: None,
        notes: None,
    };
    assert!(matches!(
        sessions::create(&mut store, &input, 1),
        Err(AppError::NotFound)
    ));
}

#[test]
fn imported_session_keeps_supplied_fields() {
    let mut store = init_memory_db();
    let input = CreateSession {
        template_id: None,
        name: None,
        started_at: Some(1000),
        ended_at: Some(2000),
        status: Some("completed".to_string()),
        notes: Some("imported".to_string()),
    };
    let s = sessions::create(&mut store, &input, 9999).unwrap();
    assert_eq!(s.started_at, 1000);
    assert_eq!(s.ended_at, Some(2000));
    assert!(matches!(s.status, SessionStatus::Completed));
}

#[test]
fn create_from_template_copies_specs_in_order() {
    let mut store = init_memory_db();
    let a = create_exercise(&mut store, "A");
    let b = create_exercise(&mut store, "B");
    let spec = |eid: i64, pos: i32| CreateTemplateExercise {
        exercise_id: eid,
        position: pos,
        target_sets: Some(3),
        target_reps_min: Some(5),
        target_reps_max: Some(8),
        rest_seconds: Some(90),
        notes: Some("note".to_string()),
    };
    let tid = templates::create(
        &mut store,
        &CreateTemplate {
            name: "Day".to_string(),
            notes: None,
            exercises: vec![spec(a, 1), spec(b, 2)],
        },
        10,
    )
    .unwrap()
    .id;
    let s = sessions::create(
        &mut store,
        &CreateSession {
            template_id: Some(tid),
            name: None,
            started_at: None,
            ended_at: None,
            status: None,
            notes: None,
        },
        20,
    )
    .unwrap();
    assert_eq!(s.template_id, Some(tid));
    assert_eq!(s.template_name.as_deref(), Some("Day"));
    assert_eq!(s.exercises.len(), 2);
    assert_eq!(s.exercises[0].exercise_name, "A");
    assert_eq!(s.exercises[0].position, 1);
    assert_eq!(s.exercises[0].notes.as_deref(), Some("note"));
    assert!(s.exercises[0].sets.is_empty());
    assert_eq!(s.exercises[1].exercise_name, "B");
    assert_eq!(s.exercises[1].position, 2);
    // later template edits never touch the existing session
    templates::update(
        &mut store,
        tid,
        &lightweight_core::models::UpdateTemplate {
            name: None,
            notes: None,
            exercises: Some(vec![]),
        },
        30,
    )
    .unwrap();
    let again = sessions::get(&store, s.id).unwrap();
    assert_eq!(again.exercises.len(), 2);
}

#[test]
fn auto_position_starts_at_one_and_takes_max_plus_one() {
    let mut store = init_memory_db();
    let e = create_exercise(&mut store, "E");
    let sid = freeform_session(&mut store, 1);
    let first = sessions::add_exercise(
        &mut store,
        sid,
        &AddSessionExercise { exercise_id: e, position: None, notes: None },
    )
    .unwrap();
    assert_eq!(first.position, 1);
    // explicit positions 1 and 3; the next auto position is 4, not 2
    let sid2 = freeform_session(&mut store, 2);
    add_exercise(&mut store, sid2, e, Some(1));
    add_exercise(&mut store, sid2, e, Some(3));
    let auto = sessions::add_exercise(
        &mut store,
        sid2,
        &AddSessionExercise { exercise_id: e, position: None, notes: None },
    )
    .unwrap();
    assert_eq!(auto.position, 4);
}

#[test]
fn add_exercise_to_missing_session_is_not_found() {
    let mut store = init_memory_db();
    let e = create_exercise(&mut store, "E");
    let r = sessions::add_exercise(
        &mut store,
        77,
        &AddSessionExercise { exercise_id: e, position: None, notes: None },
    );
    assert!(matches!(r, Err(AppError::NotFound)));
}

#[test]
fn set_numbers_run_sequentially_and_are_not_reused() {
    let mut store = init_memory_db();
    let e = create_exercise(&mut store, "E");
    let sid = freeform_session(&mut store, 1);
    let seid = add_exercise(&mut store, sid, e, None);
    let s1 = log_set(&mut store, seid, 5, 10);
    let s2 = log_set(&mut store, seid, 5, 11);
    let s3 = log_set(&mut store, seid, 5, 12);
    assert_eq!((s1.set_number, s2.set_number, s3.set_number), (1, 2, 3));
    // deleting set 2 and logging again yields 4: 2 and 3 are never reused
    sessions::delete_set(&mut store, s2.id).unwrap();
    let s4 = log_set(&mut store, seid, 5, 13);
    assert_eq!(s4.set_number, 4);
}

#[test]
fn set_defaults_and_updates() {
    let mut store = init_memory_db();
    let e = create_exercise(&mut store, "E");
    let sid = freeform_session(&mut store, 1);
    let seid = add_exercise(&mut store, sid, e, None);
    let st = sessions::add_set(
        &mut store,
        seid,
        &CreateSet { weight_g: Some(60000), reps: 8, set_type: None },
        77,
    )
    .unwrap();
    assert_eq!(st.set_type, "working");
    assert_eq!(st.weight_g, Some(60000));
    assert_eq!(st.completed_at, 77);
    let upd = sessions::update_set(
        &mut store,
        st.id,
        &UpdateSet { weight_g: None, reps: Some(6), set_type: Some("warmup".to_string()) },
    )
    .unwrap();
    assert_eq!(upd.reps, 6);
    assert_eq!(upd.set_type, "warmup");
    assert_eq!(upd.weight_g, Some(60000));
    assert_eq!(upd.set_number, st.set_number);
    assert!(matches!(
        sessions::update_set(&mut store, 999, &UpdateSet { weight_g: None, reps: None, set_type: None }),
        Err(AppError::NotFound)
    ));
    assert!(matches!(
        sessions::delete_set(&mut store, 999),
        Err(AppError::NotFound)
    ));
}

#[test]
fn add_set_to_missing_exercise_is_not_found() {
    let mut store = init_memory_db();
    let r = sessions::add_set(
        &mut store,
        5,
        &CreateSet { weight_g: None, reps: 1, set_type: None },
        1,
    );
    assert!(matches!(r, Err(AppError::NotFound)));
}

#[test]
fn completing_stamps_ended_at_even_with_explicit_value() {
    let mut store = init_memory_db();
    let sid = freeform_session(&mut store, 1);
    let upd = UpdateSession {
        status: Some("completed".to_string()),
        notes: None,
        paused_duration: None,
        started_at: None,
        ended_at: Some(12345),
    };
    let s = sessions::update(&mut store, sid, &upd, 777).unwrap();
    assert!(matches!(s.status, SessionStatus::Completed));
    // the transition stamps now, overriding the supplied end time
    assert_eq!(s.ended_at, Some(777));
}

#[test]
fn invalid_status_update_is_rejected() {
    let mut store = init_memory_db();
    let sid = freeform_session(&mut store, 1);
    let upd = UpdateSession {
        status: Some("finished".to_string()),
        notes: None,
        paused_duration: None,
        started_at: None,
        ended_at: None,
    };
    assert!(matches!(
        sessions::update(&mut store, sid, &upd, 2),
        Err(AppError::BadRequest(_))
    ));
    // the session is untouched
    let s = sessions::get(&store, sid).unwrap();
    assert!(matches!(s.status, SessionStatus::Active));
}

#[test]
fn update_other_fields_independently() {
    let mut store = init_memory_db();
    let sid = freeform_session(&mut store, 1);
    let upd = UpdateSession {
        status: None,
        notes: Some("went well".to_string()),
        paused_duration: Some(90),
        started_at: Some(5),
        ended_at: Some(50),
    };
    let s = sessions::update(&mut store, sid, &upd, 2).unwrap();
    assert_eq!(s.notes.as_deref(), Some("went well"));
    assert_eq!(s.paused_duration, 90);
    assert_eq!(s.started_at, 5);
    assert_eq!(s.ended_at, Some(50));
    assert!(matches!(s.status, SessionStatus::Active));
}

#[test]
fn get_active_picks_latest_live_session() {
    let mut store = init_memory_db();
    assert!(sessions::get_active(&store).unwrap().is_none());
    let s1 = freeform_session(&mut store, 100);
    let s2 = freeform_session(&mut store, 300);
    let _s3 = freeform_session(&mut store, 200);
    // the most recently started active session wins
    assert_eq!(sessions::get_active(&store).unwrap().unwrap().id, s2);
    // a paused session still counts as running
    let pause = UpdateSession {
        status: Some("paused".to_string()),
        notes: None,
        paused_duration: None,
        started_at: None,
        ended_at: None,
    };
    sessions::update(&mut store, s2, &pause, 1).unwrap();
    assert_eq!(sessions::get_active(&store).unwrap().unwrap().id, s2);
    // once every session is finished there is no active one
    for sid in [s1, s2, _s3] {
        let end = UpdateSession {
            status: Some(if sid == s1 { "abandoned" } else { "completed" }.to_string()),
            notes: None,
            paused_duration: None,
            started_at: None,
            ended_at: None,
        };
        sessions::update(&mut store, sid, &end, 2).unwrap();
    }
    assert!(sessions::get_active(&store).unwrap().is_none());
}

#[test]
fn list_orders_pages_and_filters() {
    let mut store = init_memory_db();
    let tid = templates::create(
        &mut store,
        &CreateTemplate { name: "T".to_string(), notes: None, exercises: vec![] },
        1,
    )
    .unwrap()
    .id;
    let ids: Vec<i64> = (0..5).map(|k| freeform_session(&mut store, 10 * k)).collect();
    let from_template = sessions::create(
        &mut store,
        &CreateSession {
            template_id: Some(tid),
            name: None,
            started_at: Some(1000),
            ended_at: None,
            status: None,
            notes: None,
        },
        1000,
    )
    .unwrap()
    .id;
    // newest first
    let all = sessions::list(
        &store,
        &SessionListParams { limit: None, offset: None, template_id: None },
    )
    .unwrap();
    assert_eq!(all.len(), 6);
    assert_eq!(all[0].id, from_template);
    assert_eq!(all[5].id, ids[0]);
    // offset and limit cut a page
    let page = sessions::list(
        &store,
        &SessionListParams { limit: Some(2), offset: Some(1), template_id: None },
    )
    .unwrap();
    assert_eq!(page.len(), 2);
    assert_eq!(page[0].id, ids[4]);
    assert_eq!(page[1].id, ids[3]);
    // a negative limit means no limit
    let unbounded = sessions::list(
        &store,
        &SessionListParams { limit: Some(-1), offset: None, template_id: None },
    )
    .unwrap();
    assert_eq!(unbounded.len(), 6);
    // filtering by template
    let of_template = sessions::list(
        &store,
        &SessionListParams { limit: None, offset: None, template_id: Some(tid) },
    )
    .unwrap();
    assert_eq!(of_template.len(), 1);
    assert_eq!(of_template[0].id, from_template);
    assert_eq!(of_template[0].template_name.as_deref(), Some("T"));
    // an offset past the end gives an empty page
    let empty = sessions::list(
        &store,
        &SessionListParams { limit: None, offset: Some(100), template_id: None },
    )
    .unwrap();
    assert!(empty.is_empty());
}

#[test]
fn update_exercise_moves_position_and_checks_existence() {
    let mut store = init_memory_db();
    let e = create_exercise(&mut store, "E");
    let sid = freeform_session(&mut store, 1);
    let seid = add_exercise(&mut store, sid, e, Some(1));
    sessions::update_exercise(
        &mut store,
        sid,
        seid,
        &UpdateSessionExercise { position: Some(9), notes: Some("slow".to_string()) },
    )
    .unwrap();
    let s = sessions::get(&store, sid).unwrap();
    assert_eq!(s.exercises[0].position, 9);
    assert_eq!(s.exercises[0].notes.as_deref(), Some("slow"));
    assert!(matches!(
        sessions::update_exercise(
            &mut store,
            sid,
            999,
            &UpdateSessionExercise { position: None, notes: None },
        ),
        Err(AppError::NotFound)
    ));
}

#[test]
fn remove_exercise_cascades_its_sets() {
    let mut store = init_memory_db();
    let e = create_exercise(&mut store, "E");
    let sid = freeform_session(&mut store, 1);
    let se1 = add_exercise(&mut store, sid, e, Some(1));
    let se2 = add_exercise(&mut store, sid, e, Some(2));
    log_set(&mut store, se1, 5, 1);
    let kept = log_set(&mut store, se2, 6, 2);
    sessions::remove_exercise(&mut store, sid, se1).unwrap();
    let s = sessions::get(&store, sid).unwrap();
    assert_eq!(s.exercises.len(), 1);
    assert_eq!(s.exercises[0].id, se2);
    assert_eq!(s.exercises[0].sets.len(), 1);
    assert_eq!(s.exercises[0].sets[0].id, kept.id);
    assert!(matches!(
        sessions::remove_exercise(&mut store, sid, se1),
        Err(AppError::NotFound)
    ));
}

#[test]
fn delete_session_cascades_everything() {
    let mut store = init_memory_db();
    let e = create_exercise(&mut store, "E");
    let sid = freeform_session(&mut store, 1);
    let seid = add_exercise(&mut store, sid, e, None);
    log_set(&mut store, seid, 5, 1);
    let other = freeform_session(&mut store, 2);
    let other_se = add_exercise(&mut store, other, e, None);
    let other_set = log_set(&mut store, other_se, 7, 3);
    sessions::delete(&mut store, sid).unwrap();
    assert!(matches!(sessions::get(&store, sid), Err(AppError::NotFound)));
    // the sibling session is untouched
    let s = sessions::get(&store, other).unwrap();
    assert_eq!(s.exercises.len(), 1);
    assert_eq!(s.exercises[0].sets[0].id, other_set.id);
    assert!(matches!(
        sessions::delete(&mut store, sid),
        Err(AppError::NotFound)
    ));
}

#[test]
fn sets_come_back_ordered_by_number() {
    let mut store = init_memory_db();
    let e = create_exercise(&mut store, "E");
    let sid = freeform_session(&mut store, 1);
    let seid = add_exercise(&mut store, sid, e, None);
    for k in 0..4 {
        log_set(&mut store, seid, k, k as i64);
    }
    let s = sessions::get(&store, sid).unwrap();
    let numbers: Vec<i32> = s.exercises[0].sets.iter().map(|x| x.set_number).collect();
    assert_eq!(numbers, vec![1, 2, 3, 4]);
}

#[test]
fn get_active_tie_prefers_newest() {
    let mut store = init_memory_db();
    let _s1 = freeform_session(&mut store, 100);
    let s2 = freeform_session(&mut store, 100);
    assert_eq!(sessions::get_active(&store).unwrap().unwrap().id, s2);
}

#[test]
fn invalid_status_is_rejected_even_for_missing_session() {
    let mut store = init_memory_db();
    let upd = UpdateSession {
        status: Some("nope".to_string()),
        notes: None,
        paused_duration: None,
        started_at: None,
        ended_at: None,
    };
    assert!(matches!(
        sessions::update(&mut store, 99, &upd, 1),
        Err(AppError::BadRequest(_))
    ));
}

#[test]
fn update_missing_session_is_not_found() {
    let mut store = init_memory_db();
    let upd = UpdateSession {
        status: Some("completed".to_string()),
        notes: None,
        paused_duration: None,
        started_at: None,
        ended_at: None,
    };
    assert!(matches!(
        sessions::update(&mut store, 99, &upd, 1),
        Err(AppError::NotFound)
    ));
    assert!(matches!(sessions::get(&store, 99), Err(AppError::NotFound)));
}

#[test]
fn negative_offset_counts_as_zero() {
    let mut store = init_memory_db();
    let a = freeform_session(&mut store, 10);
    let b = freeform_session(&mut store, 20);
    let page = sessions::list(
        &store,
        &SessionListParams { limit: Some(10), offset: Some(-5), template_id: None },
    )
    .unwrap();
    assert_eq!(page.len(), 2);
    assert_eq!(page[0].id, b);
    assert_eq!(page[1].id, a);
}
