use lightweight_core::db::init_memory_db;
use lightweight_core::error::AppError;
use lightweight_core::exercises;
use lightweight_core::models::{
    CreateExercise, CreateTemplate, CreateTemplateExercise, UpdateExercise, UpdateTemplate,
};
use lightweight_core::store::Store;
use lightweight_core::templates;

fn new_exercise(name: &str) -> CreateExercise {
    CreateExercise {
        name: name.to_string(),
        muscle_group: None,
        equipment: None,
        notes: None,
    }
}

fn create_exercise(store: &mut Store, name: &str) -> i64 {
    exercises::create(store, &new_exercise(name), 100).unwrap().id
}

#[test]
fn create_and_get_exercise() {
    let mut store = init_memory_db();
    let input = CreateExercise {
        name: "Bench Press".to_string(),
        muscle_group: Some("chest".to_string()),
        equipment: Some("barbell".to_string()),
        notes: Some("flat".to_string()),
    };
    let ex = exercises::create(&mut store, &input, 123).unwrap();
    assert_eq!(ex.name, "Bench Press");
    assert_eq!(ex.muscle_group.as_deref(), Some("chest"));
    assert_eq!(ex.equipment.as_deref(), Some("barbell"));
    assert_eq!(ex.notes.as_deref(), Some("flat"));
    assert!(!ex.archived);
    assert_eq!(ex.created_at, 123);
    let back = exercises::get(&store, ex.id).unwrap();
    assert_eq!(back.name, "Bench Press");
    assert_eq!(back.id, ex.id);
}

#[test]
fn get_missing_exercise_is_not_found() {
    let store = init_memory_db();
    assert!(matches!(exercises::get(&store, 7), Err(AppError::NotFound)));
}

#[test]
fn duplicate_exercise_name_is_conflict() {
    let mut store = init_memory_db();
    create_exercise(&mut store, "Squat");
    let dup = exercises::create(&mut store, &new_exercise("Squat"), 101);
    assert!(matches!(dup, Err(AppError::AlreadyExists)));
}

#[test]
fn list_is_sorted_by_name() {
    let mut store = init_memory_db();
    create_exercise(&mut store, "Deadlift");
    create_exercise(&mut store, "Bench Press");
    create_exercise(&mut store, "Squat");
    let names: Vec<String> = exercises::list(&store)
        .unwrap()
        .into_iter()
        .map(|e| e.name)
        .collect();
    assert_eq!(names, vec!["Bench Press", "Deadlift", "Squat"]);
}

#[test]
fn list_never_returns_archived_and_name_is_freed() {
    let mut store = init_memory_db();
    let id = create_exercise(&mut store, "Row");
    create_exercise(&mut store, "Curl");
    exercises::archive(&mut store, id).unwrap();
    let listed = exercises::list(&store).unwrap();
    assert_eq!(listed.len(), 1);
    assert_eq!(listed[0].name, "Curl");
    assert!(listed.iter().all(|e| !e.archived));
    // the archived row is still reachable by id
    assert!(exercises::get(&store, id).unwrap().archived);
    // re-creating the archived name succeeds
    let again = exercises::create(&mut store, &new_exercise("Row"), 102).unwrap();
    assert_ne!(again.id, id);
}

#[test]
fn archive_missing_exercise_is_not_found() {
    let mut store = init_memory_db();
    assert!(matches!(
        exercises::archive(&mut store, 3),
        Err(AppError::NotFound)
    ));
}

#[test]
fn update_applies_only_supplied_fields() {
    let mut store = init_memory_db();
    let id = {
        let input = CreateExercise {
            name: "Press".to_string(),
            muscle_group: Some("shoulders".to_string()),
            equipment: None,
            notes: None,
        };
        exercises::create(&mut store, &input, 100).unwrap().id
    };
    let upd = UpdateExercise {
        name: None,
        muscle_group: None,
        equipment: Some("dumbbell".to_string()),
        notes: None,
    };
    let ex = exercises::update(&mut store, id, &upd).unwrap();
    assert_eq!(ex.name, "Press");
    assert_eq!(ex.muscle_group.as_deref(), Some("shoulders"));
    assert_eq!(ex.equipment.as_deref(), Some("dumbbell"));
    assert!(matches!(
        exercises::update(&mut store, 99, &UpdateExercise { name: None, muscle_group: None, equipment: None, notes: None }),
        Err(AppError::NotFound)
    ));
}

#[test]
fn rename_to_live_name_is_conflict() {
    let mut store = init_memory_db();
    create_exercise(&mut store, "Squat");
    let id = create_exercise(&mut store, "Lunge");
    let upd = UpdateExercise {
        name: Some("Squat".to_string()),
        muscle_group: None,
        equipment: None,
        notes: None,
    };
    assert!(matches!(
        exercises::update(&mut store, id, &upd),
        Err(AppError::AlreadyExists)
    ));
}

fn spec_for(exercise_id: i64, position: i32, target_sets: Option<i32>) -> CreateTemplateExercise {
    CreateTemplateExercise {
        exercise_id,
        position,
        target_sets,
        target_reps_min: None,
        target_reps_max: None,
        rest_seconds: None,
        notes: None,
    }
}

#[test]
fn create_template_with_specs() {
    let mut store = init_memory_db();
    let bench = create_exercise(&mut store, "Bench Press");
    let fly = create_exercise(&mut store, "Fly");
    let input = CreateTemplate {
        name: "Push Day".to_string(),
        notes: None,
        exercises: vec![spec_for(fly, 2, None), spec_for(bench, 1, Some(3))],
    };
    let t = templates::create(&mut store, &input, 200).unwrap();
    assert_eq!(t.name, "Push Day");
    assert_eq!(t.created_at, 200);
    assert_eq!(t.updated_at, 200);
    // specs come back ordered by position, joined with names
    assert_eq!(t.exercises.len(), 2);
    assert_eq!(t.exercises[0].position, 1);
    assert_eq!(t.exercises[0].exercise_name, "Bench Press");
    assert_eq!(t.exercises[0].target_sets, Some(3));
    assert_eq!(t.exercises[1].position, 2);
    assert_eq!(t.exercises[1].exercise_name, "Fly");
}

#[test]
fn template_with_unknown_exercise_is_not_found() {
    let mut store = init_memory_db();
    let input = CreateTemplate {
        name: "Ghost".to_string(),
        notes: None,
        exercises: vec![spec_for(42, 1, None)],
    };
    assert!(matches!(
        templates::create(&mut store, &input, 200),
        Err(AppError::NotFound)
    ));
}

#[test]
fn duplicate_template_name_is_conflict() {
    let mut store = init_memory_db();
    let t = CreateTemplate {
        name: "Legs".to_string(),
        notes: None,
        exercises: vec![],
    };
    templates::create(&mut store, &t, 1).unwrap();
    assert!(matches!(
        templates::create(&mut store, &t, 2),
        Err(AppError::AlreadyExists)
    ));
}

#[test]
fn template_update_replaces_spec_list() {
    let mut store = init_memory_db();
    let a = create_exercise(&mut store, "A");
    let b = create_exercise(&mut store, "B");
    let tid = templates::create(
        &mut store,
        &CreateTemplate {
            name: "Day".to_string(),
            notes: None,
            exercises: vec![spec_for(a, 1, Some(5)), spec_for(b, 2, None)],
        },
        10,
    )
    .unwrap()
    .id;
    // full replace: the old two specs disappear, the one new spec remains
    let upd = UpdateTemplate {
        name: None,
        notes: None,
        exercises: Some(vec![spec_for(b, 7, Some(4))]),
    };
    let t = templates::update(&mut store, tid, &upd, 20).unwrap();
    assert_eq!(t.exercises.len(), 1);
    assert_eq!(t.exercises[0].exercise_name, "B");
    assert_eq!(t.exercises[0].position, 7);
    assert_eq!(t.exercises[0].target_sets, Some(4));
    assert_eq!(t.updated_at, 20);
    assert_eq!(t.created_at, 10);
}

#[test]
fn template_update_without_specs_keeps_them() {
    let mut store = init_memory_db();
    let a = create_exercise(&mut store, "A");
    let tid = templates::create(
        &mut store,
        &CreateTemplate {
            name: "Day".to_string(),
            notes: None,
            exercises: vec![spec_for(a, 1, None)],
        },
        10,
    )
    .unwrap()
    .id;
    let upd = UpdateTemplate {
        name: Some("Renamed".to_string()),
        notes: None,
        exercises: None,
    };
    let t = templates::update(&mut store, tid, &upd, 30).unwrap();
    assert_eq!(t.name, "Renamed");
    assert_eq!(t.exercises.len(), 1);
    assert_eq!(t.updated_at, 30);
}

#[test]
fn template_archive_hides_and_frees_name() {
    let mut store = init_memory_db();
    let tid = templates::create(
        &mut store,
        &CreateTemplate {
            name: "Pull".to_string(),
            notes: None,
            exercises: vec![],
        },
        1,
    )
    .unwrap()
    .id;
    templates::archive(&mut store, tid).unwrap();
    assert!(templates::list(&store).unwrap().is_empty());
    // archived template still reachable by id
    assert!(templates::get(&store, tid).unwrap().archived);
    // name freed
    templates::create(
        &mut store,
        &CreateTemplate {
            name: "Pull".to_string(),
            notes: None,
            exercises: vec![],
        },
        2,
    )
    .unwrap();
}

#[test]
fn template_list_is_sorted_by_name() {
    let mut store = init_memory_db();
    for name in ["Push", "Legs", "Pull"] {
        templates::create(
            &mut store,
            &CreateTemplate {
                name: name.to_string(),
                notes: None,
                exercises: vec![],
            },
            1,
        )
        .unwrap();
    }
    let names: Vec<String> = templates::list(&store)
        .unwrap()
        .into_iter()
        .map(|t| t.name)
        .collect();
    assert_eq!(names, vec!["Legs", "Pull", "Push"]);
}

#[test]
fn find_migrations_dir_picks_first_existing() {
    assert_eq!(
        lightweight_core::db::find_migrations_dir(&vec![false, true, true, false]),
        "../migrations"
    );
    assert_eq!(lightweight_core::db::find_migrations_dir(&vec![true, false, false, false]), "migrations");
    assert_eq!(
        lightweight_core::db::find_migrations_dir(&vec![false, false, false, true]),
        "../../../migrations"
    );
    assert_eq!(lightweight_core::db::find_migrations_dir(&vec![false, false, false, false]), "migrations");
}

#[test]
fn name_order_is_byte_wise() {
    // uppercase letters sort before lowercase ones, as a byte-wise
    // comparison of the names gives
    let mut store = init_memory_db();
    create_exercise(&mut store, "apple press");
    create_exercise(&mut store, "Zebra walk");
    let names: Vec<String> = exercises::list(&store)
        .unwrap()
        .into_iter()
        .map(|e| e.name)
        .collect();
    assert_eq!(names, vec!["Zebra walk", "apple press"]);
}

#[test]
fn archiving_twice_is_not_found() {
    let mut store = init_memory_db();
    let id = create_exercise(&mut store, "Row");
    exercises::archive(&mut store, id).unwrap();
    // an already-archived exercise counts as gone
    assert!(matches!(
        exercises::archive(&mut store, id),
        Err(AppError::NotFound)
    ));
    let tid = templates::create(
        &mut store,
        &CreateTemplate {
            name: "Pull".to_string(),
            notes: None,
            exercises: vec![],
        },
        1,
    )
    .unwrap()
    .id;
    templates::archive(&mut store, tid).unwrap();
    assert!(matches!(
        templates::archive(&mut store, tid),
        Err(AppError::NotFound)
    ));
}
