use sqlx_migrator::engine::{EngineAction, Phase, Run, RunEvent};
use sqlx_migrator::error::Error;
use sqlx_migrator::graph::build_graph;
use sqlx_migrator::migration::{MigrationId, MigrationNode};
use sqlx_migrator::plan::{applied_flags, compute_plan, Direction, Request};
use sqlx_migrator::lock::u32_decimal;
use sqlx_migrator::{mysql, postgres, sqlite};

fn id(app: &str, name: &str) -> MigrationId {
    MigrationId::new(app.to_string(), name.to_string())
}

fn node(app: &str, name: &str, parents: Vec<MigrationId>, ops: usize) -> MigrationNode {
    MigrationNode::new(id(app, name), parents, ops)
}

#[test]
fn apply_all_orders_parent_before_child() {
    // B declares A as parent; registration order is B first.
    let g = build_graph(vec![
        node("app", "b", vec![id("app", "a")], 1),
        node("app", "a", vec![], 1),
    ])
    .unwrap();
    let applied = vec![false, false];
    let plan = compute_plan(&g, &applied, &Request::ApplyAll).unwrap();
    assert_eq!(plan.len(), 2);
    assert!(plan[0].id == id("app", "a"));
    assert!(plan[1].id == id("app", "b"));
    assert_eq!(plan[0].dir, Direction::Up);
    assert_eq!(plan[1].dir, Direction::Up);
}

#[test]
fn apply_up_to_stops_at_target() {
    let g = build_graph(vec![
        node("app", "a", vec![], 1),
        node("app", "b", vec![id("app", "a")], 1),
    ])
    .unwrap();
    let applied = vec![false, false];
    let plan = compute_plan(&g, &applied, &Request::ApplyUpTo(id("app", "a"))).unwrap();
    assert_eq!(plan.len(), 1);
    assert!(plan[0].id == id("app", "a"));
    assert_eq!(plan[0].dir, Direction::Up);
}

#[test]
fn second_apply_all_is_empty() {
    let g = build_graph(vec![
        node("app", "a", vec![], 1),
        node("app", "b", vec![id("app", "a")], 1),
    ])
    .unwrap();
    let mut applied = vec![false, false];
    let plan = compute_plan(&g, &applied, &Request::ApplyAll).unwrap();
    for step in &plan {
        applied[step.node] = true;
    }
    let again = compute_plan(&g, &applied, &Request::ApplyAll).unwrap();
    assert!(again.is_empty());
}

#[test]
fn revert_all_reverses_apply_order_and_empties_applied() {
    let g = build_graph(vec![
        node("app", "a", vec![], 1),
        node("app", "b", vec![id("app", "a")], 1),
        node("app", "c", vec![id("app", "b")], 1),
    ])
    .unwrap();
    let mut applied = vec![false, false, false];
    let up = compute_plan(&g, &applied, &Request::ApplyAll).unwrap();
    for step in &up {
        applied[step.node] = true;
    }
    let down = compute_plan(&g, &applied, &Request::RevertAll).unwrap();
    assert_eq!(down.len(), up.len());
    for (k, step) in down.iter().enumerate() {
        assert_eq!(step.node, up[up.len() - 1 - k].node);
        assert_eq!(step.dir, Direction::Down);
    }
    for step in &down {
        applied[step.node] = false;
    }
    assert!(applied.iter().all(|a| !a));
}

#[test]
fn revert_one_with_applied_dependent_fails() {
    let g = build_graph(vec![
        node("app", "a", vec![], 1),
        node("app", "b", vec![id("app", "a")], 1),
    ])
    .unwrap();
    let applied = vec![true, true];
    let r = compute_plan(&g, &applied, &Request::RevertOne(id("app", "a")));
    match r {
        Err(Error::Dependency { target, dependent }) => {
            assert!(target == id("app", "a"));
            assert!(dependent == id("app", "b"));
        }
        _ => panic!("expected a dependency error"),
    }
    // planning never touched the applied flags
    assert_eq!(applied, vec![true, true]);
}

#[test]
fn revert_one_leaf_removes_exactly_one() {
    let g = build_graph(vec![
        node("app", "a", vec![], 1),
        node("app", "b", vec![id("app", "a")], 1),
    ])
    .unwrap();
    let applied = vec![true, true];
    let plan = compute_plan(&g, &applied, &Request::RevertOne(id("app", "b"))).unwrap();
    assert_eq!(plan.len(), 1);
    assert!(plan[0].id == id("app", "b"));
    assert_eq!(plan[0].dir, Direction::Down);
}

#[test]
fn revert_one_unapplied_is_empty() {
    let g = build_graph(vec![node("app", "a", vec![], 1)]).unwrap();
    let applied = vec![false];
    let plan = compute_plan(&g, &applied, &Request::RevertOne(id("app", "a"))).unwrap();
    assert!(plan.is_empty());
}

#[test]
fn failed_forward_resumes_with_remaining_only() {
    // A committed, then B's forward operation failed: A stays applied, B
    // stays unapplied, and the next apply-all plans exactly B.
    let g = build_graph(vec![
        node("app", "a", vec![], 1),
        node("app", "b", vec![id("app", "a")], 1),
    ])
    .unwrap();
    let applied = vec![true, false];
    let plan = compute_plan(&g, &applied, &Request::ApplyAll).unwrap();
    assert_eq!(plan.len(), 1);
    assert!(plan[0].id == id("app", "b"));
    assert_eq!(plan[0].dir, Direction::Up);
}

#[test]
fn cycle_fails_graph_construction_naming_a_node() {
    let r = build_graph(vec![
        node("app", "a", vec![id("app", "b")], 1),
        node("app", "b", vec![id("app", "a")], 1),
    ]);
    match r {
        Err(Error::Cycle(ids)) => {
            assert!(!ids.is_empty());
            for named in &ids {
                assert!(*named == id("app", "a") || *named == id("app", "b"));
            }
        }
        _ => panic!("expected a cycle error"),
    }
}

#[test]
fn duplicate_identity_fails_graph_construction() {
    let r = build_graph(vec![node("app", "a", vec![], 1), node("app", "a", vec![], 1)]);
    match r {
        Err(Error::DuplicateIdentity(d)) => assert!(d == id("app", "a")),
        _ => panic!("expected a duplicate-identity error"),
    }
}

#[test]
fn missing_parent_fails_graph_construction() {
    let r = build_graph(vec![node("app", "a", vec![id("app", "ghost")], 1)]);
    match r {
        Err(Error::MissingParent { child, parent }) => {
            assert!(child == id("app", "a"));
            assert!(parent == id("app", "ghost"));
        }
        _ => panic!("expected a missing-parent error"),
    }
}

#[test]
fn full_order_respects_edges_and_breaks_ties_lexically() {
    let g = build_graph(vec![
        node("zeta", "m", vec![], 1),
        node("alpha", "m", vec![], 1),
        node("alpha", "n", vec![id("zeta", "m")], 1),
    ])
    .unwrap();
    let order = g.full_order().clone();
    assert_eq!(order.len(), 3);
    // lexically least eligible first
    assert!(g.node_at(order[0]).id == id("alpha", "m"));
    assert!(g.node_at(order[1]).id == id("zeta", "m"));
    assert!(g.node_at(order[2]).id == id("alpha", "n"));
}

#[test]
fn unknown_target_is_reported() {
    let g = build_graph(vec![node("app", "a", vec![], 1)]).unwrap();
    let applied = vec![false];
    let r = compute_plan(&g, &applied, &Request::ApplyUpTo(id("app", "missing")));
    match r {
        Err(Error::UnknownTarget(u)) => assert!(u == id("app", "missing")),
        _ => panic!("expected an unknown-target error"),
    }
}

#[test]
fn unregistered_applied_record_is_a_state_inconsistency() {
    let g = build_graph(vec![node("app", "a", vec![], 1)]).unwrap();
    let r = applied_flags(&g, &vec![id("app", "stale")]);
    match r {
        Err(Error::StateInconsistency(bad)) => assert!(bad == id("app", "stale")),
        _ => panic!("expected a state-inconsistency error"),
    }
}

#[test]
fn applied_flags_mark_recorded_ids() {
    let g = build_graph(vec![
        node("app", "a", vec![], 1),
        node("app", "b", vec![id("app", "a")], 1),
    ])
    .unwrap();
    let flags = applied_flags(&g, &vec![id("app", "b")]).unwrap();
    let a = g.index_of(&id("app", "a")).unwrap();
    let b = g.index_of(&id("app", "b")).unwrap();
    assert!(!flags[a]);
    assert!(flags[b]);
}

#[test]
fn engine_runs_whole_plan_under_the_lock() {
    let g = build_graph(vec![
        node("app", "a", vec![], 1),
        node("app", "b", vec![id("app", "a")], 1),
    ])
    .unwrap();
    let run = Run::new(g, Request::ApplyAll);
    assert!(!run.lock_held);
    let (run, a) = run.advance(RunEvent::Kick);
    assert!(matches!(a, EngineAction::AcquireLock));
    let (run, a) = run.advance(RunEvent::Succeeded);
    assert!(matches!(a, EngineAction::EnsureTable));
    assert!(run.lock_held);
    let (run, a) = run.advance(RunEvent::Succeeded);
    assert!(matches!(a, EngineAction::FetchApplied));
    let (run, a) = run.advance(RunEvent::Fetched(vec![]));
    assert!(matches!(a, EngineAction::BeginStep));
    assert_eq!(run.plan.len(), 2);
    let (run, a) = run.advance(RunEvent::Succeeded);
    assert!(matches!(a, EngineAction::RunOperation { step: 0, op: 0 }));
    assert!(run.lock_held);
    let (run, a) = run.advance(RunEvent::Succeeded);
    assert!(matches!(a, EngineAction::RecordApplied { step: 0 }));
    let (run, a) = run.advance(RunEvent::Succeeded);
    assert!(matches!(a, EngineAction::CommitStep));
    let (run, a) = run.advance(RunEvent::Succeeded);
    assert!(matches!(a, EngineAction::BeginStep));
    assert!(run.applied[run.plan[0].node]);
    let (run, a) = run.advance(RunEvent::Succeeded);
    assert!(matches!(a, EngineAction::RunOperation { step: 1, op: 0 }));
    let (run, a) = run.advance(RunEvent::Succeeded);
    assert!(matches!(a, EngineAction::RecordApplied { step: 1 }));
    let (run, a) = run.advance(RunEvent::Succeeded);
    assert!(matches!(a, EngineAction::CommitStep));
    let (run, a) = run.advance(RunEvent::Succeeded);
    assert!(matches!(a, EngineAction::ReleaseLock));
    assert!(run.applied.iter().all(|x| *x));
    let (run, a) = run.advance(RunEvent::Succeeded);
    assert!(matches!(a, EngineAction::Stop));
    assert!(!run.lock_held);
    assert_eq!(run.phase, Phase::Finished);
    assert!(run.failure.is_none());
    assert!(run.release_failure.is_none());
}

#[test]
fn engine_rolls_back_failed_step_and_halts_remaining_plan() {
    let g = build_graph(vec![
        node("app", "a", vec![], 1),
        node("app", "b", vec![id("app", "a")], 1),
    ])
    .unwrap();
    let run = Run::new(g, Request::ApplyAll);
    let (run, _) = run.advance(RunEvent::Kick);
    let (run, _) = run.advance(RunEvent::Succeeded);
    let (run, _) = run.advance(RunEvent::Succeeded);
    let (run, _) = run.advance(RunEvent::Fetched(vec![]));
    // step 0 (migration a): begin, run, record, commit
    let (run, _) = run.advance(RunEvent::Succeeded);
    let (run, _) = run.advance(RunEvent::Succeeded);
    let (run, _) = run.advance(RunEvent::Succeeded);
    let (run, _) = run.advance(RunEvent::Succeeded);
    // step 1 (migration b): begin succeeds, operation fails
    let (run, a) = run.advance(RunEvent::Succeeded);
    assert!(matches!(a, EngineAction::RunOperation { step: 1, op: 0 }));
    let (run, a) = run.advance(RunEvent::Failed {
        kind: "statement".to_string(),
        message: "boom".to_string(),
    });
    assert!(matches!(a, EngineAction::RollbackStep));
    let (run, a) = run.advance(RunEvent::Succeeded);
    assert!(matches!(a, EngineAction::ReleaseLock));
    let (run, a) = run.advance(RunEvent::Succeeded);
    assert!(matches!(a, EngineAction::Stop));
    // a stays applied, b stays unapplied
    let ia = run.graph.index_of(&id("app", "a")).unwrap();
    let ib = run.graph.index_of(&id("app", "b")).unwrap();
    assert!(run.applied[ia]);
    assert!(!run.applied[ib]);
    assert!(matches!(run.failure, Some(Error::Storage { .. })));
    // the failing step and operation index are remembered
    assert_eq!(run.failed_step, Some(1));
    assert_eq!(run.failed_op, Some(0));
    assert!(run.release_failure.is_none());
    // resumption plans exactly b
    let plan = compute_plan(&run.graph, &run.applied, &Request::ApplyAll).unwrap();
    assert_eq!(plan.len(), 1);
    assert!(plan[0].id == id("app", "b"));
}

#[test]
fn revert_to_keeps_target_and_its_ancestors() {
    let g = build_graph(vec![
        node("app", "a", vec![], 1),
        node("app", "b", vec![id("app", "a")], 1),
        node("app", "c", vec![id("app", "b")], 1),
    ])
    .unwrap();
    let applied = vec![true, true, true];
    let plan = compute_plan(&g, &applied, &Request::RevertTo(id("app", "b"))).unwrap();
    assert_eq!(plan.len(), 1);
    assert!(plan[0].id == id("app", "c"));
    assert_eq!(plan[0].dir, Direction::Down);
}

#[test]
fn postgres_query_strings() {
    assert_eq!(
        postgres::create_migrator_table_query("m").as_str(),
        "CREATE TABLE IF NOT EXISTS m (\n        id INT PRIMARY KEY NOT NULL GENERATED ALWAYS AS IDENTITY,\n        app TEXT NOT NULL,\n        name TEXT NOT NULL,\n        applied_time TIMESTAMPTZ NOT NULL DEFAULT now(),\n        UNIQUE (app, name)\n    )"
    );
    assert_eq!(postgres::drop_table_query("m").as_str(), "DROP TABLE IF EXISTS m");
    assert_eq!(
        postgres::add_migration_query("m").as_str(),
        "INSERT INTO m(app, name) VALUES ($1, $2)"
    );
    assert_eq!(
        postgres::delete_migration_query("m").as_str(),
        "DELETE FROM m WHERE app = $1 AND name = $2"
    );
    assert_eq!(postgres::lock_database_query(), "SELECT pg_advisory_lock($1)");
    assert_eq!(postgres::unlock_database_query(), "SELECT pg_advisory_unlock($1)");
}

#[test]
fn mysql_query_strings() {
    assert_eq!(
        mysql::create_migrator_table_query("m").as_str(),
        "CREATE TABLE IF NOT EXISTS m (\n        id INT PRIMARY KEY NOT NULL AUTO_INCREMENT,\n        app VARCHAR(384) NOT NULL,\n        name VARCHAR(384) NOT NULL,\n        applied_time TIMESTAMP NOT NULL DEFAULT CURRENT_TIMESTAMP,\n        UNIQUE (app, name)\n    )"
    );
    assert_eq!(mysql::drop_table_query("m").as_str(), "DROP TABLE IF EXISTS m");
    assert_eq!(mysql::add_migration_query("m").as_str(), "INSERT INTO m(app, name) VALUES (?, ?)");
    assert_eq!(
        mysql::delete_migration_query("m").as_str(),
        "DELETE FROM m WHERE app = ? AND name = ?"
    );
    assert_eq!(mysql::lock_database_query(), "SELECT GET_LOCK(?, -1)");
    assert_eq!(mysql::unlock_database_query(), "SELECT RELEASE_LOCK(?)");
}

#[test]
fn sqlite_query_strings() {
    assert_eq!(
        sqlite::create_migrator_table_query("m").as_str(),
        "CREATE TABLE IF NOT EXISTS m (\n        id INTEGER PRIMARY KEY AUTOINCREMENT,\n        app TEXT NOT NULL,\n        name TEXT NOT NULL,\n        applied_time TIMESTAMP NOT NULL DEFAULT CURRENT_TIMESTAMP,\n        UNIQUE (app, name)\n    )"
    );
    assert_eq!(sqlite::drop_table_query("m").as_str(), "DROP TABLE IF EXISTS m");
    assert_eq!(
        sqlite::add_migration_query("m").as_str(),
        "INSERT INTO m(app, name) VALUES ($1, $2)"
    );
    assert_eq!(
        sqlite::delete_migration_query("m").as_str(),
        "DELETE FROM m WHERE app = $1 AND name = $2"
    );
}

#[test]
fn lock_ids_are_the_crc32_of_the_database_name() {
    assert_eq!(postgres::lock_id("db"), 3824466984i64);
    assert_eq!(postgres::lock_id("mydb"), 285543882i64);
    assert_eq!(mysql::lock_id("db").as_str(), "3824466984");
    assert_eq!(mysql::lock_id("mydb").as_str(), "285543882");
}

#[test]
fn decimal_rendering_handles_edges() {
    assert_eq!(u32_decimal(0).as_str(), "0");
    assert_eq!(u32_decimal(7).as_str(), "7");
    assert_eq!(u32_decimal(1000).as_str(), "1000");
    assert_eq!(u32_decimal(u32::MAX).as_str(), "4294967295");
}

#[test]
fn single_node_graph_round_trip() {
    let g = build_graph(vec![node("app", "only", vec![], 0)]).unwrap();
    let mut applied = vec![false];
    let up = compute_plan(&g, &applied, &Request::ApplyAll).unwrap();
    assert_eq!(up.len(), 1);
    applied[up[0].node] = true;
    let down = compute_plan(&g, &applied, &Request::RevertAll).unwrap();
    assert_eq!(down.len(), 1);
    assert_eq!(down[0].dir, Direction::Down);
}

#[test]
fn empty_registration_plans_nothing() {
    let g = build_graph(vec![]).unwrap();
    let applied: Vec<bool> = vec![];
    let plan = compute_plan(&g, &applied, &Request::ApplyAll).unwrap();
    assert!(plan.is_empty());
}

#[test]
fn engine_releases_immediately_when_nothing_is_pending() {
    let g = build_graph(vec![node("app", "a", vec![], 1)]).unwrap();
    let run = Run::new(g, Request::ApplyAll);
    let (run, _) = run.advance(RunEvent::Kick);
    let (run, _) = run.advance(RunEvent::Succeeded);
    let (run, _) = run.advance(RunEvent::Succeeded);
    // the one migration is already applied: the plan is empty
    let (run, a) = run.advance(RunEvent::Fetched(vec![id("app", "a")]));
    assert!(matches!(a, EngineAction::ReleaseLock));
    assert!(run.plan.is_empty());
    let (run, a) = run.advance(RunEvent::Succeeded);
    assert!(matches!(a, EngineAction::Stop));
    assert!(run.failure.is_none());
}

#[test]
fn engine_reports_release_failure_without_overturning_the_run() {
    let g = build_graph(vec![node("app", "a", vec![], 1)]).unwrap();
    let run = Run::new(g, Request::ApplyAll);
    let (run, _) = run.advance(RunEvent::Kick);
    let (run, _) = run.advance(RunEvent::Succeeded);
    let (run, _) = run.advance(RunEvent::Succeeded);
    let (run, _) = run.advance(RunEvent::Fetched(vec![id("app", "a")]));
    let (run, a) = run.advance(RunEvent::Failed {
        kind: "lock".to_string(),
        message: "release refused".to_string(),
    });
    assert!(matches!(a, EngineAction::Stop));
    assert!(run.failure.is_none());
    assert!(matches!(run.release_failure, Some(Error::Lock { .. })));
    assert!(!run.lock_held);
}
