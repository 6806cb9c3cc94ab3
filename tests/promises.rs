use anon_targets::analysis::{next, start, Event, Phase, Step};
use anon_targets::anon_target::{AnonTargetKey, RawAttrs, RuleSchema, RuleType};
use anon_targets::attrs::{AttrSpec, AttrType, RawValue};
use anon_targets::binder::{into_batch, keep_going_join, run_promises, Binding};
use anon_targets::error::{AttrError, ProtocolError};
use anon_targets::memo::{Action, MemoTable};
use anon_targets::registry::AnonTargetsRegistry;

fn schema() -> RuleSchema {
    RuleSchema {
        rule_type: RuleType { path: "//r:defs.bzl".to_owned(), name: "r".to_owned() },
        attrs: vec![AttrSpec { name: "v".to_owned(), typ: AttrType::Int, default: None }],
    }
}

fn input(v: i64) -> RawAttrs {
    vec![("v".to_owned(), RawValue::Int(v))]
}

fn key_value(k: &AnonTargetKey) -> i64 {
    match &k.target().attrs()[0].value {
        anon_targets::attrs::AttrValue::Int(i) => *i,
        other => panic!("{:?}", other),
    }
}

fn registry_with_three_singles_and_a_pair() -> AnonTargetsRegistry {
    let mut reg = AnonTargetsRegistry::new("exec".to_owned());
    let sch = schema();
    reg.register_one(10, &sch, &input(1)).unwrap();
    reg.register_one(11, &sch, &input(2)).unwrap();
    reg.register_many(12, &vec![(sch.clone(), input(3)), (sch.clone(), input(4))]).unwrap();
    reg.register_one(13, &sch, &input(5)).unwrap();
    reg
}

#[test]
fn three_singles_and_a_list_bind_four_promises() {
    let mut reg = registry_with_three_singles_and_a_pair();
    assert_eq!(reg.len(), 4);
    let drained = reg.get_promises().unwrap();
    assert!(reg.is_empty());
    let (batch, keys) = into_batch(drained);
    assert_eq!(batch.len(), 5);
    let order: Vec<i64> = keys.iter().map(key_value).collect();
    assert_eq!(order, vec![1, 2, 3, 4, 5]);
    let results: Vec<Result<i64, String>> = keys.iter().map(|k| Ok(key_value(k) * 100)).collect();
    let bound = run_promises(batch, results).unwrap();
    assert_eq!(bound.len(), 4);
    let promises: Vec<u64> = bound.iter().map(|(p, _)| *p).collect();
    assert_eq!(promises, vec![10, 11, 12, 13]);
    assert!(matches!(bound[0].1, Binding::Single(100)));
    assert!(matches!(bound[1].1, Binding::Single(200)));
    match &bound[2].1 {
        Binding::List(xs) => assert_eq!(xs, &vec![300, 400]),
        other => panic!("{:?}", other),
    }
    assert!(matches!(bound[3].1, Binding::Single(500)));
}

#[test]
fn a_failing_key_binds_nothing() {
    let mut reg = registry_with_three_singles_and_a_pair();
    let (batch, keys) = into_batch(reg.get_promises().unwrap());
    let results: Vec<Result<i64, String>> = keys
        .iter()
        .map(|k| if key_value(k) == 4 { Err("dependency failed".to_owned()) } else { Ok(0) })
        .collect();
    let err = run_promises(batch, results).unwrap_err();
    assert_eq!(err.failures, vec![(3usize, "dependency failed".to_owned())]);
}

#[test]
fn keep_going_collects_every_failure() {
    let results: Vec<Result<u8, String>> = vec![Err("a".to_owned()), Ok(1), Err("b".to_owned())];
    let err = keep_going_join(results).unwrap_err();
    assert_eq!(err.failures, vec![(0usize, "a".to_owned()), (2usize, "b".to_owned())]);
    assert_eq!(keep_going_join::<u8>(vec![Ok(1), Ok(2)]).unwrap(), vec![1, 2]);
    assert_eq!(keep_going_join::<u8>(vec![]).unwrap(), Vec::<u8>::new());
}

#[test]
fn drain_of_empty_registry_is_none() {
    let mut reg = AnonTargetsRegistry::new("exec".to_owned());
    assert!(reg.get_promises().is_none());
    assert!(reg.assert_no_promises().is_ok());
    reg.register_one(1, &schema(), &input(1)).unwrap();
    assert_eq!(reg.assert_no_promises(), Err(ProtocolError::PendingRegistrations));
    let taken = reg.get_promises().unwrap();
    assert_eq!(taken.len(), 1);
    assert!(reg.assert_no_promises().is_ok());
    reg.register_one(2, &schema(), &input(2)).unwrap();
    assert_eq!(reg.len(), 1);
}

#[test]
fn register_many_is_all_or_nothing() {
    let mut reg = AnonTargetsRegistry::new("exec".to_owned());
    let sch = schema();
    let bad = vec![("v".to_owned(), RawValue::Str("x".to_owned()))];
    let res = reg.register_many(1, &vec![(sch.clone(), input(1)), (sch.clone(), bad)]);
    assert!(matches!(res, Err(AttrError::WrongType(_, _))));
    assert!(reg.is_empty());
    assert!(reg.register_one(2, &sch, &vec![]).is_err());
    assert!(reg.is_empty());
}

#[test]
fn identical_descriptors_compute_once() {
    let sch = schema();
    let mut memo: MemoTable<i64> = MemoTable::new();
    let a = AnonTargetKey::new(&sch, &input(7), &"e".to_owned()).unwrap();
    let b = AnonTargetKey::new(&sch, &input(7), &"e".to_owned()).unwrap();
    let c = AnonTargetKey::new(&sch, &input(8), &"e".to_owned()).unwrap();
    assert_eq!(memo.request(a.clone()), Action::Compute);
    assert_eq!(memo.request(b.clone()), Action::Wait);
    assert_eq!(memo.request(c.clone()), Action::Compute);
    assert!(memo.get(&b).is_none());
    memo.complete(&a, 42);
    assert_eq!(memo.request(b.clone()), Action::Ready);
    assert_eq!(memo.get(&b), Some(&42));
    assert!(memo.get(&c).is_none());
}

#[test]
fn analysis_steps_in_order() {
    let (mut p, s) = start();
    assert_eq!((p, s), (Phase::Deps, Step::ResolveDeps));
    let mut steps = vec![];
    for e in [
        Event::Succeeded,
        Event::Succeeded,
        Event::Succeeded,
        Event::Drained(true),
        Event::Drained(true),
        Event::Drained(false),
        Event::Succeeded,
    ] {
        let (q, s) = next(p, e);
        p = q;
        steps.push(s);
    }
    assert_eq!(
        steps,
        vec![
            Step::ResolvePlatform,
            Step::InvokeRule,
            Step::DrainPromises,
            Step::DrainPromises,
            Step::DrainPromises,
            Step::Finalize,
            Step::Finish
        ]
    );
    assert_eq!(p, Phase::Done);
}

#[test]
fn analysis_failure_aborts() {
    assert_eq!(next(Phase::Deps, Event::Failed), (Phase::Failed, Step::Abort));
    assert_eq!(next(Phase::Rule, Event::Drained(false)), (Phase::Failed, Step::Abort));
    assert_eq!(next(Phase::Failed, Event::Succeeded), (Phase::Failed, Step::Abort));
}
