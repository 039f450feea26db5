use filter_lib::la::Builder;
use filter_lib::sim::transient::run::{Action, Run};

fn system(names: &[&str]) -> filter_lib::la::System {
    let mut builder = Builder::new();
    for name in names {
        builder.find_var(name);
    }
    builder.build()
}

#[test]
fn a_run_asks_for_its_steps_in_turn() {
    let mut run: Run<i32> = Run::new(2, 3);
    assert_eq!(run.next(), Action::Solve { step: 0 });
    assert_eq!(run.next(), Action::Solve { step: 0 });
    assert_eq!(run.handle(Some(vec![1, 10])), Action::Solve { step: 1 });
    assert_eq!(run.handle(Some(vec![2, 20])), Action::Solve { step: 2 });
    assert_eq!(run.next(), Action::Solve { step: 2 });
    assert_eq!(run.handle(Some(vec![3, 30])), Action::Finish);
    assert_eq!(run.next(), Action::Finish);
}

#[test]
fn a_finished_run_gives_one_series_for_each_unknown() {
    let mut run: Run<i32> = Run::new(2, 3);
    run.handle(Some(vec![1, 10]));
    run.handle(Some(vec![2, 20]));
    run.handle(Some(vec![3, 30]));
    let named = run.finish(&system(&["V_0", "I_R1"])).unwrap();
    assert_eq!(
        named,
        vec![("V_0".to_owned(), vec![1, 2, 3]), ("I_R1".to_owned(), vec![10, 20, 30])]
    );
}

#[test]
fn a_step_without_solution_ends_the_run() {
    let mut run: Run<i32> = Run::new(1, 5);
    assert_eq!(run.handle(Some(vec![7])), Action::Solve { step: 1 });
    assert_eq!(run.handle(None), Action::Fail { step: 1 });
    assert_eq!(run.next(), Action::Fail { step: 1 });
    assert!(run.finish(&system(&["V_0"])).is_none());
    let mut run: Run<i32> = Run::new(1, 5);
    assert_eq!(run.handle(None), Action::Fail { step: 0 });
}

#[test]
fn a_run_that_is_not_over_gives_no_series() {
    let mut run: Run<i32> = Run::new(1, 2);
    run.handle(Some(vec![7]));
    assert!(run.finish(&system(&["V_0"])).is_none());
}

#[test]
fn a_run_of_no_steps_is_over_at_once() {
    let run: Run<i32> = Run::new(2, 0);
    assert_eq!(run.next(), Action::Finish);
    let named = run.finish(&system(&["a", "b"])).unwrap();
    assert_eq!(named, vec![("a".to_owned(), vec![]), ("b".to_owned(), vec![])]);
    let run: Run<i32> = Run::new(0, 0);
    assert_eq!(run.finish(&system(&[])).unwrap(), vec![]);
}

#[test]
fn a_run_without_unknowns_still_counts_its_steps() {
    let mut run: Run<i32> = Run::new(0, 2);
    assert_eq!(run.handle(Some(vec![])), Action::Solve { step: 1 });
    assert_eq!(run.handle(Some(vec![])), Action::Finish);
}
