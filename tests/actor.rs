use class_scheduling::actor::{eligible_moods, Action, Actor, Mood};
use class_scheduling::codec::{Class, EnrollError, Student};

fn class(name: &str) -> Class {
    Class(name.to_string())
}

fn names(v: &[Class]) -> Vec<String> {
    v.iter().map(|c| c.0.clone()).collect()
}

#[test]
fn moods_by_class_count() {
    assert_eq!(eligible_moods(0), vec![Mood::Add]);
    assert_eq!(eligible_moods(3), vec![Mood::Dropout, Mood::Switch, Mood::Add]);
    assert_eq!(eligible_moods(5), vec![Mood::Dropout, Mood::Switch]);
}

#[test]
fn new_student_can_only_add() {
    let mut a = Actor::new(Student("s0".to_string()), 7);
    assert_eq!(a.student().0, "s0");
    assert!(a.needs_refill());
    for _ in 0..20 {
        assert_eq!(a.choose_mood(), Mood::Add);
    }
}

#[test]
fn plan_picks_from_the_right_lists() {
    let mut a = Actor::new(Student("s0".to_string()), 42);
    a.refill(vec![class("x"), class("y")]);
    assert!(!a.needs_refill());
    for _ in 0..20 {
        match a.plan(Mood::Add) {
            Action::Signup(c) => assert!(c.0 == "x" || c.0 == "y"),
            other => panic!("unexpected {:?}", other),
        }
    }
    assert_eq!(a.on_signup(&class("x"), Ok(())), Ok(()));
    match a.plan(Mood::Dropout) {
        Action::Dropout(c) => assert_eq!(c.0, "x"),
        other => panic!("unexpected {:?}", other),
    }
    match a.plan(Mood::Switch) {
        Action::Switch(o, n) => {
            assert_eq!(o.0, "x");
            assert!(n.0 == "x" || n.0 == "y");
        }
        other => panic!("unexpected {:?}", other),
    }
}

#[test]
fn signup_outcomes() {
    let mut a = Actor::new(Student("s0".to_string()), 1);
    a.refill(vec![class("x")]);
    assert_eq!(a.on_signup(&class("x"), Ok(())), Ok(()));
    assert_eq!(names(&a.my_classes()), vec!["x".to_string()]);
    assert_eq!(a.on_signup(&class("x"), Err(EnrollError::AlreadyEnrolled)), Ok(()));
    assert_eq!(names(&a.my_classes()), vec!["x".to_string()]);
    assert!(!a.needs_refill());
    assert_eq!(a.on_signup(&class("y"), Err(EnrollError::NoSeatsAvailable)), Ok(()));
    assert!(a.needs_refill());
    assert_eq!(
        a.on_signup(&class("y"), Err(EnrollError::TooManyClasses)),
        Err(EnrollError::TooManyClasses)
    );
    assert_eq!(names(&a.my_classes()), vec!["x".to_string()]);
}

#[test]
fn dropout_and_switch_outcomes() {
    let mut a = Actor::new(Student("s0".to_string()), 1);
    a.refill(vec![class("z")]);
    assert_eq!(a.on_signup(&class("x"), Ok(())), Ok(()));
    assert_eq!(a.on_signup(&class("y"), Ok(())), Ok(()));
    assert_eq!(a.on_switch(&class("x"), &class("z"), Ok(())), Ok(()));
    assert_eq!(names(&a.my_classes()), vec!["y".to_string(), "z".to_string()]);
    assert_eq!(
        a.on_switch(&class("y"), &class("w"), Err(EnrollError::NoSeatsAvailable)),
        Ok(())
    );
    assert!(a.needs_refill());
    assert_eq!(
        a.on_switch(&class("y"), &class("w"), Err(EnrollError::AlreadyEnrolled)),
        Err(EnrollError::AlreadyEnrolled)
    );
    assert_eq!(a.on_dropout(&class("y"), Ok(())), Ok(()));
    assert_eq!(names(&a.my_classes()), vec!["z".to_string()]);
    assert_eq!(
        a.on_dropout(&class("z"), Err(EnrollError::KeyDecodeError)),
        Err(EnrollError::KeyDecodeError)
    );
    assert_eq!(names(&a.my_classes()), vec!["z".to_string()]);
}

#[test]
fn same_seed_same_choices() {
    let mut a = Actor::new(Student("s1".to_string()), 99);
    let mut b = Actor::new(Student("s1".to_string()), 99);
    let classes: Vec<Class> = (0..50).map(|i| class(&format!("c{}", i))).collect();
    a.refill(classes.clone());
    b.refill(classes);
    for _ in 0..30 {
        let (x, y) = match (a.plan(Mood::Add), b.plan(Mood::Add)) {
            (Action::Signup(x), Action::Signup(y)) => (x.0, y.0),
            other => panic!("unexpected {:?}", other),
        };
        assert_eq!(x, y);
    }
}
