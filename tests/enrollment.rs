use class_scheduling::catalog::{init_class_names, N_CLASSES};
use class_scheduling::codec::{Class, EnrollError, Student};
use class_scheduling::enrollment::Enrollment;

fn class(name: &str) -> Class {
    Class(name.to_string())
}

fn student(id: &str) -> Student {
    Student(id.to_string())
}

fn catalog() -> Enrollment {
    let mut e = Enrollment::new();
    e.init();
    e
}

#[test]
fn init_writes_full_catalog() {
    let e = catalog();
    let names = e.available_classes();
    assert_eq!(names.len(), 1620);
    assert_eq!(N_CLASSES, 1620);
    for c in &names {
        assert_eq!(e.seats(c), Some(100));
    }
    assert_eq!(names[0].0, "2:00 chem intro");
    assert_eq!(names[1619].0, "19:00 dance seminar");
}

#[test]
fn init_resets_previous_state() {
    let mut e = catalog();
    let s = student("s1");
    let c = class("2:00 chem intro");
    assert_eq!(e.signup(&s, &c), Ok(()));
    e.set_class(&class("extra"), 3);
    e.init();
    assert!(!e.is_enrolled(&s, &c));
    assert_eq!(e.seats(&c), Some(100));
    assert_eq!(e.seats(&class("extra")), None);
    assert_eq!(e.available_classes().len(), 1620);
}

#[test]
fn catalog_names_in_order() {
    let names = init_class_names();
    assert_eq!(names.len(), 1620);
    assert_eq!(names[0].0, "2:00 chem intro");
    assert_eq!(names[1].0, "3:00 chem intro");
    assert_eq!(names[18].0, "2:00 bio intro");
    assert_eq!(names[180].0, "2:00 chem for dummies");
    let mut sorted: Vec<String> = names.iter().map(|c| c.0.clone()).collect();
    sorted.sort();
    sorted.dedup();
    assert_eq!(sorted.len(), 1620);
}

#[test]
fn signup_and_dropout_scenario() {
    let mut e = catalog();
    let s = student("s1");
    let c = class("2:00 chem intro");
    assert_eq!(e.signup(&s, &c), Ok(()));
    assert_eq!(e.seats(&c), Some(99));
    assert!(e.is_enrolled(&s, &c));
    assert_eq!(e.signup(&s, &c), Err(EnrollError::AlreadyEnrolled));
    assert_eq!(e.seats(&c), Some(99));
    assert_eq!(e.dropout(&s, &c), Ok(()));
    assert_eq!(e.seats(&c), Some(100));
    assert!(!e.is_enrolled(&s, &c));
    assert_eq!(e.dropout(&s, &c), Ok(()));
    assert_eq!(e.seats(&c), Some(100));
    assert!(!e.is_enrolled(&s, &c));
}

#[test]
fn sixth_class_is_refused() {
    let mut e = catalog();
    let s = student("s1");
    let names = init_class_names();
    for c in names.iter().take(5) {
        assert_eq!(e.signup(&s, c), Ok(()));
    }
    let sixth = &names[5];
    assert_eq!(e.signup(&s, sixth), Err(EnrollError::TooManyClasses));
    assert_eq!(e.seats(sixth), Some(100));
    assert!(!e.is_enrolled(&s, sixth));
    for c in names.iter().take(5) {
        assert_eq!(e.seats(c), Some(99));
    }
}

#[test]
fn last_seat_goes_to_one_student() {
    let mut e = Enrollment::new();
    let c = class("9:00 art lab");
    e.set_class(&c, 1);
    assert_eq!(e.signup(&student("a"), &c), Ok(()));
    assert_eq!(e.signup(&student("b"), &c), Err(EnrollError::NoSeatsAvailable));
    assert_eq!(e.seats(&c), Some(0));
    assert!(e.is_enrolled(&student("a"), &c));
    assert!(!e.is_enrolled(&student("b"), &c));
    assert!(e.available_classes().is_empty());
}

#[test]
fn seats_and_enrollments_add_up() {
    let mut e = catalog();
    let names = init_class_names();
    let students: Vec<Student> = (0..7).map(|i| student(&format!("s{}", i))).collect();
    for (i, s) in students.iter().enumerate() {
        for k in 0..6 {
            let _ = e.signup(s, &names[(i + k) % 4]);
        }
        let _ = e.dropout(s, &names[i % 3]);
        let _ = e.switch_classes(s, &names[1], &names[10 + i]);
    }
    for c in names.iter().take(20) {
        let enrolled = students.iter().filter(|s| e.is_enrolled(s, c)).count();
        assert_eq!(e.seats(c).unwrap() as usize + enrolled, 100);
    }
    for s in &students {
        let load = names.iter().filter(|c| e.is_enrolled(s, c)).count();
        assert!(load <= 5);
    }
}

#[test]
fn switch_moves_student() {
    let mut e = catalog();
    let s = student("s1");
    let a = class("2:00 chem intro");
    let b = class("3:00 chem intro");
    assert_eq!(e.signup(&s, &a), Ok(()));
    assert_eq!(e.switch_classes(&s, &a, &b), Ok(()));
    assert!(!e.is_enrolled(&s, &a));
    assert!(e.is_enrolled(&s, &b));
    assert_eq!(e.seats(&a), Some(100));
    assert_eq!(e.seats(&b), Some(99));
}

#[test]
fn switch_when_both_attended_changes_nothing() {
    let mut e = catalog();
    let s = student("s1");
    let a = class("2:00 chem intro");
    let b = class("3:00 chem intro");
    assert_eq!(e.signup(&s, &a), Ok(()));
    assert_eq!(e.signup(&s, &b), Ok(()));
    assert_eq!(e.switch_classes(&s, &a, &b), Ok(()));
    assert!(e.is_enrolled(&s, &a));
    assert!(e.is_enrolled(&s, &b));
    assert_eq!(e.seats(&a), Some(99));
    assert_eq!(e.seats(&b), Some(99));
}

#[test]
fn failed_switch_is_rolled_back() {
    let mut e = Enrollment::new();
    let s = student("s1");
    let a = class("a");
    let full = class("full");
    e.set_class(&a, 100);
    e.set_class(&full, 0);
    assert_eq!(e.signup(&s, &a), Ok(()));
    assert_eq!(e.switch_classes(&s, &a, &full), Err(EnrollError::NoSeatsAvailable));
    assert!(e.is_enrolled(&s, &a));
    assert_eq!(e.seats(&a), Some(99));
    assert_eq!(e.seats(&full), Some(0));
}

#[test]
fn switch_to_attended_class_only_is_refused() {
    let mut e = catalog();
    let s = student("s1");
    let a = class("2:00 chem intro");
    let b = class("3:00 chem intro");
    assert_eq!(e.signup(&s, &b), Ok(()));
    assert_eq!(e.switch_classes(&s, &a, &b), Err(EnrollError::AlreadyEnrolled));
    assert!(e.is_enrolled(&s, &b));
    assert!(!e.is_enrolled(&s, &a));
    assert_eq!(e.seats(&b), Some(99));
    assert_eq!(e.seats(&a), Some(100));
}

#[test]
fn available_classes_skip_full_ones() {
    let mut e = Enrollment::new();
    e.set_class(&class("x"), 0);
    e.set_class(&class("y"), 2);
    e.set_class(&class("z"), 1);
    let names: Vec<String> = e.available_classes().into_iter().map(|c| c.0).collect();
    assert_eq!(names, vec!["y".to_string(), "z".to_string()]);
    e.set_class(&class("y"), 0);
    let names: Vec<String> = e.available_classes().into_iter().map(|c| c.0).collect();
    assert_eq!(names, vec!["z".to_string()]);
}

#[test]
fn set_attends_is_idempotent() {
    let mut e = Enrollment::new();
    let s = student("s");
    let c = class("c");
    e.set_class(&c, 99);
    e.set_attends(&s, &c);
    e.set_attends(&s, &c);
    assert!(e.is_enrolled(&s, &c));
    assert_eq!(e.dropout(&s, &c), Ok(()));
    assert!(!e.is_enrolled(&s, &c));
    assert_eq!(e.seats(&c), Some(100));
}
