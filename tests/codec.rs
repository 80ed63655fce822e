use class_scheduling::codec::{
    AttendsKey, AttendsPrefix, AttendsStudentPrefix, AttendsValue, Class, ClassKey, ClassPrefix,
    ClassValue, EnrollError, Student,
};

fn segs(v: &[&str]) -> Vec<String> {
    v.iter().map(|s| s.to_string()).collect()
}

#[test]
fn class_key_round_trip() {
    let k = ClassKey::new(Class("2:00 chem intro".to_string()));
    let s = k.to_segments();
    assert_eq!(s, segs(&["class", "2:00 chem intro"]));
    let back = ClassKey::from_segments(&s).unwrap();
    assert_eq!(back.class_name.0, "2:00 chem intro");
}

#[test]
fn attends_key_round_trip() {
    let k = AttendsKey::new(Student("s1".to_string()), Class("lab".to_string()));
    let s = k.to_segments();
    assert_eq!(s, segs(&["attends", "s1", "lab"]));
    let back = AttendsKey::from_segments(&s).unwrap();
    assert_eq!(back.student.0, "s1");
    assert_eq!(back.class_name.0, "lab");
}

#[test]
fn wrong_family_is_refused() {
    assert_eq!(
        ClassKey::from_segments(&segs(&["attends", "x"])).err(),
        Some(EnrollError::KeyDecodeError)
    );
    assert_eq!(
        AttendsKey::from_segments(&segs(&["class", "s", "x"])).err(),
        Some(EnrollError::KeyDecodeError)
    );
}

#[test]
fn wrong_shape_is_refused() {
    assert_eq!(
        ClassKey::from_segments(&segs(&["class"])).err(),
        Some(EnrollError::KeyDecodeError)
    );
    assert_eq!(
        ClassKey::from_segments(&segs(&["class", "a", "b"])).err(),
        Some(EnrollError::KeyDecodeError)
    );
    assert_eq!(
        AttendsKey::from_segments(&segs(&["attends", "s"])).err(),
        Some(EnrollError::KeyDecodeError)
    );
}

#[test]
fn prefixes() {
    assert_eq!(ClassPrefix::new().to_segments(), segs(&["class"]));
    assert_eq!(AttendsPrefix::new().to_segments(), segs(&["attends"]));
    assert_eq!(
        AttendsStudentPrefix::new(Student("s9".to_string())).to_segments(),
        segs(&["attends", "s9"])
    );
}

#[test]
fn values() {
    let v = ClassValue::new(100);
    assert_eq!(v.get_val(), 100);
    assert_eq!(v.to_bytes(), vec![100u8]);
    assert_eq!(ClassValue::from_bytes(&[7]).map(|v| v.get_val()), Some(7));
    assert!(ClassValue::from_bytes(&[]).is_none());
    assert!(ClassValue::from_bytes(&[1, 2]).is_none());
    assert!(AttendsValue::new().to_bytes().is_empty());
}
