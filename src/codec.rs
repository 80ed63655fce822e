//! Layout of the records in the key space. A key is a tuple of string
//! segments whose first segment names the record family:
//! `("class", class_name)` and `("attends", student, class_name)`.
//! Packing a tuple into bytes is the store client's business.
use vstd::prelude::*;

verus! {

/// The name of a class, such as `"2:00 chem intro"`.
#[derive(Clone, Debug)]
pub struct Class(pub String);

/// The opaque identifier of a student.
#[derive(Clone, Debug)]
pub struct Student(pub String);

/// The outcomes of the enrollment rules that are not a success. The store
/// never retries a transaction that ends in one of them.
#[derive(Clone, Copy, Debug, PartialEq, Eq, Structural)]
pub enum EnrollError {
    AlreadyEnrolled,
    NoSeatsAvailable,
    TooManyClasses,
    KeyDecodeError,
}

pub open spec fn class_tag() -> Seq<char> {
    seq!['c', 'l', 'a', 's', 's']
}

pub open spec fn attends_tag() -> Seq<char> {
    seq!['a', 't', 't', 'e', 'n', 'd', 's']
}

/// The segments of the key of the seat counter of class `c`.
pub open spec fn class_key_segments(c: Seq<char>) -> Seq<Seq<char>> {
    seq![class_tag(), c]
}

/// The segments of the key that records that student `s` attends class `c`.
pub open spec fn attends_key_segments(s: Seq<char>, c: Seq<char>) -> Seq<Seq<char>> {
    seq![attends_tag(), s, c]
}

pub open spec fn segments_view(v: Seq<String>) -> Seq<Seq<char>> {
    v.map_values(|x: String| x@)
}

/// `p` is a leading part of `k`: a scan over the range of `p` yields `k`.
pub open spec fn is_prefix_of(p: Seq<Seq<char>>, k: Seq<Seq<char>>) -> bool {
    p.len() <= k.len() && k.subrange(0, p.len() as int) == p
}

fn class_tag_string() -> (r: String)
    ensures
        r@ == class_tag(),
{
    let r = "class".to_owned();
    proof {
        reveal_strlit("class");
        assert(r@ =~= class_tag());
    }
    r
}

fn attends_tag_string() -> (r: String)
    ensures
        r@ == attends_tag(),
{
    let r = "attends".to_owned();
    proof {
        reveal_strlit("attends");
        assert(r@ =~= attends_tag());
    }
    r
}

/// Key `("class", class_name)` of a class record.
#[derive(Clone, Debug)]
pub struct ClassKey {
    pub class_name: Class,
}

impl ClassKey {
    pub fn new(class_name: Class) -> (r: ClassKey)
        ensures
            r.class_name.0@ == class_name.0@,
    {
        ClassKey { class_name }
    }

    pub fn to_segments(&self) -> (r: Vec<String>)
        ensures
            segments_view(r@) == class_key_segments(self.class_name.0@),
    {
        let mut r: Vec<String> = Vec::new();
        r.push(class_tag_string());
        r.push(self.class_name.0.clone());
        assert(segments_view(r@) =~= class_key_segments(self.class_name.0@));
        r
    }

    /// Reads a class key back; any other shape or family is refused.
    pub fn from_segments(segs: &Vec<String>) -> (r: Result<ClassKey, EnrollError>)
        ensures
            match r {
                Ok(k) => segments_view(segs@) == class_key_segments(k.class_name.0@),
                Err(e) => e == EnrollError::KeyDecodeError && !exists|c: Seq<char>|
                    segments_view(segs@) == #[trigger] class_key_segments(c),
            },
    {
        if segs.len() != 2 {
            assert forall|c: Seq<char>|
                segments_view(segs@) != #[trigger] class_key_segments(c) by {
                assert(class_key_segments(c).len() == 2);
            }
            return Err(EnrollError::KeyDecodeError);
        }
        let tag = class_tag_string();
        if segs[0] != tag {
            assert forall|c: Seq<char>|
                segments_view(segs@) != #[trigger] class_key_segments(c) by {
                if segments_view(segs@) == class_key_segments(c) {
                    assert(segments_view(segs@)[0] == class_tag());
                }
            }
            return Err(EnrollError::KeyDecodeError);
        }
        let k = ClassKey { class_name: Class(segs[1].clone()) };
        assert(segments_view(segs@) =~= class_key_segments(k.class_name.0@));
        Ok(k)
    }
}

/// The seat counter of a class record: one byte.
pub struct ClassValue {
    pub val: u8,
}

impl ClassValue {
    pub fn new(val: u8) -> (r: ClassValue)
        ensures
            r.val == val,
    {
        ClassValue { val }
    }

    pub fn get_val(&self) -> (r: u8)
        ensures
            r == self.val,
    {
        self.val
    }

    pub fn to_bytes(&self) -> (r: Vec<u8>)
        ensures
            r@ == seq![self.val],
    {
        let mut r: Vec<u8> = Vec::new();
        r.push(self.val);
        assert(r@ =~= seq![self.val]);
        r
    }

    /// Reads a seat counter back from exactly one byte.
    pub fn from_bytes(b: &[u8]) -> (r: Option<ClassValue>)
        ensures
            r.is_some() <==> b@.len() == 1,
            r.is_some() ==> r.unwrap().val == b@[0],
    {
        if b.len() == 1 {
            Some(ClassValue { val: b[0] })
        } else {
            None
        }
    }
}

/// Key `("attends", student, class_name)` of an attends record.
#[derive(Clone, Debug)]
pub struct AttendsKey {
    pub student: Student,
    pub class_name: Class,
}

impl AttendsKey {
    pub fn new(student: Student, class_name: Class) -> (r: AttendsKey)
        ensures
            r.student.0@ == student.0@,
            r.class_name.0@ == class_name.0@,
    {
        AttendsKey { student, class_name }
    }

    pub fn to_segments(&self) -> (r: Vec<String>)
        ensures
            segments_view(r@) == attends_key_segments(self.student.0@, self.class_name.0@),
    {
        let mut r: Vec<String> = Vec::new();
        r.push(attends_tag_string());
        r.push(self.student.0.clone());
        r.push(self.class_name.0.clone());
        assert(segments_view(r@) =~= attends_key_segments(self.student.0@, self.class_name.0@));
        r
    }

    /// Reads an attends key back; any other shape or family is refused.
    pub fn from_segments(segs: &Vec<String>) -> (r: Result<AttendsKey, EnrollError>)
        ensures
            match r {
                Ok(k) => segments_view(segs@) == attends_key_segments(
                    k.student.0@,
                    k.class_name.0@,
                ),
                Err(e) => e == EnrollError::KeyDecodeError && !exists|s: Seq<char>, c: Seq<char>|
                    segments_view(segs@) == #[trigger] attends_key_segments(s, c),
            },
    {
        if segs.len() != 3 {
            assert forall|s: Seq<char>, c: Seq<char>|
                segments_view(segs@) != #[trigger] attends_key_segments(s, c) by {
                assert(attends_key_segments(s, c).len() == 3);
            }
            return Err(EnrollError::KeyDecodeError);
        }
        let tag = attends_tag_string();
        if segs[0] != tag {
            assert forall|s: Seq<char>, c: Seq<char>|
                segments_view(segs@) != #[trigger] attends_key_segments(s, c) by {
                if segments_view(segs@) == attends_key_segments(s, c) {
                    assert(segments_view(segs@)[0] == attends_tag());
                }
            }
            return Err(EnrollError::KeyDecodeError);
        }
        let k = AttendsKey { student: Student(segs[1].clone()), class_name: Class(segs[2].clone()) };
        assert(segments_view(segs@) =~= attends_key_segments(k.student.0@, k.class_name.0@));
        Ok(k)
    }
}

/// An attends record carries no value: its key is the whole record.
pub struct AttendsValue;

impl AttendsValue {
    pub fn new() -> (r: AttendsValue) {
        AttendsValue
    }

    pub fn to_bytes(&self) -> (r: Vec<u8>)
        ensures
            r@.len() == 0,
    {
        Vec::new()
    }
}

/// The range `("class")` of all class records.
pub struct ClassPrefix;

impl ClassPrefix {
    pub fn new() -> (r: ClassPrefix) {
        ClassPrefix
    }

    pub fn to_segments(&self) -> (r: Vec<String>)
        ensures
            segments_view(r@) == seq![class_tag()],
    {
        let mut r: Vec<String> = Vec::new();
        r.push(class_tag_string());
        assert(segments_view(r@) =~= seq![class_tag()]);
        r
    }
}

/// The range `("attends")` of all attends records.
pub struct AttendsPrefix;

impl AttendsPrefix {
    pub fn new() -> (r: AttendsPrefix) {
        AttendsPrefix
    }

    pub fn to_segments(&self) -> (r: Vec<String>)
        ensures
            segments_view(r@) == seq![attends_tag()],
    {
        let mut r: Vec<String> = Vec::new();
        r.push(attends_tag_string());
        assert(segments_view(r@) =~= seq![attends_tag()]);
        r
    }
}

/// The range `("attends", student)` of the attends records of one student.
pub struct AttendsStudentPrefix {
    pub student: Student,
}

impl AttendsStudentPrefix {
    pub fn new(student: Student) -> (r: AttendsStudentPrefix)
        ensures
            r.student.0@ == student.0@,
    {
        AttendsStudentPrefix { student }
    }

    pub fn to_segments(&self) -> (r: Vec<String>)
        ensures
            segments_view(r@) == seq![attends_tag(), self.student.0@],
    {
        let mut r: Vec<String> = Vec::new();
        r.push(attends_tag_string());
        r.push(self.student.0.clone());
        assert(segments_view(r@) =~= seq![attends_tag(), self.student.0@]);
        r
    }
}

/// Decoding inverts encoding, for both record families.
pub proof fn lemma_keys_round_trip(s: Seq<char>, c: Seq<char>, s2: Seq<char>, c2: Seq<char>)
    ensures
        class_key_segments(c) == class_key_segments(c2) ==> c == c2,
        attends_key_segments(s, c) == attends_key_segments(s2, c2) ==> s == s2 && c == c2,
{
    if class_key_segments(c) == class_key_segments(c2) {
        assert(class_key_segments(c)[1] == class_key_segments(c2)[1]);
    }
    if attends_key_segments(s, c) == attends_key_segments(s2, c2) {
        assert(attends_key_segments(s, c)[1] == attends_key_segments(s2, c2)[1]);
        assert(attends_key_segments(s, c)[2] == attends_key_segments(s2, c2)[2]);
    }
}

/// A scan over one family's range yields exactly the keys of that family,
/// and a scan over one student's range yields exactly that student's
/// attends keys.
pub proof fn lemma_prefix_isolation(s: Seq<char>, c: Seq<char>, s2: Seq<char>)
    ensures
        is_prefix_of(seq![class_tag()], class_key_segments(c)),
        !is_prefix_of(seq![attends_tag()], class_key_segments(c)),
        is_prefix_of(seq![attends_tag()], attends_key_segments(s, c)),
        !is_prefix_of(seq![class_tag()], attends_key_segments(s, c)),
        is_prefix_of(seq![attends_tag(), s2], attends_key_segments(s, c)) <==> s2 == s,
{
    assert(class_tag() != attends_tag()) by {
        assert(class_tag().len() != attends_tag().len());
    }
    assert(class_key_segments(c).subrange(0, 1) =~= seq![class_tag()]);
    assert(attends_key_segments(s, c).subrange(0, 1) =~= seq![attends_tag()]);
    assert(attends_key_segments(s, c).subrange(0, 2) =~= seq![attends_tag(), s]);
    if is_prefix_of(seq![attends_tag(), s2], attends_key_segments(s, c)) {
        assert(attends_key_segments(s, c).subrange(0, 2)[1] == s);
        assert(seq![attends_tag(), s2][1] == s2);
    }
    if is_prefix_of(seq![attends_tag()], class_key_segments(c)) {
        assert(seq![attends_tag()][0] == attends_tag());
        assert(class_key_segments(c).subrange(0, 1)[0] == class_tag());
    }
    if is_prefix_of(seq![class_tag()], attends_key_segments(s, c)) {
        assert(seq![class_tag()][0] == class_tag());
        assert(attends_key_segments(s, c).subrange(0, 1)[0] == attends_tag());
    }
}

} // verus!
