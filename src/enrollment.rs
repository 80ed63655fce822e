//! The enrollment rules, as transaction bodies over a snapshot of the
//! records: class records (a name and a seat counter) and attends records
//! (a student and a class name).
use vstd::prelude::*;
use crate::catalog::{catalog_name, init_class_names, lemma_catalog_names_distinct, N_CLASSES};
use crate::codec::{Class, Student, EnrollError};

verus! {

broadcast use vstd::seq_lib::group_seq_properties;

/// The seats of a class when the catalog is reset.
pub const CAPACITY: u8 = 100;

/// The most classes that one student may attend.
pub const MAX_CLASSES: usize = 5;

/// What a snapshot holds: the class records, each a name and its free
/// seats, and the attends records, each a student and a class name.
pub struct EnrollmentView {
    pub classes: Seq<(Seq<char>, u8)>,
    pub attends: Seq<(Seq<char>, Seq<char>)>,
}

pub open spec fn of_class(c: Seq<char>) -> spec_fn((Seq<char>, Seq<char>)) -> bool {
    |p: (Seq<char>, Seq<char>)| p.1 == c
}

pub open spec fn of_student(s: Seq<char>) -> spec_fn((Seq<char>, Seq<char>)) -> bool {
    |p: (Seq<char>, Seq<char>)| p.0 == s
}

pub open spec fn saturating_inc(n: u8) -> u8 {
    if n < u8::MAX {
        (n + 1) as u8
    } else {
        n
    }
}

pub open spec fn has_free_seat() -> spec_fn((Seq<char>, u8)) -> bool {
    |e: (Seq<char>, u8)| e.1 > 0
}

pub open spec fn record_name() -> spec_fn((Seq<char>, u8)) -> Seq<char> {
    |e: (Seq<char>, u8)| e.0
}

/// `c` is one of the first `n` names of the catalog.
pub open spec fn in_catalog(c: Seq<char>, n: int) -> bool {
    exists|i: int| 0 <= i < n && c == #[trigger] catalog_name(i)
}

pub open spec fn class_names(v: Seq<Class>) -> Seq<Seq<char>> {
    v.map_values(|c: Class| c.0@)
}

impl EnrollmentView {
    /// The names of the classes with a free seat, in record order.
    pub open spec fn available(self) -> Seq<Seq<char>> {
        self.classes.filter(has_free_seat()).map_values(record_name())
    }

    /// One record per key: class names are distinct, and so are attends
    /// records.
    pub open spec fn wf(self) -> bool {
        &&& forall|i: int, j: int|
            0 <= i < self.classes.len() && 0 <= j < self.classes.len() && #[trigger] self.classes[i].0
                == #[trigger] self.classes[j].0 ==> i == j
        &&& self.attends.no_duplicates()
    }

    pub open spec fn has_class(self, c: Seq<char>) -> bool {
        exists|i: int| 0 <= i < self.classes.len() && #[trigger] self.classes[i].0 == c
    }

    pub open spec fn class_pos(self, c: Seq<char>) -> int {
        choose|i: int| 0 <= i < self.classes.len() && #[trigger] self.classes[i].0 == c
    }

    /// The free seats of class `c`.
    pub open spec fn seats(self, c: Seq<char>) -> u8 {
        self.classes[self.class_pos(c)].1
    }

    pub open spec fn attends_pos(self, s: Seq<char>, c: Seq<char>) -> int {
        choose|j: int| 0 <= j < self.attends.len() && #[trigger] self.attends[j] == (s, c)
    }

    pub open spec fn is_enrolled(self, s: Seq<char>, c: Seq<char>) -> bool {
        self.attends.contains((s, c))
    }

    /// How many students attend class `c`.
    pub open spec fn enrolled(self, c: Seq<char>) -> nat {
        self.attends.filter(of_class(c)).len()
    }

    /// How many classes student `s` attends.
    pub open spec fn load(self, s: Seq<char>) -> nat {
        self.attends.filter(of_student(s)).len()
    }

    /// The enrollment invariants of a whole store: free seats and
    /// attendees of a class add up to the capacity, every attends record
    /// names a class, and no student attends more than the maximum.
    pub open spec fn consistent(self) -> bool {
        &&& forall|i: int|
            0 <= i < self.classes.len() ==> #[trigger] self.classes[i].1 + self.enrolled(
                self.classes[i].0,
            ) == CAPACITY
        &&& forall|j: int| 0 <= j < self.attends.len() ==> self.has_class(#[trigger] self.attends[j].1)
        &&& forall|s: Seq<char>| #[trigger] self.load(s) <= MAX_CLASSES
    }

    pub open spec fn signup_spec(self, s: Seq<char>, c: Seq<char>) -> (EnrollmentView, Result<(), EnrollError>) {
        if self.is_enrolled(s, c) {
            (self, Err(EnrollError::AlreadyEnrolled))
        } else if self.seats(c) == 0 {
            (self, Err(EnrollError::NoSeatsAvailable))
        } else if self.load(s) >= MAX_CLASSES {
            (self, Err(EnrollError::TooManyClasses))
        } else {
            (
                EnrollmentView {
                    classes: self.classes.update(self.class_pos(c), (c, (self.seats(c) - 1) as u8)),
                    attends: self.attends.push((s, c)),
                },
                Ok(()),
            )
        }
    }

    pub open spec fn dropout_spec(self, s: Seq<char>, c: Seq<char>) -> EnrollmentView {
        if !self.is_enrolled(s, c) {
            self
        } else {
            EnrollmentView {
                classes: self.classes.update(self.class_pos(c), (c, saturating_inc(self.seats(c)))),
                attends: self.attends.remove(self.attends_pos(s, c)),
            }
        }
    }

    pub open spec fn switch_spec(self, s: Seq<char>, old: Seq<char>, new: Seq<char>) -> (EnrollmentView, Result<(), EnrollError>) {
        if self.is_enrolled(s, old) && self.is_enrolled(s, new) {
            (self, Ok(()))
        } else {
            let (v, r) = self.dropout_spec(s, old).signup_spec(s, new);
            if r is Ok {
                (v, r)
            } else {
                (self, r)
            }
        }
    }
}


proof fn lemma_filter_len_remove<A>(a: Seq<A>, j: int, f: spec_fn(A) -> bool)
    requires
        0 <= j < a.len(),
    ensures
        a.remove(j).filter(f).len() + (if f(a[j]) { 1int } else { 0int }) == a.filter(f).len(),
{
    let l = a.subrange(0, j);
    let r = a.subrange(j + 1, a.len() as int);
    let m = seq![a[j]];
    assert(a =~= l + m + r);
    assert(a.remove(j) =~= l + r);
    Seq::filter_distributes_over_add(l + m, r, f);
    Seq::filter_distributes_over_add(l, m, f);
    Seq::filter_distributes_over_add(l, r, f);
    assert(m =~= Seq::<A>::empty().push(a[j]));
    Seq::<A>::empty().lemma_filter_push(a[j], f);
    assert(Seq::<A>::empty().filter(f) =~= Seq::<A>::empty()) by {
        reveal(Seq::filter);
    }
}

proof fn lemma_remove_index<A>(a: Seq<A>, j: int, k: int)
    requires
        0 <= j < a.len(),
        0 <= k < a.len() - 1,
    ensures
        a.remove(j)[k] == if k < j { a[k] } else { a[k + 1] },
{
}

proof fn lemma_remove_insert<A>(a: Seq<A>, j: int)
    requires
        0 <= j < a.len(),
    ensures
        a.remove(j).insert(j, a[j]) == a,
{
    let b = a.remove(j).insert(j, a[j]);
    assert forall|k: int| 0 <= k < a.len() implies b[k] == a[k] by {
        if k < j {
            lemma_remove_index(a, j, k);
        } else if k > j {
            lemma_remove_index(a, j, k - 1);
        }
    }
    assert(b =~= a);
}

proof fn lemma_remove_no_duplicates<A>(a: Seq<A>, j: int)
    requires
        0 <= j < a.len(),
        a.no_duplicates(),
    ensures
        a.remove(j).no_duplicates(),
        forall|x: A| a.remove(j).contains(x) ==> a.contains(x),
{
    let b = a.remove(j);
    assert forall|k1: int, k2: int| 0 <= k1 < b.len() && 0 <= k2 < b.len() && k1 != k2 implies b[k1]
        != b[k2] by {
        lemma_remove_index(a, j, k1);
        lemma_remove_index(a, j, k2);
    }
    assert forall|x: A| b.contains(x) implies a.contains(x) by {
        let k = choose|k: int| 0 <= k < b.len() && b[k] == x;
        lemma_remove_index(a, j, k);
        if k < j {
            assert(a[k] == x);
        } else {
            assert(a[k + 1] == x);
        }
    }
}

impl EnrollmentView {
    proof fn lemma_class_pos(self, c: Seq<char>)
        requires
            self.wf(),
            self.has_class(c),
        ensures
            0 <= self.class_pos(c) < self.classes.len(),
            self.classes[self.class_pos(c)].0 == c,
            forall|i: int| 0 <= i < self.classes.len() && #[trigger] self.classes[i].0 == c ==> i == self.class_pos(c),
    {
    }

    proof fn lemma_attends_pos(self, s: Seq<char>, c: Seq<char>)
        requires
            self.wf(),
            self.is_enrolled(s, c),
        ensures
            0 <= self.attends_pos(s, c) < self.attends.len(),
            self.attends[self.attends_pos(s, c)] == (s, c),
            forall|j: int| 0 <= j < self.attends.len() && #[trigger] self.attends[j] == (s, c) ==> j == self.attends_pos(s, c),
    {
    }
}

/// Signing up keeps one record per key, and on a consistent store keeps
/// seat conservation and the per-student maximum.
pub proof fn lemma_signup_keeps_invariants(v: EnrollmentView, s: Seq<char>, c: Seq<char>)
    requires
        v.wf(),
        v.has_class(c),
    ensures
        v.signup_spec(s, c).0.wf(),
        v.consistent() ==> v.signup_spec(s, c).0.consistent(),
{
    let (w, r) = v.signup_spec(s, c);
    if r is Ok {
        let i = v.class_pos(c);
        v.lemma_class_pos(c);
        let p = (s, c);
        assert forall|k: int| 0 <= k < w.classes.len() implies #[trigger] w.classes[k].0 == v.classes[k].0 by {}
        assert forall|x: Seq<char>| #[trigger] w.enrolled(x) == v.enrolled(x) + (if x == c { 1nat } else { 0nat }) by {
            v.attends.lemma_filter_push(p, of_class(x));
        }
        assert forall|y: Seq<char>| #[trigger] w.load(y) == v.load(y) + (if y == s { 1nat } else { 0nat }) by {
            v.attends.lemma_filter_push(p, of_student(y));
        }
        assert(w.wf());
        if v.consistent() {
            assert forall|k: int| 0 <= k < w.classes.len() implies #[trigger] w.classes[k].1 + w.enrolled(
                w.classes[k].0,
            ) == CAPACITY by {
                assert(w.enrolled(w.classes[k].0) == v.enrolled(v.classes[k].0) + (if v.classes[k].0 == c { 1nat } else { 0nat }));
                assert(v.classes[k].1 + v.enrolled(v.classes[k].0) == CAPACITY);
            }
            assert forall|j: int| 0 <= j < w.attends.len() implies w.has_class(#[trigger] w.attends[j].1) by {
                if j < v.attends.len() {
                    assert(v.has_class(v.attends[j].1));
                    let q = choose|q: int| 0 <= q < v.classes.len() && #[trigger] v.classes[q].0 == v.attends[j].1;
                    assert(w.classes[q].0 == w.attends[j].1);
                } else {
                    assert(w.classes[i].0 == c);
                }
            }
            assert forall|y: Seq<char>| #[trigger] w.load(y) <= MAX_CLASSES by {
                assert(v.load(y) <= MAX_CLASSES);
            }
        }
    }
}

/// Dropping out keeps one record per key, and on a consistent store keeps
/// seat conservation and the per-student maximum.
pub proof fn lemma_dropout_keeps_invariants(v: EnrollmentView, s: Seq<char>, c: Seq<char>)
    requires
        v.wf(),
        v.is_enrolled(s, c) ==> v.has_class(c),
    ensures
        v.dropout_spec(s, c).wf(),
        v.consistent() ==> v.dropout_spec(s, c).consistent(),
        v.consistent() && v.is_enrolled(s, c) ==> v.dropout_spec(s, c).seats(c) == v.seats(c) + 1,
{
    let w = v.dropout_spec(s, c);
    if v.is_enrolled(s, c) {
        let i = v.class_pos(c);
        let j = v.attends_pos(s, c);
        v.lemma_class_pos(c);
        v.lemma_attends_pos(s, c);
        lemma_remove_no_duplicates(v.attends, j);
        assert forall|k: int| 0 <= k < w.classes.len() implies #[trigger] w.classes[k].0 == v.classes[k].0 by {}
        assert forall|x: Seq<char>| #[trigger] w.enrolled(x) + (if x == c { 1nat } else { 0nat }) == v.enrolled(x) by {
            lemma_filter_len_remove(v.attends, j, of_class(x));
        }
        assert forall|y: Seq<char>| #[trigger] w.load(y) + (if y == s { 1nat } else { 0nat }) == v.load(y) by {
            lemma_filter_len_remove(v.attends, j, of_student(y));
        }
        assert(w.wf());
        if v.consistent() {
            assert(v.classes[i].1 + v.enrolled(c) == CAPACITY);
            assert(w.enrolled(c) + 1 == v.enrolled(c));
            assert(w.classes[i].1 == v.classes[i].1 + 1);
            assert(w.classes[i].0 == c);
            w.lemma_class_pos(c);
            assert forall|k: int| 0 <= k < w.classes.len() implies #[trigger] w.classes[k].1 + w.enrolled(
                w.classes[k].0,
            ) == CAPACITY by {
                assert(v.classes[k].1 + v.enrolled(v.classes[k].0) == CAPACITY);
            }
            assert forall|k: int| 0 <= k < w.attends.len() implies w.has_class(#[trigger] w.attends[k].1) by {
                lemma_remove_index(v.attends, j, k);
                let jj = if k < j { k } else { k + 1 };
                assert(v.has_class(v.attends[jj].1));
                let q = choose|q: int| 0 <= q < v.classes.len() && #[trigger] v.classes[q].0 == v.attends[jj].1;
                assert(w.classes[q].0 == w.attends[k].1);
            }
            assert forall|y: Seq<char>| #[trigger] w.load(y) <= MAX_CLASSES by {
                assert(v.load(y) <= MAX_CLASSES);
            }
        }
    }
}


/// Switching keeps one record per key, and on a consistent store keeps
/// seat conservation and the per-student maximum.
pub proof fn lemma_switch_keeps_invariants(v: EnrollmentView, s: Seq<char>, old: Seq<char>, new: Seq<char>)
    requires
        v.wf(),
        v.has_class(new),
        v.is_enrolled(s, old) ==> v.has_class(old),
    ensures
        v.switch_spec(s, old, new).0.wf(),
        v.consistent() ==> v.switch_spec(s, old, new).0.consistent(),
{
    if !(v.is_enrolled(s, old) && v.is_enrolled(s, new)) {
        let v1 = v.dropout_spec(s, old);
        lemma_dropout_keeps_invariants(v, s, old);
        v.lemma_class_pos(new);
        assert(v1.classes[v.class_pos(new)].0 == new);
        lemma_signup_keeps_invariants(v1, s, new);
    }
}

/// Dropping a class that the student does not attend leaves the store as
/// it was.
pub proof fn lemma_dropout_not_attended_is_noop(v: EnrollmentView, s: Seq<char>, c: Seq<char>)
    requires
        !v.is_enrolled(s, c),
    ensures
        v.dropout_spec(s, c) == v,
{
}

/// A signup that succeeded, made a second time, is refused as a duplicate
/// and changes nothing.
pub proof fn lemma_duplicate_signup_rejected(v: EnrollmentView, s: Seq<char>, c: Seq<char>)
    requires
        v.signup_spec(s, c).1 is Ok,
    ensures
        v.signup_spec(s, c).0.signup_spec(s, c) == (v.signup_spec(s, c).0, Err::<(), EnrollError>(EnrollError::AlreadyEnrolled)),
{
    let w = v.signup_spec(s, c).0;
    assert(w.attends[v.attends.len() as int] == (s, c));
}

/// Two students who both want the last seat of a class, one after the
/// other: the first gets it, the second is refused for want of seats, and
/// the class ends with no free seat and one new attendee.
pub proof fn lemma_last_seat_race(v: EnrollmentView, s1: Seq<char>, s2: Seq<char>, c: Seq<char>)
    requires
        v.wf(),
        v.has_class(c),
        v.seats(c) == 1,
        !v.is_enrolled(s1, c),
        !v.is_enrolled(s2, c),
        v.load(s1) < MAX_CLASSES,
        s1 != s2,
    ensures
        ({
            let (w1, r1) = v.signup_spec(s1, c);
            let (w2, r2) = w1.signup_spec(s2, c);
            &&& r1 is Ok
            &&& r2 == Err::<(), EnrollError>(EnrollError::NoSeatsAvailable)
            &&& w2 == w1
            &&& w1.seats(c) == 0
            &&& w1.attends == v.attends.push((s1, c))
        }),
{
    let w1 = v.signup_spec(s1, c).0;
    v.lemma_class_pos(c);
    lemma_signup_keeps_invariants(v, s1, c);
    assert(w1.classes[v.class_pos(c)].0 == c);
    w1.lemma_class_pos(c);
    assert(!w1.is_enrolled(s2, c)) by {
        if w1.is_enrolled(s2, c) {
            let j = choose|j: int| 0 <= j < w1.attends.len() && w1.attends[j] == (s2, c);
            if j < v.attends.len() {
                assert(v.attends[j] == (s2, c));
            }
        }
    }
}

/// A snapshot of the records that a transaction body works on, with the
/// enrollment rules as its methods. Each method is one transaction body:
/// it either applies all its changes or, on an error, none.
pub struct Enrollment {
    classes: Vec<(String, u8)>,
    attends: Vec<(String, String)>,
}

impl View for Enrollment {
    type V = EnrollmentView;

    closed spec fn view(&self) -> EnrollmentView {
        EnrollmentView {
            classes: self.classes@.map_values(|e: (String, u8)| (e.0@, e.1)),
            attends: self.attends@.map_values(|e: (String, String)| (e.0@, e.1@)),
        }
    }
}

impl Enrollment {
    /// An empty snapshot.
    pub fn new() -> (r: Enrollment)
        ensures
            r@.classes.len() == 0,
            r@.attends.len() == 0,
            r@.wf(),
    {
        let r = Enrollment { classes: Vec::new(), attends: Vec::new() };
        assert(r@.classes =~= Seq::empty());
        assert(r@.attends =~= Seq::empty());
        r
    }

    fn find_class(&self, c: &String) -> (r: Option<usize>)
        requires
            self@.wf(),
        ensures
            r.is_some() <==> self@.has_class(c@),
            r.is_some() ==> r.unwrap() == self@.class_pos(c@) && r.unwrap() < self@.classes.len(),
    {
        let mut i: usize = 0;
        while i < self.classes.len()
            invariant
                i <= self.classes.len(),
                self@.wf(),
                self@.classes.len() == self.classes.len(),
                forall|k: int| 0 <= k < i ==> self@.classes[k].0 != c@,
            decreases self.classes.len() - i,
        {
            if self.classes[i].0 == *c {
                assert(self@.classes[i as int].0 == c@);
                proof { self@.lemma_class_pos(c@); }
                return Some(i);
            }
            i = i + 1;
        }
        None
    }

    fn find_attends(&self, s: &String, c: &String) -> (r: Option<usize>)
        requires
            self@.wf(),
        ensures
            r.is_some() <==> self@.is_enrolled(s@, c@),
            r.is_some() ==> r.unwrap() == self@.attends_pos(s@, c@) && r.unwrap() < self@.attends.len(),
    {
        let mut i: usize = 0;
        while i < self.attends.len()
            invariant
                i <= self.attends.len(),
                self@.wf(),
                self@.attends.len() == self.attends.len(),
                forall|k: int| 0 <= k < i ==> self@.attends[k] != (s@, c@),
            decreases self.attends.len() - i,
        {
            if self.attends[i].0 == *s && self.attends[i].1 == *c {
                assert(self@.attends[i as int] == (s@, c@));
                proof { self@.lemma_attends_pos(s@, c@); }
                return Some(i);
            }
            i = i + 1;
        }
        None
    }

    /// The number of attends records of student `s`: what a scan over the
    /// student's range yields.
    fn count_load(&self, s: &String) -> (r: usize)
        ensures
            r == self@.load(s@),
    {
        let mut n: usize = 0;
        let mut i: usize = 0;
        while i < self.attends.len()
            invariant
                i <= self.attends.len(),
                n <= i,
                self@.attends.len() == self.attends.len(),
                n == self@.attends.take(i as int).filter(of_student(s@)).len(),
            decreases self.attends.len() - i,
        {
            proof {
                assert(self@.attends.take(i + 1) =~= self@.attends.take(i as int).push(self@.attends[i as int]));
                self@.attends.take(i as int).lemma_filter_push(self@.attends[i as int], of_student(s@));
            }
            if self.attends[i].0 == *s {
                n = n + 1;
            }
            i = i + 1;
        }
        assert(self@.attends.take(i as int) =~= self@.attends);
        n
    }

    /// Signs student `s` up for class `c`: refused if `s` already attends
    /// `c`, if `c` has no free seat, or if `s` already attends the maximum
    /// number of classes; otherwise takes one seat and records the
    /// attendance.
    pub fn signup(&mut self, student: &Student, class_name: &Class) -> (r: Result<(), EnrollError>)
        requires
            old(self)@.wf(),
            old(self)@.has_class(class_name.0@),
        ensures
            (final(self)@, r) == old(self)@.signup_spec(student.0@, class_name.0@),
            final(self)@.wf(),
    {
        proof {
            lemma_signup_keeps_invariants(self@, student.0@, class_name.0@);
        }
        if self.find_attends(&student.0, &class_name.0).is_some() {
            return Err(EnrollError::AlreadyEnrolled);
        }
        let i = self.find_class(&class_name.0).unwrap();
        let seats = self.classes[i].1;
        if seats == 0 {
            return Err(EnrollError::NoSeatsAvailable);
        }
        if self.count_load(&student.0) >= MAX_CLASSES {
            return Err(EnrollError::TooManyClasses);
        }
        let ghost v = self@;
        self.classes.set(i, (class_name.0.clone(), seats - 1));
        self.attends.push((student.0.clone(), class_name.0.clone()));
        assert(self@.classes =~= v.signup_spec(student.0@, class_name.0@).0.classes);
        assert(self@.attends =~= v.signup_spec(student.0@, class_name.0@).0.attends);
        Ok(())
    }

    /// Drops student `s` from class `c`: gives the seat back and removes
    /// the attendance. Dropping a class that `s` does not attend changes
    /// nothing and succeeds.
    pub fn dropout(&mut self, student: &Student, class_name: &Class) -> (r: Result<(), EnrollError>)
        requires
            old(self)@.wf(),
            old(self)@.is_enrolled(student.0@, class_name.0@) ==> old(self)@.has_class(class_name.0@),
        ensures
            r is Ok,
            final(self)@ == old(self)@.dropout_spec(student.0@, class_name.0@),
            final(self)@.wf(),
    {
        self.drop_record(student, class_name);
        Ok(())
    }

    /// The body of `dropout`; tells where the removed record stood and the
    /// seats that the class had, so that the change can be undone.
    fn drop_record(&mut self, student: &Student, class_name: &Class) -> (r: Option<(usize, usize, u8)>)
        requires
            old(self)@.wf(),
            old(self)@.is_enrolled(student.0@, class_name.0@) ==> old(self)@.has_class(class_name.0@),
        ensures
            final(self)@ == old(self)@.dropout_spec(student.0@, class_name.0@),
            final(self)@.wf(),
            r.is_some() <==> old(self)@.is_enrolled(student.0@, class_name.0@),
            r.is_some() ==> ({
                let (j, i, seats) = r.unwrap();
                &&& j == old(self)@.attends_pos(student.0@, class_name.0@)
                &&& i == old(self)@.class_pos(class_name.0@)
                &&& seats == old(self)@.seats(class_name.0@)
            }),
    {
        proof {
            lemma_dropout_keeps_invariants(self@, student.0@, class_name.0@);
        }
        let j = match self.find_attends(&student.0, &class_name.0) {
            None => return None,
            Some(j) => j,
        };
        let i = self.find_class(&class_name.0).unwrap();
        let seats = self.classes[i].1;
        let ghost v = self@;
        let next = if seats < u8::MAX { seats + 1 } else { seats };
        self.classes.set(i, (class_name.0.clone(), next));
        self.attends.remove(j);
        assert(self@.classes =~= v.dropout_spec(student.0@, class_name.0@).classes);
        assert(self@.attends =~= v.dropout_spec(student.0@, class_name.0@).attends);
        Some((j, i, seats))
    }

    /// Moves student `s` from class `old` to class `new` in one step: when
    /// `s` attends both already nothing changes; otherwise a dropout of
    /// `old` followed by a signup for `new`, and when the signup is refused
    /// neither takes effect and its error is returned.
    pub fn switch_classes(&mut self, student: &Student, old_class: &Class, new_class: &Class) -> (r: Result<(), EnrollError>)
        requires
            old(self)@.wf(),
            old(self)@.has_class(new_class.0@),
            old(self)@.is_enrolled(student.0@, old_class.0@) ==> old(self)@.has_class(old_class.0@),
        ensures
            (final(self)@, r) == old(self)@.switch_spec(student.0@, old_class.0@, new_class.0@),
            final(self)@.wf(),
    {
        if self.find_attends(&student.0, &old_class.0).is_some() && self.find_attends(
            &student.0,
            &new_class.0,
        ).is_some() {
            return Ok(());
        }
        let ghost v = self@;
        proof {
            v.lemma_class_pos(new_class.0@);
        }
        let undo = self.drop_record(student, old_class);
        assert(self@.classes[v.class_pos(new_class.0@)].0 == new_class.0@);
        let ghost v1 = self@;
        let r = self.signup(student, new_class);
        if r.is_err() {
            assert(self@ == v1);
            if let Some((j, i, seats)) = undo {
                proof {
                    v.lemma_attends_pos(student.0@, old_class.0@);
                    v.lemma_class_pos(old_class.0@);
                    lemma_remove_insert(v.attends, j as int);
                    assert(v.classes.update(i as int, v1.classes[i as int]).update(i as int, v.classes[i as int]) =~= v.classes);
                }
                self.attends.insert(j, (student.0.clone(), old_class.0.clone()));
                self.classes.set(i, (old_class.0.clone(), seats));
            }
            assert(self@.classes =~= v.classes);
            assert(self@.attends =~= v.attends);
        }
        r
    }

    /// Writes the class record of `c` with `seats` free seats, over the
    /// record that was there.
    pub fn set_class(&mut self, class_name: &Class, seats: u8)
        requires
            old(self)@.wf(),
        ensures
            final(self)@.wf(),
            final(self)@.attends == old(self)@.attends,
            final(self)@.classes == if old(self)@.has_class(class_name.0@) {
                old(self)@.classes.update(old(self)@.class_pos(class_name.0@), (class_name.0@, seats))
            } else {
                old(self)@.classes.push((class_name.0@, seats))
            },
    {
        let ghost v = self@;
        match self.find_class(&class_name.0) {
            Some(i) => {
                self.classes.set(i, (class_name.0.clone(), seats));
            },
            None => {
                self.classes.push((class_name.0.clone(), seats));
            },
        }
        assert(self@.attends =~= v.attends);
        let ghost w = if v.has_class(class_name.0@) {
            v.classes.update(v.class_pos(class_name.0@), (class_name.0@, seats))
        } else {
            v.classes.push((class_name.0@, seats))
        };
        assert(self@.classes =~= w);
    }

    /// Writes the attends record of student `s` and class `c`, if it is not
    /// there yet.
    pub fn set_attends(&mut self, student: &Student, class_name: &Class)
        requires
            old(self)@.wf(),
        ensures
            final(self)@.wf(),
            final(self)@.classes == old(self)@.classes,
            final(self)@.attends == if old(self)@.is_enrolled(student.0@, class_name.0@) {
                old(self)@.attends
            } else {
                old(self)@.attends.push((student.0@, class_name.0@))
            },
    {
        let ghost v = self@;
        if self.find_attends(&student.0, &class_name.0).is_none() {
            self.attends.push((student.0.clone(), class_name.0.clone()));
        }
        assert(self@.classes =~= v.classes);
        let ghost w = if v.is_enrolled(student.0@, class_name.0@) {
            v.attends
        } else {
            v.attends.push((student.0@, class_name.0@))
        };
        assert(self@.attends =~= w);
    }

    /// The free seats of class `c`, if its record is there.
    pub fn seats(&self, class_name: &Class) -> (r: Option<u8>)
        requires
            self@.wf(),
        ensures
            r.is_some() <==> self@.has_class(class_name.0@),
            r.is_some() ==> r.unwrap() == self@.seats(class_name.0@),
    {
        match self.find_class(&class_name.0) {
            Some(i) => Some(self.classes[i].1),
            None => None,
        }
    }

    /// Whether student `s` attends class `c`.
    pub fn is_enrolled(&self, student: &Student, class_name: &Class) -> (r: bool)
        requires
            self@.wf(),
        ensures
            r == self@.is_enrolled(student.0@, class_name.0@),
    {
        self.find_attends(&student.0, &class_name.0).is_some()
    }

    /// The names of the classes that have a free seat: what a scan over
    /// the class range keeps.
    pub fn available_classes(&self) -> (r: Vec<Class>)
        ensures
            class_names(r@) == self@.available(),
    {
        let mut r: Vec<Class> = Vec::new();
        let mut i: usize = 0;
        while i < self.classes.len()
            invariant
                i <= self.classes.len(),
                self@.classes.len() == self.classes.len(),
                class_names(r@) == self@.classes.take(i as int).filter(has_free_seat()).map_values(record_name()),
            decreases self.classes.len() - i,
        {
            proof {
                assert(self@.classes.take(i + 1) =~= self@.classes.take(i as int).push(self@.classes[i as int]));
                self@.classes.take(i as int).lemma_filter_push(self@.classes[i as int], has_free_seat());
            }
            if self.classes[i].1 > 0 {
                let ghost before = r@;
                r.push(Class(self.classes[i].0.clone()));
                proof {
                    let f = self@.classes.take(i as int).filter(has_free_seat());
                    assert(f.push(self@.classes[i as int]).map_values(record_name()) =~= f.map_values(record_name()).push(self@.classes[i as int].0));
                    assert(class_names(r@) =~= class_names(before).push(self@.classes[i as int].0));
                }
            }
            i = i + 1;
        }
        assert(self@.classes.take(i as int) =~= self@.classes);
        r
    }

    /// Resets the store: removes every attends record and every class
    /// record, then writes one record per catalog class with all its seats
    /// free.
    pub fn init(&mut self)
        ensures
            final(self)@.wf(),
            final(self)@.consistent(),
            final(self)@.attends.len() == 0,
            final(self)@.classes.len() == N_CLASSES,
            forall|k: int| 0 <= k < final(self)@.classes.len() ==> (#[trigger] final(self)@.classes[k]).1 == CAPACITY,
            forall|i: int| 0 <= i < N_CLASSES ==> final(self)@.has_class(#[trigger] catalog_name(i)),
            forall|k: int| 0 <= k < final(self)@.classes.len() ==> in_catalog(#[trigger] final(self)@.classes[k].0, N_CLASSES as int),
    {
        self.attends = Vec::new();
        self.classes = Vec::new();
        assert(self@.classes =~= Seq::empty());
        assert(self@.attends =~= Seq::empty());
        let names = init_class_names();
        let mut n: usize = 0;
        while n < names.len()
            invariant
                n <= names.len(),
                names@.len() == N_CLASSES,
                forall|i: int| 0 <= i < N_CLASSES ==> (#[trigger] names@[i]).0@ == catalog_name(i),
                self@.wf(),
                self@.attends.len() == 0,
                self@.classes.len() == n,
                forall|k: int| 0 <= k < self@.classes.len() ==> (#[trigger] self@.classes[k]).1 == CAPACITY,
                forall|i: int| 0 <= i < n ==> self@.has_class(#[trigger] catalog_name(i)),
                forall|k: int| 0 <= k < self@.classes.len() ==> in_catalog(#[trigger] self@.classes[k].0, n as int),
            decreases names.len() - n,
        {
            let ghost v = self@;
            proof {
                let c = catalog_name(n as int);
                if v.has_class(c) {
                    let k = choose|k: int| 0 <= k < v.classes.len() && #[trigger] v.classes[k].0 == c;
                    assert(in_catalog(v.classes[k].0, n as int));
                    let i = choose|i: int| 0 <= i < n && v.classes[k].0 == #[trigger] catalog_name(i);
                    lemma_catalog_names_distinct(i, n as int);
                }
            }
            self.set_class(&names[n], CAPACITY);
            proof {
                let c = catalog_name(n as int);
                assert(names@[n as int].0@ == c);
                if v.has_class(c) {
                    v.lemma_class_pos(c);
                }
                assert forall|i: int| 0 <= i <= n implies self@.has_class(#[trigger] catalog_name(i)) by {
                    if i < n {
                        let q = choose|q: int| 0 <= q < v.classes.len() && #[trigger] v.classes[q].0 == catalog_name(i);
                        assert(self@.classes[q].0 == catalog_name(i));
                    } else if v.has_class(c) {
                        assert(self@.classes[v.class_pos(c)].0 == c);
                    } else {
                        assert(self@.classes[v.classes.len() as int].0 == c);
                    }
                }
                assert forall|k: int| 0 <= k < self@.classes.len() implies in_catalog(#[trigger] self@.classes[k].0, n + 1) by {
                    if k < v.classes.len() && self@.classes[k].0 == v.classes[k].0 {
                        assert(in_catalog(v.classes[k].0, n as int));
                        let i = choose|i: int| 0 <= i < n && v.classes[k].0 == #[trigger] catalog_name(i);
                        assert(0 <= i < n + 1 && self@.classes[k].0 == catalog_name(i));
                    } else {
                        assert(self@.classes[k].0 == catalog_name(n as int));
                    }
                }
            }
            n = n + 1;
        }
        proof {
            assert forall|c: Seq<char>| #[trigger] self@.enrolled(c) == 0 && self@.load(c) == 0 by {
                self@.attends.lemma_filter_len(of_class(c));
                self@.attends.lemma_filter_len(of_student(c));
            }
            assert forall|s: Seq<char>| #[trigger] self@.load(s) <= MAX_CLASSES by {
                assert(self@.load(s) == 0);
            }
        }
    }
}

} // verus!
