//! The decisions of one simulated student. Each step the student picks a
//! mood among those its number of classes allows, picks the classes to act
//! on, and after the transaction updates what it believes it attends and
//! which classes it believes have a free seat.
use vstd::prelude::*;
use rand::Rng;
use rand::SeedableRng;
use rand::rngs::StdRng;
use crate::codec::{Class, Student, EnrollError};
use crate::enrollment::{class_names, MAX_CLASSES};

verus! {

#[verifier::external_type_specification]
#[verifier::external_body]
pub struct ExStdRng(StdRng);

/// Relies on rand's `SeedableRng::seed_from_u64` for `StdRng`: a generator
/// whose draws are fixed by the seed.
#[verifier::external_body]
fn seeded_rng(seed: u64) -> (r: StdRng) {
    StdRng::seed_from_u64(seed)
}

/// Relies on rand's `Rng::gen_range` over `0..n`: a uniform draw below
/// `n`, which panics on an empty range.
#[verifier::external_body]
fn draw_below(rng: &mut StdRng, n: usize) -> (r: usize)
    requires
        n > 0,
    ensures
        r < n,
{
    rng.gen_range(0..n)
}

/// What a student feels like doing in one step.
#[derive(Clone, Copy, Debug, PartialEq, Eq, Structural)]
pub enum Mood {
    Add,
    Dropout,
    Switch,
}

/// The transaction that a step asks for.
#[derive(Debug)]
pub enum Action {
    Signup(Class),
    Dropout(Class),
    Switch(Class, Class),
}

/// The moods open to a student who attends `count` classes: dropping out
/// and switching once it attends one, adding while under the maximum.
pub open spec fn moods_for(count: int) -> Seq<Mood> {
    (if count > 0 {
        seq![Mood::Dropout, Mood::Switch]
    } else {
        Seq::empty()
    }) + (if count < MAX_CLASSES {
        seq![Mood::Add]
    } else {
        Seq::empty()
    })
}

/// The moods open to a student who attends `count` classes.
pub fn eligible_moods(count: usize) -> (r: Vec<Mood>)
    ensures
        r@ == moods_for(count as int),
{
    let mut r: Vec<Mood> = Vec::new();
    if count > 0 {
        r.push(Mood::Dropout);
        r.push(Mood::Switch);
    }
    if count < MAX_CLASSES {
        r.push(Mood::Add);
    }
    assert(r@ =~= moods_for(count as int));
    r
}

pub open spec fn other_than(c: Seq<char>) -> spec_fn(Seq<char>) -> bool {
    |x: Seq<char>| x != c
}

/// `v` with every occurrence of `c` taken out.
pub open spec fn without(v: Seq<Seq<char>>, c: Seq<char>) -> Seq<Seq<char>> {
    v.filter(other_than(c))
}

proof fn lemma_without_shorter(v: Seq<Seq<char>>, c: Seq<char>)
    requires
        v.contains(c),
    ensures
        without(v, c).len() < v.len(),
{
    let j = choose|j: int| 0 <= j < v.len() && v[j] == c;
    let l = v.subrange(0, j);
    let m = seq![c];
    let r = v.subrange(j + 1, v.len() as int);
    assert(v =~= l + m + r);
    Seq::filter_distributes_over_add(l + m, r, other_than(c));
    Seq::filter_distributes_over_add(l, m, other_than(c));
    assert(m =~= Seq::<Seq<char>>::empty().push(c));
    Seq::<Seq<char>>::empty().lemma_filter_push(c, other_than(c));
    assert(Seq::<Seq<char>>::empty().filter(other_than(c)) =~= Seq::<Seq<char>>::empty()) by {
        reveal(Seq::filter);
    }
    l.lemma_filter_len(other_than(c));
    r.lemma_filter_len(other_than(c));
}

/// A simulated student: its id, the classes it believes it attends, the
/// classes it believes have a free seat, and its own random generator.
pub struct Actor {
    student: Student,
    my_classes: Vec<Class>,
    candidates: Vec<Class>,
    rng: StdRng,
}

impl Actor {
    pub closed spec fn student_id(&self) -> Seq<char> {
        self.student.0@
    }

    /// The id of the student.
    pub fn student(&self) -> (r: Student)
        ensures
            r.0@ == self.student_id(),
    {
        Student(self.student.0.clone())
    }

    /// The classes the student believes it attends.
    pub closed spec fn mine(&self) -> Seq<Seq<char>> {
        class_names(self.my_classes@)
    }

    /// The classes the student believes have a free seat.
    pub closed spec fn candidate_names(&self) -> Seq<Seq<char>> {
        class_names(self.candidates@)
    }

    pub open spec fn wf(&self) -> bool {
        self.mine().len() <= MAX_CLASSES
    }

    /// A student who attends nothing and knows of no class yet, drawing
    /// from a generator seeded with `seed`.
    pub fn new(student: Student, seed: u64) -> (r: Actor)
        ensures
            r.student_id() == student.0@,
            r.mine().len() == 0,
            r.candidate_names().len() == 0,
            r.wf(),
    {
        let r = Actor { student, my_classes: Vec::new(), candidates: Vec::new(), rng: seeded_rng(seed) };
        assert(r.mine() =~= Seq::empty());
        assert(r.candidate_names() =~= Seq::empty());
        r
    }

    pub fn my_classes(&self) -> (r: Vec<Class>)
        ensures
            class_names(r@) == self.mine(),
    {
        let mut r: Vec<Class> = Vec::new();
        let mut i: usize = 0;
        while i < self.my_classes.len()
            invariant
                i <= self.my_classes.len(),
                class_names(r@) == class_names(self.my_classes@.take(i as int)),
            decreases self.my_classes.len() - i,
        {
            let ghost before = r@;
            r.push(Class(self.my_classes[i].0.clone()));
            assert(self.my_classes@.take(i + 1) =~= self.my_classes@.take(i as int).push(self.my_classes@[i as int]));
            assert(class_names(r@) =~= class_names(before).push(self.my_classes@[i as int].0@));
            assert(class_names(r@) =~= class_names(self.my_classes@.take(i + 1)));
            i = i + 1;
        }
        assert(self.my_classes@.take(i as int) =~= self.my_classes@);
        r
    }

    /// Whether the list of classes with a free seat has to be fetched.
    pub fn needs_refill(&self) -> (r: bool)
        ensures
            r == (self.candidate_names().len() == 0),
    {
        self.candidates.len() == 0
    }

    /// Takes a fresh list of the classes with a free seat.
    pub fn refill(&mut self, classes: Vec<Class>)
        ensures
            final(self).candidate_names() == class_names(classes@),
            final(self).mine() == old(self).mine(),
            final(self).student_id() == old(self).student_id(),
    {
        self.candidates = classes;
    }

    /// Draws this step's mood uniformly among the open ones.
    pub fn choose_mood(&mut self) -> (m: Mood)
        requires
            old(self).wf(),
        ensures
            moods_for(old(self).mine().len() as int).contains(m),
            final(self).mine() == old(self).mine(),
            final(self).candidate_names() == old(self).candidate_names(),
            final(self).student_id() == old(self).student_id(),
    {
        let moods = eligible_moods(self.my_classes.len());
        let k = draw_below(&mut self.rng, moods.len());
        assert(moods@[k as int] == moods[k as int]);
        moods[k]
    }

    /// Picks the classes for `mood`: a class with a free seat to add, one
    /// of its own classes to drop, or one of each to switch.
    pub fn plan(&mut self, mood: Mood) -> (a: Action)
        requires
            moods_for(old(self).mine().len() as int).contains(mood),
            mood != Mood::Dropout ==> old(self).candidate_names().len() > 0,
        ensures
            final(self).mine() == old(self).mine(),
            final(self).candidate_names() == old(self).candidate_names(),
            final(self).student_id() == old(self).student_id(),
            match a {
                Action::Signup(c) => mood == Mood::Add && old(self).candidate_names().contains(c.0@),
                Action::Dropout(c) => mood == Mood::Dropout && old(self).mine().contains(c.0@),
                Action::Switch(o, n) => mood == Mood::Switch && old(self).mine().contains(o.0@)
                    && old(self).candidate_names().contains(n.0@),
            },
    {
        proof {
            if mood != Mood::Add {
                assert(old(self).mine().len() > 0) by {
                    if old(self).mine().len() == 0 {
                        assert(moods_for(0) =~= seq![Mood::Add]);
                    }
                }
            }
        }
        match mood {
            Mood::Add => {
                let k = draw_below(&mut self.rng, self.candidates.len());
                let c = Class(self.candidates[k].0.clone());
                assert(self.candidate_names()[k as int] == c.0@);
                Action::Signup(c)
            },
            Mood::Dropout => {
                let k = draw_below(&mut self.rng, self.my_classes.len());
                let c = Class(self.my_classes[k].0.clone());
                assert(self.mine()[k as int] == c.0@);
                Action::Dropout(c)
            },
            Mood::Switch => {
                let k = draw_below(&mut self.rng, self.my_classes.len());
                let o = Class(self.my_classes[k].0.clone());
                assert(self.mine()[k as int] == o.0@);
                let m = draw_below(&mut self.rng, self.candidates.len());
                let n = Class(self.candidates[m].0.clone());
                assert(self.candidate_names()[m as int] == n.0@);
                Action::Switch(o, n)
            },
        }
    }

    fn drop_from_mine(&mut self, c: &Class)
        ensures
            final(self).mine() == without(old(self).mine(), c.0@),
            final(self).candidate_names() == old(self).candidate_names(),
            final(self).student_id() == old(self).student_id(),
    {
        let mut kept: Vec<Class> = Vec::new();
        let mut i: usize = 0;
        while i < self.my_classes.len()
            invariant
                i <= self.my_classes.len(),
                class_names(kept@) == without(class_names(self.my_classes@.take(i as int)), c.0@),
            decreases self.my_classes.len() - i,
        {
            let ghost before = kept@;
            proof {
                assert(self.my_classes@.take(i + 1) =~= self.my_classes@.take(i as int).push(self.my_classes@[i as int]));
                assert(class_names(self.my_classes@.take(i + 1)) =~= class_names(self.my_classes@.take(i as int)).push(self.my_classes@[i as int].0@));
                class_names(self.my_classes@.take(i as int)).lemma_filter_push(self.my_classes@[i as int].0@, other_than(c.0@));
            }
            if self.my_classes[i].0 != c.0 {
                kept.push(Class(self.my_classes[i].0.clone()));
                assert(class_names(kept@) =~= class_names(before).push(self.my_classes@[i as int].0@));
            }
            i = i + 1;
        }
        assert(self.my_classes@.take(i as int) =~= self.my_classes@);
        self.my_classes = kept;
    }

    /// Takes in the outcome of a signup for `c`: a success adds `c` to its
    /// classes; a refusal for want of seats drops the list of classes with
    /// a free seat so that it is fetched again; a duplicate is ignored; any
    /// other error is handed back as fatal.
    pub fn on_signup(&mut self, c: &Class, r: Result<(), EnrollError>) -> (out: Result<(), EnrollError>)
        requires
            old(self).wf(),
            old(self).mine().len() < MAX_CLASSES,
        ensures
            final(self).wf(),
            final(self).student_id() == old(self).student_id(),
            match r {
                Ok(()) => out is Ok && final(self).mine() == old(self).mine().push(c.0@)
                    && final(self).candidate_names() == old(self).candidate_names(),
                Err(EnrollError::NoSeatsAvailable) => out is Ok && final(self).mine() == old(self).mine()
                    && final(self).candidate_names().len() == 0,
                Err(EnrollError::AlreadyEnrolled) => out is Ok && final(self).mine() == old(self).mine()
                    && final(self).candidate_names() == old(self).candidate_names(),
                Err(e) => out == Err::<(), EnrollError>(e) && final(self).mine() == old(self).mine()
                    && final(self).candidate_names() == old(self).candidate_names(),
            },
    {
        match r {
            Ok(()) => {
                self.my_classes.push(Class(c.0.clone()));
                assert(self.mine() =~= old(self).mine().push(c.0@));
                Ok(())
            },
            Err(EnrollError::NoSeatsAvailable) => {
                self.candidates = Vec::new();
                assert(self.candidate_names() =~= Seq::empty());
                Ok(())
            },
            Err(EnrollError::AlreadyEnrolled) => Ok(()),
            Err(e) => Err(e),
        }
    }

    /// Takes in the outcome of a dropout of `c`: a success removes `c` from
    /// its classes; any error is handed back as fatal.
    pub fn on_dropout(&mut self, c: &Class, r: Result<(), EnrollError>) -> (out: Result<(), EnrollError>)
        requires
            old(self).wf(),
        ensures
            final(self).wf(),
            final(self).student_id() == old(self).student_id(),
            final(self).candidate_names() == old(self).candidate_names(),
            match r {
                Ok(()) => out is Ok && final(self).mine() == without(old(self).mine(), c.0@),
                Err(e) => out == Err::<(), EnrollError>(e) && final(self).mine() == old(self).mine(),
            },
    {
        match r {
            Ok(()) => {
                self.drop_from_mine(c);
                proof {
                    old(self).mine().lemma_filter_len(other_than(c.0@));
                }
                Ok(())
            },
            Err(e) => Err(e),
        }
    }

    /// Takes in the outcome of a switch from `old_class` to `new_class`: a
    /// success replaces the one by the other in its classes; a refusal for
    /// want of seats drops the list of classes with a free seat; any other
    /// error is handed back as fatal.
    pub fn on_switch(&mut self, old_class: &Class, new_class: &Class, r: Result<(), EnrollError>) -> (out: Result<(), EnrollError>)
        requires
            old(self).wf(),
            old(self).mine().contains(old_class.0@),
        ensures
            final(self).wf(),
            final(self).student_id() == old(self).student_id(),
            match r {
                Ok(()) => out is Ok && final(self).mine() == without(old(self).mine(), old_class.0@).push(new_class.0@)
                    && final(self).candidate_names() == old(self).candidate_names(),
                Err(EnrollError::NoSeatsAvailable) => out is Ok && final(self).mine() == old(self).mine()
                    && final(self).candidate_names().len() == 0,
                Err(e) => out == Err::<(), EnrollError>(e) && final(self).mine() == old(self).mine()
                    && final(self).candidate_names() == old(self).candidate_names(),
            },
    {
        match r {
            Ok(()) => {
                self.drop_from_mine(old_class);
                proof {
                    lemma_without_shorter(old(self).mine(), old_class.0@);
                }
                let ghost kept = self.mine();
                self.my_classes.push(Class(new_class.0.clone()));
                assert(self.mine() =~= kept.push(new_class.0@));
                Ok(())
            },
            Err(EnrollError::NoSeatsAvailable) => {
                self.candidates = Vec::new();
                assert(self.candidate_names() =~= Seq::empty());
                Ok(())
            },
            Err(e) => Err(e),
        }
    }
}

} // verus!
