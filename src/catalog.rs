//! The class catalog: every class name is a time, a subject and a level,
//! joined by single spaces.
use vstd::prelude::*;
use crate::codec::Class;

verus! {

pub const N_LEVELS: usize = 9;
pub const N_SUBJECTS: usize = 10;
pub const N_TIMES: usize = 18;

/// The number of classes in the catalog.
pub const N_CLASSES: usize = 1620;

pub open spec fn levels() -> Seq<Seq<char>> {
    seq![
        "intro"@, "for dummies"@, "remedial"@, "101"@, "201"@, "301"@, "mastery"@, "lab"@,
        "seminar"@,
    ]
}

pub open spec fn subjects() -> Seq<Seq<char>> {
    seq![
        "chem"@, "bio"@, "cs"@, "geometry"@, "calc"@, "alg"@, "film"@, "music"@, "art"@,
        "dance"@,
    ]
}

pub open spec fn times() -> Seq<Seq<char>> {
    seq![
        "2:00"@, "3:00"@, "4:00"@, "5:00"@, "6:00"@, "7:00"@, "8:00"@, "9:00"@, "10:00"@,
        "11:00"@, "12:00"@, "13:00"@, "14:00"@, "15:00"@, "16:00"@, "17:00"@, "18:00"@,
        "19:00"@,
    ]
}

pub open spec fn join_words(a: Seq<char>, b: Seq<char>, c: Seq<char>) -> Seq<char> {
    a + seq![' '] + b + seq![' '] + c
}

/// The name of the class at position `i` of the catalog: levels vary
/// slowest, times fastest.
pub open spec fn catalog_name(i: int) -> Seq<char> {
    join_words(
        times()[i % (N_TIMES as int)],
        subjects()[(i / (N_TIMES as int)) % (N_SUBJECTS as int)],
        levels()[i / ((N_TIMES * N_SUBJECTS) as int)],
    )
}

/// Relies on std's `format!`, with `Display` of `&str` writing the text as
/// it is: the three words joined by single spaces.
#[verifier::external_body]
fn join_three(a: &str, b: &str, c: &str) -> (r: String)
    ensures
        r@ == join_words(a@, b@, c@),
{
    format!("{} {} {}", a, b, c)
}

fn level_words() -> (r: Vec<&'static str>)
    ensures
        r@.map_values(|w: &str| w@) == levels(),
        r@.len() == N_LEVELS,
{
    let r = vec![
        "intro",
        "for dummies",
        "remedial",
        "101",
        "201",
        "301",
        "mastery",
        "lab",
        "seminar",
    ];
    assert(r@.map_values(|w: &str| w@) =~= levels());
    r
}

fn subject_words() -> (r: Vec<&'static str>)
    ensures
        r@.map_values(|w: &str| w@) == subjects(),
        r@.len() == N_SUBJECTS,
{
    let r = vec!["chem", "bio", "cs", "geometry", "calc", "alg", "film", "music", "art", "dance"];
    assert(r@.map_values(|w: &str| w@) =~= subjects());
    r
}

fn time_words() -> (r: Vec<&'static str>)
    ensures
        r@.map_values(|w: &str| w@) == times(),
        r@.len() == N_TIMES,
{
    let r = vec![
        "2:00",
        "3:00",
        "4:00",
        "5:00",
        "6:00",
        "7:00",
        "8:00",
        "9:00",
        "10:00",
        "11:00",
        "12:00",
        "13:00",
        "14:00",
        "15:00",
        "16:00",
        "17:00",
        "18:00",
        "19:00",
    ];
    assert(r@.map_values(|w: &str| w@) =~= times());
    r
}

proof fn lemma_catalog_index(l: int, y: int, t: int)
    requires
        0 <= l < 9,
        0 <= y < 10,
        0 <= t < 18,
    ensures
        (l * 180 + y * 18 + t) % 18 == t,
        ((l * 180 + y * 18 + t) / 18) % 10 == y,
        (l * 180 + y * 18 + t) / 180 == l,
{
    assert((l * 180 + y * 18 + t) % 18 == t) by (nonlinear_arith)
        requires 0 <= l < 9, 0 <= y < 10, 0 <= t < 18;
    assert((l * 180 + y * 18 + t) / 18 == l * 10 + y) by (nonlinear_arith)
        requires 0 <= l < 9, 0 <= y < 10, 0 <= t < 18;
    assert((l * 10 + y) % 10 == y) by (nonlinear_arith)
        requires 0 <= l < 9, 0 <= y < 10;
    assert((l * 180 + y * 18 + t) / 180 == l) by (nonlinear_arith)
        requires 0 <= l < 9, 0 <= y < 10, 0 <= t < 18;
}

/// Every class of the catalog, in catalog order.
pub fn init_class_names() -> (r: Vec<Class>)
    ensures
        r@.len() == N_CLASSES,
        forall|i: int| 0 <= i < N_CLASSES ==> (#[trigger] r@[i]).0@ == catalog_name(i),
{
    let lv = level_words();
    let sj = subject_words();
    let tm = time_words();
    let mut r: Vec<Class> = Vec::new();
    let mut l: usize = 0;
    while l < N_LEVELS
        invariant
            l <= N_LEVELS,
            lv@.len() == N_LEVELS,
            lv@.map_values(|w: &str| w@) == levels(),
            sj@.len() == N_SUBJECTS,
            sj@.map_values(|w: &str| w@) == subjects(),
            tm@.len() == N_TIMES,
            tm@.map_values(|w: &str| w@) == times(),
            r@.len() == l * 180,
            forall|i: int| 0 <= i < r@.len() ==> (#[trigger] r@[i]).0@ == catalog_name(i),
        decreases N_LEVELS - l,
    {
        let mut y: usize = 0;
        while y < N_SUBJECTS
            invariant
                l < N_LEVELS,
                y <= N_SUBJECTS,
                lv@.len() == N_LEVELS,
            lv@.map_values(|w: &str| w@) == levels(),
                sj@.len() == N_SUBJECTS,
            sj@.map_values(|w: &str| w@) == subjects(),
                tm@.len() == N_TIMES,
            tm@.map_values(|w: &str| w@) == times(),
                r@.len() == l * 180 + y * 18,
                forall|i: int| 0 <= i < r@.len() ==> (#[trigger] r@[i]).0@ == catalog_name(i),
            decreases N_SUBJECTS - y,
        {
            let mut t: usize = 0;
            while t < N_TIMES
                invariant
                    l < N_LEVELS,
                    y < N_SUBJECTS,
                    t <= N_TIMES,
                    lv@.len() == N_LEVELS,
            lv@.map_values(|w: &str| w@) == levels(),
                    sj@.len() == N_SUBJECTS,
            sj@.map_values(|w: &str| w@) == subjects(),
                    tm@.len() == N_TIMES,
            tm@.map_values(|w: &str| w@) == times(),
                    r@.len() == l * 180 + y * 18 + t,
                    forall|i: int| 0 <= i < r@.len() ==> (#[trigger] r@[i]).0@ == catalog_name(i),
                decreases N_TIMES - t,
            {
                proof {
                    lemma_catalog_index(l as int, y as int, t as int);
                    assert(tm@.map_values(|w: &str| w@)[t as int] == tm@[t as int]@);
                    assert(sj@.map_values(|w: &str| w@)[y as int] == sj@[y as int]@);
                    assert(lv@.map_values(|w: &str| w@)[l as int] == lv@[l as int]@);
                }
                let name = join_three(tm[t], sj[y], lv[l]);
                r.push(Class(name));
                t = t + 1;
            }
            y = y + 1;
        }
        l = l + 1;
    }
    r
}

pub open spec fn has_no_space(w: Seq<char>) -> bool {
    forall|k: int| 0 <= k < w.len() ==> w[k] != ' '
}

proof fn lemma_join_injective(a: Seq<char>, b: Seq<char>, c: Seq<char>, a2: Seq<char>, b2: Seq<char>, c2: Seq<char>)
    requires
        has_no_space(a),
        has_no_space(b),
        has_no_space(a2),
        has_no_space(b2),
        join_words(a, b, c) == join_words(a2, b2, c2),
    ensures
        a == a2,
        b == b2,
        c == c2,
{
    let x = join_words(a, b, c);
    assert(x =~= a + (seq![' '] + b + seq![' '] + c));
    assert(x =~= a2 + (seq![' '] + b2 + seq![' '] + c2));
    if a.len() < a2.len() {
        assert(x[a.len() as int] == ' ');
        assert(x[a.len() as int] == a2[a.len() as int]);
    }
    if a2.len() < a.len() {
        assert(x[a2.len() as int] == ' ');
        assert(x[a2.len() as int] == a[a2.len() as int]);
    }
    assert(a =~= x.subrange(0, a.len() as int));
    assert(a2 =~= x.subrange(0, a2.len() as int));
    let y = x.subrange(a.len() as int + 1, x.len() as int);
    assert(y =~= b + (seq![' '] + c));
    assert(y =~= b2 + (seq![' '] + c2));
    if b.len() < b2.len() {
        assert(y[b.len() as int] == ' ');
        assert(y[b.len() as int] == b2[b.len() as int]);
    }
    if b2.len() < b.len() {
        assert(y[b2.len() as int] == ' ');
        assert(y[b2.len() as int] == b[b2.len() as int]);
    }
    assert(b =~= y.subrange(0, b.len() as int));
    assert(b2 =~= y.subrange(0, b2.len() as int));
    assert(c =~= y.subrange(b.len() as int + 1, y.len() as int));
    assert(c2 =~= y.subrange(b2.len() as int + 1, y.len() as int));
}

proof fn lemma_words()
    ensures
        forall|i: int| 0 <= i < N_TIMES ==> has_no_space(#[trigger] times()[i]),
        forall|i: int| 0 <= i < N_SUBJECTS ==> has_no_space(#[trigger] subjects()[i]),
        forall|i: int, j: int| 0 <= i < N_TIMES && 0 <= j < N_TIMES && #[trigger] times()[i] == #[trigger] times()[j] ==> i == j,
        forall|i: int, j: int| 0 <= i < N_SUBJECTS && 0 <= j < N_SUBJECTS && #[trigger] subjects()[i] == #[trigger] subjects()[j] ==> i == j,
        forall|i: int, j: int| 0 <= i < N_LEVELS && 0 <= j < N_LEVELS && #[trigger] levels()[i] == #[trigger] levels()[j] ==> i == j,
{
    reveal_strlit("2:00");
    reveal_strlit("3:00");
    reveal_strlit("4:00");
    reveal_strlit("5:00");
    reveal_strlit("6:00");
    reveal_strlit("7:00");
    reveal_strlit("8:00");
    reveal_strlit("9:00");
    reveal_strlit("10:00");
    reveal_strlit("11:00");
    reveal_strlit("12:00");
    reveal_strlit("13:00");
    reveal_strlit("14:00");
    reveal_strlit("15:00");
    reveal_strlit("16:00");
    reveal_strlit("17:00");
    reveal_strlit("18:00");
    reveal_strlit("19:00");
    reveal_strlit("chem");
    reveal_strlit("bio");
    reveal_strlit("cs");
    reveal_strlit("geometry");
    reveal_strlit("calc");
    reveal_strlit("alg");
    reveal_strlit("film");
    reveal_strlit("music");
    reveal_strlit("art");
    reveal_strlit("dance");
    reveal_strlit("intro");
    reveal_strlit("for dummies");
    reveal_strlit("remedial");
    reveal_strlit("101");
    reveal_strlit("201");
    reveal_strlit("301");
    reveal_strlit("mastery");
    reveal_strlit("lab");
    reveal_strlit("seminar");
    assert forall|i: int| 0 <= i < N_TIMES implies has_no_space(#[trigger] times()[i]) by {
        assert(times()[i].len() <= 5);
    }
    assert forall|i: int| 0 <= i < N_SUBJECTS implies has_no_space(#[trigger] subjects()[i]) by {
        assert(subjects()[i].len() <= 8);
    }
    assert forall|i: int, j: int| 0 <= i < N_TIMES && 0 <= j < N_TIMES && #[trigger] times()[i] == #[trigger] times()[j] implies i == j by {
        if i != j {
            assert(times()[i].len() != times()[j].len() || times()[i][0] != times()[j][0] || times()[i][1] != times()[j][1]);
        }
    }
    assert forall|i: int, j: int| 0 <= i < N_SUBJECTS && 0 <= j < N_SUBJECTS && #[trigger] subjects()[i] == #[trigger] subjects()[j] implies i == j by {
        if i != j {
            assert(subjects()[i].len() != subjects()[j].len() || subjects()[i][0] != subjects()[j][0] || subjects()[i][1] != subjects()[j][1]);
        }
    }
    assert forall|i: int, j: int| 0 <= i < N_LEVELS && 0 <= j < N_LEVELS && #[trigger] levels()[i] == #[trigger] levels()[j] implies i == j by {
        if i != j {
            assert(levels()[i].len() != levels()[j].len() || levels()[i][0] != levels()[j][0]);
        }
    }
}

/// Distinct positions of the catalog carry distinct names.
pub proof fn lemma_catalog_names_distinct(i: int, j: int)
    requires
        0 <= i < N_CLASSES,
        0 <= j < N_CLASSES,
        catalog_name(i) == catalog_name(j),
    ensures
        i == j,
{
    lemma_words();
    assert(0 <= i % 18 < 18 && 0 <= (i / 18) % 10 < 10 && 0 <= i / 180 < 9);
    assert(0 <= j % 18 < 18 && 0 <= (j / 18) % 10 < 10 && 0 <= j / 180 < 9);
    lemma_join_injective(
        times()[i % 18],
        subjects()[(i / 18) % 10],
        levels()[i / 180],
        times()[j % 18],
        subjects()[(j / 18) % 10],
        levels()[j / 180],
    );
    assert(i % 18 == j % 18);
    assert((i / 18) % 10 == (j / 18) % 10);
    assert(i / 180 == j / 180);
    assert(i == (i / 180) * 180 + ((i / 18) % 10) * 18 + i % 18);
    assert(j == (j / 180) * 180 + ((j / 18) % 10) * 18 + j % 18);
}

} // verus!
