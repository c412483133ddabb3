//! The in-memory queries the surrounding console application runs over a
//! loaded record sequence.

use vstd::prelude::*;
use crate::models::{Entity, EntityV, Gender, Person};
use crate::repository::recs_view;
use crate::text::str_eq;

verus! {

/// A male student of the given course who lives in a dormitory room.
pub open spec fn dorm_student_match(e: EntityV, course: u8) -> bool {
    match e {
        EntityV::Student(s) => s.gender == Gender::Male && s.course == course
            && s.dormitory_room is Some,
        _ => false,
    }
}

/// How many records of the sequence are male students of the given course
/// living in a dormitory room.
pub open spec fn count_dorm_students(vs: Seq<EntityV>, course: u8) -> int
    decreases vs.len(),
{
    if vs.len() == 0 {
        0
    } else {
        (if dorm_student_match(vs[0], course) {
            1int
        } else {
            0int
        }) + count_dorm_students(vs.skip(1), course)
    }
}

/// Counting the male students of the given course who live in a dormitory
/// room.
pub fn count_male_dorm_students(es: &Vec<Entity>, course: u8) -> (r: usize)
    ensures
        r == count_dorm_students(recs_view(es@), course),
{
    let ghost vs = recs_view(es@);
    let mut count: usize = 0;
    let mut i: usize = 0;
    proof {
        assert(vs.skip(0) =~= vs);
    }
    while i < es.len()
        invariant
            i <= es@.len(),
            vs == recs_view(es@),
            count <= i,
            count + count_dorm_students(vs.skip(i as int), course) == count_dorm_students(
                vs,
                course,
            ),
        decreases es@.len() - i,
    {
        proof {
            assert(vs.skip(i as int)[0] == vs[i as int]);
            assert(vs.skip(i as int).skip(1) =~= vs.skip(i as int + 1));
        }
        let hit = match &es[i] {
            Entity::Student(s) => {
                let is_male = match s.gender {
                    Gender::Male => true,
                    _ => false,
                };
                is_male && s.course == course && s.dormitory_room.is_some()
            },
            _ => false,
        };
        if hit {
            count += 1;
        }
        i += 1;
    }
    proof {
        assert(count_dorm_students(vs.skip(es@.len() as int), course) == 0);
    }
    count
}

/// The positions, in order, of the records whose last name is `name`.
pub open spec fn match_indices(vs: Seq<EntityV>, name: Seq<char>, base: int) -> Seq<int>
    decreases vs.len(),
{
    if vs.len() == 0 {
        Seq::empty()
    } else {
        (if vs[0].last_name() == name {
            seq![base]
        } else {
            Seq::<int>::empty()
        }) + match_indices(vs.skip(1), name, base + 1)
    }
}

/// The positions, in order, of the records whose last name is `name`.
pub fn find_by_last_name(es: &Vec<Entity>, name: &str) -> (r: Vec<usize>)
    ensures
        r@.map_values(|u: usize| u as int) == match_indices(recs_view(es@), name@, 0),
{
    let ghost vs = recs_view(es@);
    let mut r: Vec<usize> = Vec::new();
    let mut i: usize = 0;
    proof {
        assert(vs.skip(0) =~= vs);
        assert(r@.map_values(|u: usize| u as int) =~= Seq::<int>::empty());
    }
    while i < es.len()
        invariant
            i <= es@.len(),
            vs == recs_view(es@),
            r@.map_values(|u: usize| u as int) + match_indices(vs.skip(i as int), name@, i as int)
                == match_indices(vs, name@, 0),
        decreases es@.len() - i,
    {
        proof {
            assert(vs.skip(i as int)[0] == vs[i as int]);
            assert(vs.skip(i as int).skip(1) =~= vs.skip(i as int + 1));
        }
        let ghost oldr = r@;
        if str_eq(es[i].last_name(), name) {
            r.push(i);
            proof {
                assert(r@.map_values(|u: usize| u as int) =~= oldr.map_values(
                    |u: usize| u as int,
                ) + seq![i as int]);
            }
        }
        proof {
            assert(r@.map_values(|u: usize| u as int) + match_indices(
                vs.skip(i as int + 1),
                name@,
                i as int + 1,
            ) =~= match_indices(vs, name@, 0));
        }
        i += 1;
    }
    proof {
        assert(match_indices(vs.skip(es@.len() as int), name@, es@.len() as int) =~= Seq::<
            int,
        >::empty());
        assert(r@.map_values(|u: usize| u as int) =~= match_indices(vs, name@, 0));
    }
    r
}

} // verus!
