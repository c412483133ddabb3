//! The record model: the closed set of person variants and the shared
//! name/gender capability they all expose.

use vstd::prelude::*;
use crate::text::{lower_seq, str_eq_lower};

verus! {

/// Closed gender enumeration. Text is read case-insensitively; anything
/// unrecognized maps to `Other` and never fails.
#[derive(Clone, Copy, Debug, PartialEq, Eq, Structural)]
pub enum Gender {
    Male,
    Female,
    Other,
}

/// The gender a piece of text denotes: `male` and `female` up to ASCII
/// case, everything else `Other`.
pub open spec fn gender_of_text(s: Seq<char>) -> Gender {
    if lower_seq(s) == "male"@ {
        Gender::Male
    } else if lower_seq(s) == "female"@ {
        Gender::Female
    } else {
        Gender::Other
    }
}

impl Gender {
    /// Case-insensitive reading of a gender value; unrecognized text maps
    /// to `Other`.
    pub fn from_str(s: &str) -> (g: Gender)
        ensures
            g == gender_of_text(s@),
    {
        if str_eq_lower(s, "male") {
            Gender::Male
        } else if str_eq_lower(s, "female") {
            Gender::Female
        } else {
            Gender::Other
        }
    }
}

/// Mathematical image of a `Student`.
pub ghost struct StudentV {
    pub first_name: Seq<char>,
    pub last_name: Seq<char>,
    pub gender: Gender,
    pub student_id: Seq<char>,
    pub course: u8,
    pub dormitory_room: Option<Seq<char>>,
}

/// Mathematical image of a `Seller`.
pub ghost struct SellerV {
    pub first_name: Seq<char>,
    pub last_name: Seq<char>,
    pub gender: Gender,
    pub shop: Option<Seq<char>>,
}

/// Mathematical image of a `Gardener`.
pub ghost struct GardenerV {
    pub first_name: Seq<char>,
    pub last_name: Seq<char>,
    pub gender: Gender,
    pub experience_years: Option<u8>,
}

/// Mathematical image of an `Entity`.
pub ghost enum EntityV {
    Student(StudentV),
    Seller(SellerV),
    Gardener(GardenerV),
}

impl EntityV {
    pub open spec fn first_name(self) -> Seq<char> {
        match self {
            EntityV::Student(s) => s.first_name,
            EntityV::Seller(s) => s.first_name,
            EntityV::Gardener(g) => g.first_name,
        }
    }

    pub open spec fn last_name(self) -> Seq<char> {
        match self {
            EntityV::Student(s) => s.last_name,
            EntityV::Seller(s) => s.last_name,
            EntityV::Gardener(g) => g.last_name,
        }
    }

    pub open spec fn gender(self) -> Gender {
        match self {
            EntityV::Student(s) => s.gender,
            EntityV::Seller(s) => s.gender,
            EntityV::Gardener(g) => g.gender,
        }
    }
}

/// The shared read-only capability every record variant exposes.
pub trait Person {
    spec fn spec_first_name(&self) -> Seq<char>;

    spec fn spec_last_name(&self) -> Seq<char>;

    spec fn spec_gender(&self) -> Gender;

    fn first_name(&self) -> (r: &str)
        ensures
            r@ == self.spec_first_name(),
    ;

    fn last_name(&self) -> (r: &str)
        ensures
            r@ == self.spec_last_name(),
    ;

    fn gender(&self) -> (r: &Gender)
        ensures
            *r == self.spec_gender(),
    ;
}

#[derive(Debug)]
pub struct Student {
    pub first_name: String,
    pub last_name: String,
    pub gender: Gender,
    pub student_id: String,
    pub course: u8,
    pub dormitory_room: Option<String>,
}

impl View for Student {
    type V = StudentV;

    open spec fn view(&self) -> StudentV {
        StudentV {
            first_name: self.first_name@,
            last_name: self.last_name@,
            gender: self.gender,
            student_id: self.student_id@,
            course: self.course,
            dormitory_room: match self.dormitory_room {
                Some(d) => Some(d@),
                None => None,
            },
        }
    }
}

impl Person for Student {
    open spec fn spec_first_name(&self) -> Seq<char> {
        self.first_name@
    }

    open spec fn spec_last_name(&self) -> Seq<char> {
        self.last_name@
    }

    open spec fn spec_gender(&self) -> Gender {
        self.gender
    }

    fn first_name(&self) -> &str {
        self.first_name.as_str()
    }

    fn last_name(&self) -> &str {
        self.last_name.as_str()
    }

    fn gender(&self) -> &Gender {
        &self.gender
    }
}

impl Student {
    /// Advancing one course, capped at ten.
    pub fn study(&mut self)
        ensures
            final(self).course == if old(self).course < 10 {
                (old(self).course + 1) as u8
            } else {
                old(self).course
            },
            final(self).first_name == old(self).first_name,
            final(self).last_name == old(self).last_name,
            final(self).gender == old(self).gender,
            final(self).student_id == old(self).student_id,
            final(self).dormitory_room == old(self).dormitory_room,
    {
        if self.course < 10 {
            self.course += 1;
        }
    }
}

#[derive(Debug)]
pub struct Seller {
    pub first_name: String,
    pub last_name: String,
    pub gender: Gender,
    pub shop: Option<String>,
}

impl View for Seller {
    type V = SellerV;

    open spec fn view(&self) -> SellerV {
        SellerV {
            first_name: self.first_name@,
            last_name: self.last_name@,
            gender: self.gender,
            shop: match self.shop {
                Some(s) => Some(s@),
                None => None,
            },
        }
    }
}

impl Person for Seller {
    open spec fn spec_first_name(&self) -> Seq<char> {
        self.first_name@
    }

    open spec fn spec_last_name(&self) -> Seq<char> {
        self.last_name@
    }

    open spec fn spec_gender(&self) -> Gender {
        self.gender
    }

    fn first_name(&self) -> &str {
        self.first_name.as_str()
    }

    fn last_name(&self) -> &str {
        self.last_name.as_str()
    }

    fn gender(&self) -> &Gender {
        &self.gender
    }
}

#[derive(Debug)]
pub struct Gardener {
    pub first_name: String,
    pub last_name: String,
    pub gender: Gender,
    pub experience_years: Option<u8>,
}

impl View for Gardener {
    type V = GardenerV;

    open spec fn view(&self) -> GardenerV {
        GardenerV {
            first_name: self.first_name@,
            last_name: self.last_name@,
            gender: self.gender,
            experience_years: self.experience_years,
        }
    }
}

impl Person for Gardener {
    open spec fn spec_first_name(&self) -> Seq<char> {
        self.first_name@
    }

    open spec fn spec_last_name(&self) -> Seq<char> {
        self.last_name@
    }

    open spec fn spec_gender(&self) -> Gender {
        self.gender
    }

    fn first_name(&self) -> &str {
        self.first_name.as_str()
    }

    fn last_name(&self) -> &str {
        self.last_name.as_str()
    }

    fn gender(&self) -> &Gender {
        &self.gender
    }
}

/// One persisted record: the closed variant set.
#[derive(Debug)]
pub enum Entity {
    Student(Student),
    Seller(Seller),
    Gardener(Gardener),
}

impl View for Entity {
    type V = EntityV;

    open spec fn view(&self) -> EntityV {
        match self {
            Entity::Student(s) => EntityV::Student(s@),
            Entity::Seller(s) => EntityV::Seller(s@),
            Entity::Gardener(g) => EntityV::Gardener(g@),
        }
    }
}

impl Person for Entity {
    open spec fn spec_first_name(&self) -> Seq<char> {
        self@.first_name()
    }

    open spec fn spec_last_name(&self) -> Seq<char> {
        self@.last_name()
    }

    open spec fn spec_gender(&self) -> Gender {
        self@.gender()
    }

    fn first_name(&self) -> &str {
        match self {
            Entity::Student(s) => s.first_name.as_str(),
            Entity::Seller(s) => s.first_name.as_str(),
            Entity::Gardener(g) => g.first_name.as_str(),
        }
    }

    fn last_name(&self) -> &str {
        match self {
            Entity::Student(s) => s.last_name.as_str(),
            Entity::Seller(s) => s.last_name.as_str(),
            Entity::Gardener(g) => g.last_name.as_str(),
        }
    }

    fn gender(&self) -> &Gender {
        match self {
            Entity::Student(s) => &s.gender,
            Entity::Seller(s) => &s.gender,
            Entity::Gardener(g) => &g.gender,
        }
    }
}

impl Entity {
    /// The record seen through the shared person capability. `Entity`
    /// itself implements `Person` by dispatching on the variant, so the
    /// record is handed back under that trait.
    pub fn as_person(&self) -> (r: &Entity)
        ensures
            r == self,
    {
        self
    }
}

} // verus!
