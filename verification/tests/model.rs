use person_records::models::{Entity, Gardener, Gender, Person, Seller, Student};
use person_records::queries::{count_male_dorm_students, find_by_last_name};

fn sample_student(course: u8, dorm: Option<&str>) -> Student {
    Student {
        first_name: String::from("Ivan"),
        last_name: String::from("Pupkin"),
        gender: Gender::Male,
        student_id: String::from("42"),
        course,
        dormitory_room: dorm.map(String::from),
    }
}

#[test]
fn gender_from_str_is_case_insensitive() {
    assert_eq!(Gender::from_str("male"), Gender::Male);
    assert_eq!(Gender::from_str("MALE"), Gender::Male);
    assert_eq!(Gender::from_str("MaLe"), Gender::Male);
    assert_eq!(Gender::from_str("female"), Gender::Female);
    assert_eq!(Gender::from_str("Female"), Gender::Female);
}

#[test]
fn gender_from_str_unrecognized_maps_to_other() {
    assert_eq!(Gender::from_str(""), Gender::Other);
    assert_eq!(Gender::from_str("other"), Gender::Other);
    assert_eq!(Gender::from_str("malex"), Gender::Other);
    assert_eq!(Gender::from_str("fem"), Gender::Other);
}

#[test]
fn study_advances_course() {
    let mut s = sample_student(3, None);
    s.study();
    assert_eq!(s.course, 4);
}

#[test]
fn study_caps_at_ten() {
    let mut s = sample_student(10, None);
    s.study();
    assert_eq!(s.course, 10);
}

#[test]
fn person_capability_exposes_names_and_gender() {
    let e = Entity::Student(sample_student(1, None));
    let p = e.as_person();
    assert_eq!(p.first_name(), "Ivan");
    assert_eq!(p.last_name(), "Pupkin");
    assert_eq!(*p.gender(), Gender::Male);

    let seller = Seller {
        first_name: String::from("Olha"),
        last_name: String::from("Bond"),
        gender: Gender::Female,
        shop: None,
    };
    assert_eq!(seller.first_name(), "Olha");
    assert_eq!(*seller.gender(), Gender::Female);

    let gardener = Gardener {
        first_name: String::from("Eve"),
        last_name: String::from("Moss"),
        gender: Gender::Other,
        experience_years: None,
    };
    assert_eq!(gardener.last_name(), "Moss");
}

#[test]
fn count_matches_male_third_year_in_dorm() {
    let es = vec![
        Entity::Student(sample_student(3, Some("101"))),
        Entity::Student(sample_student(3, None)),
        Entity::Student(sample_student(2, Some("102"))),
        Entity::Student(Student { gender: Gender::Female, ..sample_student(3, Some("103")) }),
        Entity::Seller(Seller {
            first_name: String::from("Bob"),
            last_name: String::from("Stone"),
            gender: Gender::Male,
            shop: None,
        }),
        Entity::Student(sample_student(3, Some("104"))),
    ];
    assert_eq!(count_male_dorm_students(&es, 3), 2);
}

#[test]
fn find_by_last_name_returns_matching_positions_in_order() {
    let es = vec![
        Entity::Student(sample_student(1, None)),
        Entity::Seller(Seller {
            first_name: String::from("Bob"),
            last_name: String::from("Pupkin"),
            gender: Gender::Male,
            shop: None,
        }),
        Entity::Gardener(Gardener {
            first_name: String::from("Eve"),
            last_name: String::from("Moss"),
            gender: Gender::Other,
            experience_years: None,
        }),
    ];
    assert_eq!(find_by_last_name(&es, "Pupkin"), vec![0, 1]);
    assert_eq!(find_by_last_name(&es, "Moss"), vec![2]);
    assert_eq!(find_by_last_name(&es, "Nobody"), Vec::<usize>::new());
}
