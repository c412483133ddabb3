use person_records::models::{Entity, Gardener, Gender, Seller, Student};
use person_records::repository::{FileRepository, RepoError};

fn student_vlad() -> Student {
    Student {
        first_name: String::from("Vlad"),
        last_name: String::from("Upyrov"),
        gender: Gender::Male,
        student_id: String::from("3332"),
        course: 3,
        dormitory_room: Some(String::from("101-12")),
    }
}

#[test]
fn round_trip_student_with_dorm() {
    let repo = FileRepository::new();
    let text = repo.serialize_record(&Entity::Student(student_vlad()));
    let (records, skipped) = repo.parse_all(text.as_str()).unwrap();
    assert_eq!(records.len(), 1);
    assert_eq!(skipped.len(), 0);
    match &records[0] {
        Entity::Student(s) => {
            assert_eq!(s.first_name, "Vlad");
            assert_eq!(s.last_name, "Upyrov");
            assert_eq!(s.student_id, "3332");
            assert_eq!(s.gender, Gender::Male);
            assert_eq!(s.course, 3);
            assert_eq!(s.dormitory_room.as_deref(), Some("101-12"));
        },
        _ => panic!("expected a student"),
    }
}

#[test]
fn round_trip_each_kind() {
    let repo = FileRepository::new();
    let all = vec![
        Entity::Student(Student {
            first_name: String::from("Ada"),
            last_name: String::from("Byron"),
            gender: Gender::Female,
            student_id: String::from("1"),
            course: 255,
            dormitory_room: None,
        }),
        Entity::Seller(Seller {
            first_name: String::from("Bob"),
            last_name: String::from("Stone"),
            gender: Gender::Male,
            shop: Some(String::from("Corner shop")),
        }),
        Entity::Gardener(Gardener {
            first_name: String::from("Eve"),
            last_name: String::from("Moss"),
            gender: Gender::Other,
            experience_years: Some(7),
        }),
    ];
    let text = repo.serialize_all(&all);
    let (records, skipped) = repo.parse_all(text.as_str()).unwrap();
    assert_eq!(records.len(), 3);
    assert_eq!(skipped.len(), 0);
    match &records[0] {
        Entity::Student(s) => {
            assert_eq!(s.first_name, "Ada");
            assert_eq!(s.course, 255);
            assert_eq!(s.dormitory_room, None);
        },
        _ => panic!("expected a student first"),
    }
    match &records[1] {
        Entity::Seller(s) => {
            assert_eq!(s.last_name, "Stone");
            assert_eq!(s.shop.as_deref(), Some("Corner shop"));
        },
        _ => panic!("expected a seller second"),
    }
    match &records[2] {
        Entity::Gardener(g) => {
            assert_eq!(g.gender, Gender::Other);
            assert_eq!(g.experience_years, Some(7));
        },
        _ => panic!("expected a gardener third"),
    }
}

#[test]
fn serialized_text_is_exact() {
    let repo = FileRepository::new();
    let text = repo.serialize_record(&Entity::Student(student_vlad()));
    let expected = "Student VladUpyrov\n\
                    { \"firstName\": \"Vlad\",\n\
                    \"lastName\": \"Upyrov\",\n\
                    \"studentId\": \"3332\",\n\
                    \"gender\": \"Male\",\n\
                    \"course\": \"3\",\n\
                    \"dorm\": \"101-12\"};\n";
    assert_eq!(text, expected);
}

#[test]
fn serialized_text_without_optional_field_closes_alone() {
    let repo = FileRepository::new();
    let seller = Entity::Seller(Seller {
        first_name: String::from("Bob"),
        last_name: String::from("Stone"),
        gender: Gender::Male,
        shop: None,
    });
    let text = repo.serialize_record(&seller);
    let expected = "Seller BobStone\n\
                    { \"firstName\": \"Bob\",\n\
                    \"lastName\": \"Stone\",\n\
                    \"gender\": \"Male\",\n\
                    };\n";
    assert_eq!(text, expected);
}

#[test]
fn course_present_as_three_parses_to_three() {
    let repo = FileRepository::new();
    let text = "Student AB\n{ \"firstName\": \"A\",\n\"lastName\": \"B\",\n\"studentId\": \"9\",\n\"course\": \"3\"};\n";
    let (records, _) = repo.parse_all(text).unwrap();
    match &records[0] {
        Entity::Student(s) => assert_eq!(s.course, 3),
        _ => panic!("expected a student"),
    }
}

#[test]
fn course_absent_defaults_to_one() {
    let repo = FileRepository::new();
    let text = "Student AB\n{ \"firstName\": \"A\",\n\"lastName\": \"B\",\n\"studentId\": \"9\"};\n";
    let (records, _) = repo.parse_all(text).unwrap();
    match &records[0] {
        Entity::Student(s) => assert_eq!(s.course, 1),
        _ => panic!("expected a student"),
    }
}

#[test]
fn course_non_numeric_defaults_to_one() {
    let repo = FileRepository::new();
    let text = "Student AB\n{ \"firstName\": \"A\",\n\"lastName\": \"B\",\n\"studentId\": \"9\",\n\"course\": \"abc\"};\n";
    let (records, _) = repo.parse_all(text).unwrap();
    match &records[0] {
        Entity::Student(s) => assert_eq!(s.course, 1),
        _ => panic!("expected a student"),
    }
}

#[test]
fn course_too_large_defaults_to_one() {
    let repo = FileRepository::new();
    let text = "Student AB\n{ \"firstName\": \"A\",\n\"lastName\": \"B\",\n\"studentId\": \"9\",\n\"course\": \"300\"};\n";
    let (records, _) = repo.parse_all(text).unwrap();
    match &records[0] {
        Entity::Student(s) => assert_eq!(s.course, 1),
        _ => panic!("expected a student"),
    }
}

#[test]
fn missing_first_name_fails_whole_read() {
    let repo = FileRepository::new();
    let good = repo.serialize_record(&Entity::Student(student_vlad()));
    let bad = "Student XY\n{ \"lastName\": \"Y\",\n\"studentId\": \"1\"};\n";
    let text = format!("{}{}", good, bad);
    let err = repo.parse_all(text.as_str()).unwrap_err();
    assert_eq!(err, RepoError::Format);
}

#[test]
fn missing_last_name_fails_whole_read() {
    let repo = FileRepository::new();
    let text = "Seller XY\n{ \"firstName\": \"X\"};\n";
    let err = repo.parse_all(text).unwrap_err();
    assert_eq!(err, RepoError::Format);
}

#[test]
fn missing_student_id_fails_whole_read() {
    let repo = FileRepository::new();
    let text = "Student XY\n{ \"firstName\": \"X\",\n\"lastName\": \"Y\"};\n";
    let err = repo.parse_all(text).unwrap_err();
    assert_eq!(err, RepoError::Format);
}

#[test]
fn unknown_kind_is_skipped_with_warning() {
    let repo = FileRepository::new();
    let good = repo.serialize_record(&Entity::Student(student_vlad()));
    let text = format!(
        "Wizard FooBar\n{{ \"firstName\": \"Foo\",\n\"lastName\": \"Bar\"}};\n{}",
        good
    );
    let (records, skipped) = repo.parse_all(text.as_str()).unwrap();
    assert_eq!(records.len(), 1);
    assert_eq!(skipped, vec![String::from("Wizard")]);
    match &records[0] {
        Entity::Student(s) => assert_eq!(s.first_name, "Vlad"),
        _ => panic!("expected a student"),
    }
}

#[test]
fn empty_text_parses_to_no_records() {
    let repo = FileRepository::new();
    let (records, skipped) = repo.parse_all("").unwrap();
    assert_eq!(records.len(), 0);
    assert_eq!(skipped.len(), 0);
}

#[test]
fn overwrite_with_no_records_writes_nothing() {
    let repo = FileRepository::new();
    let text = repo.serialize_all(&[]);
    assert_eq!(text, "");
    let (records, _) = repo.parse_all(text.as_str()).unwrap();
    assert_eq!(records.len(), 0);
}

#[test]
fn blank_lines_between_records_are_skipped() {
    let repo = FileRepository::new();
    let one = repo.serialize_record(&Entity::Student(student_vlad()));
    let text = format!("\n  \n{}\n\n{}", one, one);
    let (records, _) = repo.parse_all(text.as_str()).unwrap();
    assert_eq!(records.len(), 2);
}

#[test]
fn duplicate_keys_last_occurrence_wins() {
    let repo = FileRepository::new();
    let text = "Seller AB\n{ \"firstName\": \"A\",\n\"firstName\": \"Z\",\n\"lastName\": \"B\"};\n";
    let (records, _) = repo.parse_all(text).unwrap();
    match &records[0] {
        Entity::Seller(s) => assert_eq!(s.first_name, "Z"),
        _ => panic!("expected a seller"),
    }
}

#[test]
fn unknown_keys_are_ignored() {
    let repo = FileRepository::new();
    let text = "Seller AB\n{ \"firstName\": \"A\",\n\"hat\": \"tall\",\n\"lastName\": \"B\"};\n";
    let (records, _) = repo.parse_all(text).unwrap();
    match &records[0] {
        Entity::Seller(s) => {
            assert_eq!(s.first_name, "A");
            assert_eq!(s.last_name, "B");
            assert_eq!(s.shop, None);
        },
        _ => panic!("expected a seller"),
    }
}

#[test]
fn experience_non_numeric_is_absent() {
    let repo = FileRepository::new();
    let text = "Gardener AB\n{ \"firstName\": \"A\",\n\"lastName\": \"B\",\n\"experience\": \"lots\"};\n";
    let (records, _) = repo.parse_all(text).unwrap();
    match &records[0] {
        Entity::Gardener(g) => assert_eq!(g.experience_years, None),
        _ => panic!("expected a gardener"),
    }
}

#[test]
fn missing_gender_maps_to_other() {
    let repo = FileRepository::new();
    let text = "Seller AB\n{ \"firstName\": \"A\",\n\"lastName\": \"B\"};\n";
    let (records, _) = repo.parse_all(text).unwrap();
    match &records[0] {
        Entity::Seller(s) => assert_eq!(s.gender, Gender::Other),
        _ => panic!("expected a seller"),
    }
}

#[test]
fn gender_read_case_insensitively_from_file() {
    let repo = FileRepository::new();
    let text = "Seller AB\n{ \"firstName\": \"A\",\n\"lastName\": \"B\",\n\"gender\": \"FEMALE\"};\n";
    let (records, _) = repo.parse_all(text).unwrap();
    match &records[0] {
        Entity::Seller(s) => assert_eq!(s.gender, Gender::Female),
        _ => panic!("expected a seller"),
    }
}
