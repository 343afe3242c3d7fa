use gecos::segments::split_at_commas;
use gecos::{Gecos, GecosError, GecosSanitizedString};

fn field(text: &str) -> GecosSanitizedString {
    GecosSanitizedString::new(text.to_string()).unwrap()
}

fn texts(list: &[GecosSanitizedString]) -> Vec<String> {
    list.iter().map(|entry| entry.to_string()).collect()
}

fn text_of(slot: &Option<GecosSanitizedString>) -> Option<String> {
    slot.as_ref().map(|entry| entry.to_string())
}

fn illegal_char_of(input: &str) -> char {
    match Gecos::from_gecos_string(input) {
        Ok(_) => panic!("{:?} was parsed", input),
        Err(GecosError::IllegalPasswdChar(c)) => c,
    }
}

#[test]
fn empty_record_is_four_commas() {
    let gecos = Gecos { full_name: None, room: None, work_phone: None, home_phone: None, other: vec![] };
    assert_eq!(gecos.to_gecos_string(), ",,,,");
}

#[test]
fn full_name_alone() {
    let gecos = Gecos {
        full_name: Some(field("Test Name")),
        room: None,
        work_phone: None,
        home_phone: None,
        other: vec![],
    };
    assert_eq!(gecos.to_gecos_string(), "Test Name,,,,");
}

#[test]
fn full_name_and_other_entries() {
    let gecos = Gecos {
        full_name: Some(field("Test Name")),
        room: None,
        work_phone: None,
        home_phone: None,
        other: vec![field("Some info"), field("More info")],
    };
    assert_eq!(gecos.to_gecos_string(), "Test Name,,,,Some info,More info");
}

#[test]
fn all_slots_set() {
    let gecos = Gecos {
        full_name: Some(field("Guest")),
        room: Some(field("H-1.13")),
        work_phone: Some(field("574")),
        home_phone: Some(field("+491606799999")),
        other: vec![field("guest@example.org")],
    };
    assert_eq!(gecos.to_gecos_string(), "Guest,H-1.13,574,+491606799999,guest@example.org");
}

#[test]
fn slot_set_to_the_empty_text_writes_nothing() {
    let gecos = Gecos {
        full_name: Some(field("")),
        room: Some(field("R")),
        work_phone: None,
        home_phone: Some(field("")),
        other: vec![field("x")],
    };
    assert_eq!(gecos.to_gecos_string(), ",R,,,x");
}

#[test]
fn empty_other_entries_are_written() {
    let gecos = Gecos {
        full_name: None,
        room: None,
        work_phone: None,
        home_phone: None,
        other: vec![field(""), field("a"), field("")],
    };
    assert_eq!(gecos.to_gecos_string(), ",,,,,a,");
}

#[test]
fn comma_count_of_the_flat_form() {
    let count = |gecos: &Gecos| gecos.to_gecos_string().chars().filter(|c| *c == ',').count();
    let mut gecos = Gecos {
        full_name: Some(field("n")),
        room: None,
        work_phone: None,
        home_phone: None,
        other: vec![],
    };
    assert_eq!(count(&gecos), 4);
    gecos.other.push(field("a"));
    assert_eq!(count(&gecos), 4);
    gecos.other.push(field("b"));
    assert_eq!(count(&gecos), 5);
    gecos.other.push(field(""));
    assert_eq!(count(&gecos), 6);
}

#[test]
fn parse_full_name_and_empty_segments() {
    let gecos = Gecos::from_gecos_string("Some Person,,,,").unwrap();
    assert_eq!(text_of(&gecos.full_name), Some("Some Person".to_string()));
    assert!(gecos.room.is_none());
    assert!(gecos.work_phone.is_none());
    assert!(gecos.home_phone.is_none());
    // The fifth segment is empty, and an empty segment of the list is kept.
    assert_eq!(texts(&gecos.other), [""]);
}

#[test]
fn parse_all_fields() {
    let gecos =
        Gecos::from_gecos_string("Some Person,Room,Work phone,Home phone,Other 1,Other 2").unwrap();
    assert_eq!(gecos.full_name.unwrap().to_string(), "Some Person");
    assert_eq!(gecos.room.unwrap().to_string(), "Room");
    assert_eq!(gecos.work_phone.unwrap().to_string(), "Work phone");
    assert_eq!(gecos.home_phone.unwrap().to_string(), "Home phone");
    assert_eq!(texts(&gecos.other), ["Other 1", "Other 2"]);
}

#[test]
fn parse_with_unset_slots() {
    let gecos = Gecos::from_gecos_string("Some Person,,,Home phone,Other").unwrap();
    assert_eq!(gecos.full_name.unwrap().to_string(), "Some Person");
    assert!(gecos.room.is_none());
    assert!(gecos.work_phone.is_none());
    assert_eq!(gecos.home_phone.unwrap().to_string(), "Home phone");
    assert_eq!(texts(&gecos.other), ["Other"]);
}

#[test]
fn parse_single_segment() {
    let gecos = Gecos::from_gecos_string("Some Person").unwrap();
    assert_eq!(gecos.full_name.unwrap().to_string(), "Some Person");
    assert!(gecos.room.is_none());
    assert!(gecos.work_phone.is_none());
    assert!(gecos.home_phone.is_none());
    assert_eq!(gecos.other, Vec::<GecosSanitizedString>::new());
}

#[test]
fn parse_the_empty_text() {
    let gecos = Gecos::from_gecos_string("").unwrap();
    assert!(gecos.full_name.is_none());
    assert!(gecos.room.is_none());
    assert!(gecos.work_phone.is_none());
    assert!(gecos.home_phone.is_none());
    assert!(gecos.other.is_empty());
}

#[test]
fn parse_fewer_than_five_segments() {
    let gecos = Gecos::from_gecos_string("a,,b").unwrap();
    assert_eq!(text_of(&gecos.full_name), Some("a".to_string()));
    assert!(gecos.room.is_none());
    assert_eq!(text_of(&gecos.work_phone), Some("b".to_string()));
    assert!(gecos.home_phone.is_none());
    assert!(gecos.other.is_empty());

    let gecos = Gecos::from_gecos_string("a,b,c,d").unwrap();
    assert_eq!(text_of(&gecos.home_phone), Some("d".to_string()));
    assert!(gecos.other.is_empty());
}

#[test]
fn parse_keeps_empty_segments_of_the_list() {
    let gecos = Gecos::from_gecos_string("a,b,c,d,e,").unwrap();
    assert_eq!(texts(&gecos.other), ["e", ""]);
    let gecos = Gecos::from_gecos_string(",,,,,,x,").unwrap();
    assert!(gecos.full_name.is_none());
    assert!(gecos.home_phone.is_none());
    assert_eq!(texts(&gecos.other), ["", "", "x", ""]);
}

#[test]
fn parse_text_beyond_ascii() {
    let gecos = Gecos::from_gecos_string("Zoë Müller,東京 5,,☎ 12,ü,,ß").unwrap();
    assert_eq!(text_of(&gecos.full_name), Some("Zoë Müller".to_string()));
    assert_eq!(text_of(&gecos.room), Some("東京 5".to_string()));
    assert!(gecos.work_phone.is_none());
    assert_eq!(text_of(&gecos.home_phone), Some("☎ 12".to_string()));
    assert_eq!(texts(&gecos.other), ["ü", "", "ß"]);
}

#[test]
fn parse_refuses_a_reserved_char_in_a_fixed_slot() {
    assert_eq!(illegal_char_of("a,:,c,d,e"), ':');
    assert_eq!(illegal_char_of("a=b"), '=');
    assert_eq!(illegal_char_of("a,b,c,d\\"), '\\');
}

#[test]
fn parse_refuses_a_reserved_char_in_the_list() {
    assert_eq!(illegal_char_of("a,b,c,d,e,f=g"), '=');
    assert_eq!(illegal_char_of("a,b,c,d,e\n"), '\n');
    assert_eq!(illegal_char_of(",,,,,,,\""), '"');
}

#[test]
fn parse_reports_the_first_segment_that_fails() {
    assert_eq!(illegal_char_of("a\"b,c:d"), '"');
    assert_eq!(illegal_char_of("a,b=\\,c:d,e"), '=');
    assert_eq!(illegal_char_of("a,b,c,d,x:y,p=q"), ':');
}

#[test]
fn round_trip_of_a_canonical_record() {
    let gecos = Gecos {
        full_name: Some(field("Some Person")),
        room: None,
        work_phone: Some(field("574")),
        home_phone: None,
        other: vec![field("a"), field(""), field("b")],
    };
    let parsed = Gecos::from_gecos_string(&gecos.to_gecos_string()).unwrap();
    assert_eq!(parsed.full_name, gecos.full_name);
    assert_eq!(parsed.room, gecos.room);
    assert_eq!(parsed.work_phone, gecos.work_phone);
    assert_eq!(parsed.home_phone, gecos.home_phone);
    assert_eq!(parsed.other, gecos.other);
}

#[test]
fn round_trip_unsets_empty_slots_and_fills_an_empty_list() {
    let gecos = Gecos {
        full_name: Some(field("")),
        room: Some(field("R")),
        work_phone: None,
        home_phone: None,
        other: vec![],
    };
    let parsed = Gecos::from_gecos_string(&gecos.to_gecos_string()).unwrap();
    assert!(parsed.full_name.is_none());
    assert_eq!(text_of(&parsed.room), Some("R".to_string()));
    assert!(parsed.work_phone.is_none());
    assert!(parsed.home_phone.is_none());
    assert_eq!(texts(&parsed.other), [""]);
}

#[test]
fn flat_text_with_four_commas_round_trips() {
    for input in [",,,,", "a,b,c,d,e", "Some Person,,,Home phone,Other", "a,,,,,x,", "ä,ö,ü,ß,€,"] {
        let gecos = Gecos::from_gecos_string(input).unwrap();
        assert_eq!(gecos.to_gecos_string(), input);
    }
}

#[test]
fn flat_text_with_fewer_commas_is_padded() {
    let gecos = Gecos::from_gecos_string("Some Person").unwrap();
    assert_eq!(gecos.to_gecos_string(), "Some Person,,,,");
    let gecos = Gecos::from_gecos_string("a,b").unwrap();
    assert_eq!(gecos.to_gecos_string(), "a,b,,,");
}

#[test]
fn split_keeps_empty_segments() {
    assert_eq!(split_at_commas("a,,b"), ["a", "", "b"]);
    assert_eq!(split_at_commas(""), [""]);
    assert_eq!(split_at_commas(","), ["", ""]);
    assert_eq!(split_at_commas("no comma"), ["no comma"]);
    assert_eq!(split_at_commas("ä,b,"), ["ä", "b", ""]);
}

#[test]
fn clone_keeps_the_record() {
    let gecos = Gecos::from_gecos_string("a,b,,d,e,f").unwrap();
    let copy = gecos.clone();
    assert_eq!(copy.to_gecos_string(), "a,b,,d,e,f");
}
