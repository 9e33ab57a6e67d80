use flymark::amount::Mark;
use flymark::imark::{Globals, JournalMeta, JournalTag};
use flymark::journals::Journals;
use flymark::listing::{filter_journals, label_mark, matches_filter};
use flymark::text::{align_right, contains_chars, stands_at};

fn tag(student: &str) -> JournalTag {
    JournalTag::new("lab01".to_string(), "g1".to_string(), student.to_string())
}

fn meta(name: &str, provisional: Option<u128>, mark: Option<u128>, notes: Option<&str>) -> JournalMeta {
    JournalMeta::new(
        name.to_string(),
        provisional.map(Mark::from_units),
        mark.map(Mark::from_units),
        notes.map(|n| n.to_string()),
    )
}

#[test]
fn marks_are_shown_with_two_places() {
    assert_eq!(Mark::from_units(3_000_000).to_two_places(), "3.00");
    assert_eq!(Mark::from_units(0).to_two_places(), "0.00");
    assert_eq!(Mark::from_units(125_000).to_two_places(), "0.13");
    assert_eq!(Mark::from_units(124_999).to_two_places(), "0.12");
    assert_eq!(Mark::from_units(99_995_000).to_two_places(), "100.00");
    assert_eq!(Mark::from_units(7_050_000).to_two_places(), "7.05");
    assert_eq!(Mark::from_units(u128::MAX).to_two_places(), "340282366920938463463374607431768.21");
}

#[test]
fn labels_are_right_aligned_in_five_places() {
    assert_eq!(label_mark(&meta("a", None, Some(3_000_000), None)), Some(" 3.00".to_string()));
    assert_eq!(label_mark(&meta("a", Some(1), Some(10_500_000), None)), Some("10.50".to_string()));
    assert_eq!(label_mark(&meta("a", None, Some(100_000_000), None)), Some("100.00".to_string()));
    assert_eq!(label_mark(&meta("a", Some(7_250_000), None, None)), Some(" 7.25?".to_string()));
    assert_eq!(label_mark(&meta("a", None, None, None)), None);
    assert_eq!(align_right("ab", 5), "   ab");
    assert_eq!(align_right("abcdef", 5), "abcdef");
    assert_eq!(align_right("", 0), "");
}

#[test]
fn text_search_finds_every_place() {
    let chars = |text: &str| text.chars().collect::<Vec<char>>();
    assert!(contains_chars(&chars("z1234567"), &chars("345")));
    assert!(contains_chars(&chars("z1234567"), &chars("z1")));
    assert!(contains_chars(&chars("z1234567"), &chars("67")));
    assert!(contains_chars(&chars("z1234567"), &chars("")));
    assert!(contains_chars(&chars(""), &chars("")));
    assert!(!contains_chars(&chars("z1234567"), &chars("76")));
    assert!(!contains_chars(&chars("abc"), &chars("abcd")));
    assert!(!contains_chars(&chars(""), &chars("a")));
    assert!(stands_at(&chars("héllo"), &chars("llo"), 2));
    assert!(!stands_at(&chars("héllo"), &chars("llo"), 1));
}

#[test]
fn the_filter_looks_at_id_name_mark_and_notes() {
    let ann = meta("Ann Lee", None, Some(7_500_000), Some("Late by a day"));
    assert!(matches_filter(&tag("z5551234"), &ann, ""));
    assert!(matches_filter(&tag("z5551234"), &ann, "555"));
    assert!(matches_filter(&tag("z5551234"), &ann, "ann"));
    assert!(matches_filter(&tag("z5551234"), &ann, "LEE"));
    assert!(matches_filter(&tag("z5551234"), &ann, "7.5"));
    assert!(matches_filter(&tag("z5551234"), &ann, " 7.50"));
    assert!(matches_filter(&tag("z5551234"), &ann, "late BY"));
    assert!(!matches_filter(&tag("z5551234"), &ann, "Z555"));
    assert!(!matches_filter(&tag("z5551234"), &ann, "bob"));
    assert!(!matches_filter(&tag("z5551234"), &ann, "7.50?"));
    let strasse = meta("Straße", Some(2_000_000), None, None);
    assert!(matches_filter(&tag("z1"), &strasse, "strasse"));
    assert!(matches_filter(&tag("z1"), &strasse, "2.00?"));
    assert!(!matches_filter(&tag("z1"), &strasse, "late"));
}

#[test]
fn filtering_keeps_display_order() {
    let mut journals = Journals::new(Globals::default());
    assert!(journals.insert(tag("z1"), meta("Ann", None, None, None)).is_ok());
    assert!(journals.insert(tag("z2"), meta("Hanna", None, Some(5_000_000), None)).is_ok());
    assert!(journals.insert(tag("z3"), meta("Bob", None, Some(9_000_000), None)).is_ok());
    assert!(journals.insert(tag("z4"), meta("Joanne", Some(1), None, None)).is_ok());
    let students = |filter: &str| -> Vec<String> {
        filter_journals(&journals, filter).iter().map(|t| t.student_id().to_string()).collect()
    };
    assert_eq!(students(""), vec!["z3", "z2", "z4", "z1"]);
    assert_eq!(students("ann"), vec!["z2", "z4", "z1"]);
    assert_eq!(students("z3"), vec!["z3"]);
    assert_eq!(students(".00"), vec!["z3", "z2", "z4"]);
    assert_eq!(students("?"), vec!["z4"]);
    assert_eq!(students("nobody"), Vec::<String>::new());
}
