use thubook::digits::{parse_u32, u32_to_decimal};
use thubook::ident::PageIdentity;
use thubook::name::{extension_of, format_filename, parse_filename};
use thubook::plan::temp_name;

#[test]
fn format_encodes_identity_and_extension() {
    let id = PageIdentity { chapter: 2, page: 9 };
    assert_eq!(format_filename(&id, "jpg"), "2_9.jpg");
    let id = PageIdentity { chapter: 10, page: 1 };
    assert_eq!(format_filename(&id, "png"), "10_1.png");
    let id = PageIdentity { chapter: 0, page: 0 };
    assert_eq!(format_filename(&id, "jpg"), "0_0.jpg");
}

#[test]
fn parse_recovers_identity() {
    let id = parse_filename("2_9.jpg").unwrap();
    assert_eq!(id.chapter, 2);
    assert_eq!(id.page, 9);
    let id = parse_filename("10_1.png").unwrap();
    assert_eq!(id.chapter, 10);
    assert_eq!(id.page, 1);
}

#[test]
fn parse_round_trips_format() {
    for &(c, p) in &[(0u32, 0u32), (2, 9), (10, 1), (4294967295, 4294967295)] {
        let id = PageIdentity { chapter: c, page: p };
        let name = format_filename(&id, "jpg");
        let back = parse_filename(name.as_str()).unwrap();
        assert_eq!(back.chapter, c);
        assert_eq!(back.page, p);
    }
}

#[test]
fn parse_rejects_malformed_names() {
    assert!(parse_filename("cover.jpg").is_none());
    assert!(parse_filename("a_b.jpg").is_none());
    assert!(parse_filename("_1.jpg").is_none());
    assert!(parse_filename("1_.jpg").is_none());
    assert!(parse_filename("").is_none());
    assert!(parse_filename("1_2x.jpg").is_none());
    assert!(parse_filename("4294967296_1.jpg").is_none());
}

#[test]
fn parse_tolerates_extra_extension_dots() {
    let id = parse_filename("3_4").unwrap();
    assert_eq!((id.chapter, id.page), (3, 4));
    let id = parse_filename("1_2.tar.gz").unwrap();
    assert_eq!((id.chapter, id.page), (1, 2));
}

#[test]
fn extension_comes_from_last_dot_of_last_segment() {
    assert_eq!(extension_of("https://host/dir/page.jpg"), "jpg");
    assert_eq!(extension_of("dir.d/file.tar.gz"), "gz");
    assert_eq!(extension_of("noext"), "noext");
    assert_eq!(extension_of("dir/file"), "file");
}

#[test]
fn decimal_rendering_is_canonical() {
    assert_eq!(u32_to_decimal(0), "0");
    assert_eq!(u32_to_decimal(7), "7");
    assert_eq!(u32_to_decimal(1234), "1234");
    assert_eq!(u32_to_decimal(4294967295), "4294967295");
}

#[test]
fn decimal_parsing_is_exact() {
    assert_eq!(parse_u32("0"), Some(0));
    assert_eq!(parse_u32("007"), Some(7));
    assert_eq!(parse_u32("4294967295"), Some(4294967295));
    assert_eq!(parse_u32("4294967296"), None);
    assert_eq!(parse_u32(""), None);
    assert_eq!(parse_u32("12a"), None);
}

#[test]
fn temp_names_have_the_hidden_prefix() {
    let name = temp_name();
    assert_eq!(name.len(), 20);
    assert!(name.starts_with(".tmp"));
    assert!(name[4..].chars().all(|c| c.is_ascii_alphanumeric()));
}
