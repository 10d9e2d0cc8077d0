use dirlist::entry::{classify, has_hidden_attribute, is_dot_name, is_included, DirEntryInfo, StyleTag};
use dirlist::flags::{parse_params, target_path, ListError, ListingFormat, UsedFlags};
use dirlist::render::{horizontal_listing, horizontal_text, long_line, long_listing, render_listing};
use dirlist::style::paint;
use dirlist::text::{decimal, right_align};

fn plain() {
    colored::control::set_override(false);
}

fn args(list: &[&str]) -> Vec<String> {
    list.iter().map(|s| s.to_string()).collect()
}

fn entry(name: &str, is_dir: bool, is_file: bool, size: u64, hidden: bool, read_only: bool) -> DirEntryInfo {
    DirEntryInfo { name: name.to_string(), is_dir, is_file, size, hidden, read_only }
}

fn sample_dir() -> Vec<DirEntryInfo> {
    vec![
        entry("a.txt", false, true, 10, false, false),
        entry("sub", true, false, 0, false, false),
        entry(".hidden", false, true, 3, true, false),
    ]
}

fn flags(list_format: ListingFormat, show_hidden: bool) -> UsedFlags {
    UsedFlags { list_format, show_hidden }
}

#[test]
fn default_flags_are_horizontal_without_hidden() {
    let d = UsedFlags::default();
    assert_eq!(d.list_format, ListingFormat::Horizontal);
    assert!(!d.show_hidden);
}

#[test]
fn parse_without_flags_gives_defaults() {
    assert_eq!(parse_params(&args(&["ls", "dir"])), UsedFlags::default());
    assert_eq!(parse_params(&args(&["ls"])), UsedFlags::default());
}

#[test]
fn parse_long_and_hidden() {
    let f = parse_params(&args(&["ls", "dir", "-l"]));
    assert_eq!(f, flags(ListingFormat::Long, false));
    let f = parse_params(&args(&["ls", "dir", "-h"]));
    assert_eq!(f, flags(ListingFormat::Horizontal, true));
    let f = parse_params(&args(&["ls", "dir", "-l", "-h"]));
    assert_eq!(f, flags(ListingFormat::Long, true));
}

#[test]
fn parse_flag_order_does_not_matter() {
    let a = parse_params(&args(&["ls", "dir", "-l", "-h"]));
    let b = parse_params(&args(&["ls", "dir", "-h", "-l"]));
    assert_eq!(a, b);
}

#[test]
fn parse_ignores_unknown_and_repeated_tokens() {
    let f = parse_params(&args(&["ls", "dir", "-x", "--long", "-l", "-l"]));
    assert_eq!(f, flags(ListingFormat::Long, false));
    let f = parse_params(&args(&["ls", "dir", "-z"]));
    assert_eq!(f, UsedFlags::default());
}

#[test]
fn parse_needs_more_than_two_arguments() {
    // A lone token in the path position is the path, not a flag.
    assert_eq!(parse_params(&args(&["ls", "-l"])), UsedFlags::default());
}

#[test]
fn target_path_requires_an_argument() {
    assert_eq!(target_path(&args(&["ls"])), Err(ListError::Usage));
    assert_eq!(target_path(&args(&[])), Err(ListError::Usage));
    assert_eq!(target_path(&args(&["ls", "dir", "-l"])), Ok("dir".to_string()));
}

#[test]
fn decimal_renders_digits() {
    assert_eq!(decimal(0), "0");
    assert_eq!(decimal(7), "7");
    assert_eq!(decimal(10), "10");
    assert_eq!(decimal(1234), "1234");
    assert_eq!(decimal(u64::MAX), u64::MAX.to_string());
}

#[test]
fn right_align_pads_without_truncating() {
    assert_eq!(right_align("ab", 5), "   ab");
    assert_eq!(right_align("abcdef", 3), "abcdef");
    assert_eq!(right_align("", 2), "  ");
    assert_eq!(right_align("é", 3), "  é");
}

#[test]
fn hidden_attribute_bit() {
    assert!(has_hidden_attribute(0x2));
    assert!(has_hidden_attribute(0x22));
    assert!(!has_hidden_attribute(0x1));
    assert!(!has_hidden_attribute(0));
}

#[test]
fn dot_names() {
    assert!(is_dot_name(".hidden"));
    assert!(!is_dot_name("a.txt"));
    assert!(!is_dot_name(""));
}

#[test]
fn classification_by_kind() {
    assert_eq!(classify(&entry("d", true, false, 0, false, false)), StyleTag::Directory);
    assert_eq!(classify(&entry("f", false, true, 0, false, false)), StyleTag::File);
    assert_eq!(classify(&entry("l", false, false, 0, false, false)), StyleTag::Other);
}

#[test]
fn hidden_entries_need_show_hidden() {
    let h = entry(".x", false, true, 0, true, false);
    let v = entry("x", false, true, 0, false, false);
    assert!(!is_included(&h, false));
    assert!(is_included(&h, true));
    assert!(is_included(&v, false));
    assert!(is_included(&v, true));
}

#[test]
fn plain_paint_keeps_name() {
    plain();
    assert_eq!(paint("a.txt", StyleTag::File), "a.txt");
}

#[test]
fn horizontal_scenario() {
    plain();
    let d = sample_dir();
    assert_eq!(horizontal_listing(&d, &flags(ListingFormat::Horizontal, false)), "a.txt sub");
    assert_eq!(horizontal_listing(&d, &flags(ListingFormat::Horizontal, true)), "a.txt sub .hidden");
}

#[test]
fn long_scenario() {
    plain();
    let d = sample_dir();
    let out = long_listing(&d, &flags(ListingFormat::Long, false));
    let expected = format!("{:>10} {:>10} {:>20}\n{:>10} {:>10} {:>20}\n", "", 10, "a.txt", "", 0, "sub");
    assert_eq!(out, expected);
    assert_eq!(out.lines().count(), 2);
    assert!(!out.contains(".hidden"));
}

#[test]
fn long_line_fields() {
    plain();
    let e = entry("report.txt", false, true, 123456, false, true);
    let line = long_line(&e, "name");
    assert_eq!(line, " Read-Only     123456 name\n");
    let wide = entry("x", false, true, 12345678901, false, false);
    assert_eq!(long_line(&wide, "x"), "           12345678901 x\n");
}

#[test]
fn long_name_field_is_not_truncated() {
    plain();
    let d = vec![entry("a_name_that_is_longer_than_twenty", false, true, 1, false, false)];
    let out = long_listing(&d, &flags(ListingFormat::Long, false));
    assert_eq!(out, format!("{:>10} {:>10} {:>20}\n", "", 1, "a_name_that_is_longer_than_twenty"));
}

#[test]
fn horizontal_all_hidden_is_empty() {
    plain();
    let d = vec![entry(".a", false, true, 1, true, false), entry(".b", true, false, 0, true, false)];
    assert_eq!(horizontal_listing(&d, &flags(ListingFormat::Horizontal, false)), "");
    assert_eq!(horizontal_listing(&Vec::new(), &flags(ListingFormat::Horizontal, false)), "");
    assert_eq!(long_listing(&d, &flags(ListingFormat::Long, false)), "");
}

#[test]
fn horizontal_separators_count() {
    plain();
    let d = vec![
        entry("one", false, true, 1, false, false),
        entry("two", true, false, 0, false, false),
        entry("three", false, false, 0, false, false),
        entry("four", false, true, 4, false, false),
    ];
    let out = horizontal_listing(&d, &flags(ListingFormat::Horizontal, false));
    assert_eq!(out.matches(' ').count(), 3);
    assert!(!out.starts_with(' ') && !out.ends_with(' '));
}

#[test]
fn horizontal_text_joins_parts() {
    assert_eq!(horizontal_text(&Vec::new()), "");
    assert_eq!(horizontal_text(&vec!["a".to_string()]), "a");
    assert_eq!(horizontal_text(&vec!["a".to_string(), "bc".to_string(), "d".to_string()]), "a bc d");
}

#[test]
fn listing_dispatches_on_format() {
    plain();
    let d = sample_dir();
    assert_eq!(render_listing(&d, &flags(ListingFormat::Horizontal, true)), Ok("a.txt sub .hidden".to_string()));
    assert_eq!(
        render_listing(&d, &flags(ListingFormat::Long, false)),
        Ok(long_listing(&d, &flags(ListingFormat::Long, false)))
    );
}

#[test]
fn unimplemented_formats_are_refused() {
    let d = sample_dir();
    assert_eq!(render_listing(&d, &flags(ListingFormat::Commas, false)), Err(ListError::UnimplementedFormat));
    assert_eq!(render_listing(&d, &flags(ListingFormat::Vertical, true)), Err(ListError::UnimplementedFormat));
}

#[test]
fn flags_from_arguments_drive_listing() {
    plain();
    let d = sample_dir();
    let f = parse_params(&args(&["list", "D"]));
    assert_eq!(render_listing(&d, &f), Ok("a.txt sub".to_string()));
    let f = parse_params(&args(&["list", "D", "-h"]));
    assert_eq!(render_listing(&d, &f), Ok("a.txt sub .hidden".to_string()));
    let a = render_listing(&d, &parse_params(&args(&["list", "D", "-l", "-h"])));
    let b = render_listing(&d, &parse_params(&args(&["list", "D", "-h", "-l"])));
    assert_eq!(a, b);
}
