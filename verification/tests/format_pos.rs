use poexam::po::format::format_pos::FormatPos;
use poexam::po::format::language::Language;

#[test]
fn format_pos_test_no_format() {
    assert!(
        FormatPos::new("Hello, world!", &Language::Null)
            .next()
            .is_none()
    );
}
