use clippiboy::format::duration;

#[test]
fn lengths_are_written_with_and_without_hours() {
    assert_eq!(duration(0), "0:00");
    assert_eq!(duration(123_000), "2:03");
    assert_eq!(duration(3_723_999), "1:02:03");
    assert_eq!(duration(59_999), "0:59");
}
