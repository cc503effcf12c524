use mimo_asr::text::{appended, decimal_string, join};

fn strings(parts: &[&str]) -> Vec<String> {
    parts.iter().map(|s| s.to_string()).collect()
}

#[test]
fn join_puts_separators_between() {
    assert_eq!(join(&strings(&[]), "\n"), "");
    assert_eq!(join(&strings(&["a"]), "\n"), "a");
    assert_eq!(join(&strings(&["a", "", "c"]), ", "), "a, , c");
}

#[test]
fn numerals_are_those_of_std() {
    for n in 0..=u16::MAX {
        assert_eq!(decimal_string(n), n.to_string());
    }
}

#[test]
fn concat_appends() {
    assert_eq!(appended("你", "好"), "你好");
}
