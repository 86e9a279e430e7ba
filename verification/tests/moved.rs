use optique::moved::{Moved, MovedResult};

#[test]
fn chains_and_removals() {
    let m = Moved::parse(
        "# comment\n\
         a/one|b/two|2024-01-01|renamed\n\
         b/two|c/three|2024-02-01|renamed again\n\
         d/gone||2024-03-01|abandoned\n",
    );
    assert_eq!(m.resolve("x/untouched"), MovedResult::Unchanged);
    assert_eq!(
        m.resolve("a/one"),
        MovedResult::MovedTo { origin: "c/three".into(), reason: "renamed again".into() }
    );
    assert_eq!(m.resolve("d/gone"), MovedResult::Removed { reason: "abandoned".into() });
}

#[test]
fn cycle_guard() {
    let m = Moved::parse("a/a|b/b|d|r\nb/b|a/a|d|r\n");
    // must terminate; result is one of the two origins
    let _ = m.resolve("a/a");
}

#[test]
fn a_rename_can_end_in_a_removal() {
    let m = Moved::parse("a/one|b/two|2024-01-01|renamed\nb/two||2024-02-01|expired\n");
    assert_eq!(m.resolve("a/one"), MovedResult::Removed { reason: "expired".into() });
}
