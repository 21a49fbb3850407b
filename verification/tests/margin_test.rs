use minitemplate::trim_margin;

#[test]
fn a_margin_is_stripped_from_each_line() {
    assert_eq!(trim_margin("|A\n|B\n", Some("|")), "A\nB\n");
    assert_eq!(trim_margin("|A\n|B", Some("|")), "A\nB");
    assert_eq!(trim_margin("  |A\n\t |B\n   ", Some("|")), "A\nB\n");
}

#[test]
fn the_margin_is_a_bar_unless_another_is_given() {
    assert_eq!(trim_margin("   |a\n   |b", None), "a\nb");
    assert_eq!(trim_margin("   >>a\n   >>b\n   |c", Some(">>")), "a\nb\n|c");
    assert_eq!(trim_margin("  a\n  b", Some("")), "a\nb");
}

#[test]
fn only_one_margin_is_stripped_and_what_follows_it_stays() {
    assert_eq!(trim_margin("  ||a\n  |  b  \n  | |c", Some("|")), "|a\n  b  \n |c");
}

#[test]
fn a_line_without_the_margin_loses_its_indent_only() {
    assert_eq!(trim_margin("   plain\n   |marked\n x|y", Some("|")), "plain\nmarked\nx|y");
}

#[test]
fn one_line_feed_at_the_start_is_dropped() {
    assert_eq!(trim_margin("\n|a", Some("|")), "a");
    assert_eq!(trim_margin("\n\n|a", Some("|")), "\na");
    assert_eq!(trim_margin("   \n   |a\n", Some("|")), "a\n");
    assert_eq!(trim_margin("|  a", Some("|")), "  a");
    assert_eq!(trim_margin("", Some("|")), "");
    assert_eq!(trim_margin("\n", Some("|")), "");
}

#[test]
fn a_carriage_return_before_a_line_feed_belongs_to_the_line_end() {
    assert_eq!(trim_margin("|a\r\n|b\r\n", Some("|")), "a\nb\n");
    assert_eq!(trim_margin("|a\r", Some("|")), "a\r");
}

#[test]
fn every_kind_of_space_counts_as_indent() {
    assert_eq!(trim_margin("\u{3000}\u{a0}\t|a\n\u{2003}|b", Some("|")), "a\nb");
}
