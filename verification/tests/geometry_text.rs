use xai_grok_pager::geometry::{split_area, Constraint, Direction, Rect};
use xai_grok_pager::ids::new_uuid_text;
use xai_grok_pager::text::{
    chars_eq, chars_of, concat_str, contains_chars, decimal_string, is_whitespace, split_lines,
    str_eq, string_of, trim_str,
};

#[test]
fn rect_new_keeps_edges_in_range() {
    assert_eq!(Rect::new(1, 2, 3, 4), Rect { x: 1, y: 2, width: 3, height: 4 });
    assert_eq!(
        Rect::new(65530, 65000, 100, 1000),
        Rect { x: 65530, y: 65000, width: 5, height: 535 }
    );
    assert_eq!(Rect::default(), Rect { x: 0, y: 0, width: 0, height: 0 });
}

#[test]
fn split_area_gives_one_rect_per_constraint() {
    let area = Rect::new(0, 0, 100, 10);
    let parts = split_area(
        Direction::Horizontal,
        &[Constraint::Ratio(1, 4), Constraint::Length(1), Constraint::Ratio(3, 4)],
        area,
    );
    assert_eq!(parts.len(), 3);
    assert_eq!(parts[1].width, 1);
    assert_ne!(parts[0], area);
    let rows = split_area(Direction::Vertical, &[Constraint::Ratio(1, 2), Constraint::Ratio(1, 2)], area);
    assert_eq!(rows, vec![Rect::new(0, 0, 100, 5), Rect::new(0, 5, 100, 5)]);
}

#[test]
fn uuid_text_has_the_hyphenated_form() {
    let u = new_uuid_text();
    assert_eq!(u.len(), 36);
    for (i, c) in u.chars().enumerate() {
        if [8, 13, 18, 23].contains(&i) {
            assert_eq!(c, '-');
        } else {
            assert!(c.is_ascii_hexdigit() && !c.is_ascii_uppercase());
        }
    }
    assert_ne!(u, new_uuid_text());
}

#[test]
fn text_helpers() {
    assert_eq!(trim_str("  a b \t\n"), "a b");
    assert_eq!(trim_str(" \u{3000}x\u{2003}"), "x");
    assert_eq!(trim_str("   "), "");
    assert!(is_whitespace('\u{85}'));
    assert!(!is_whitespace('x'));
    assert_eq!(concat_str("Side ", "3"), "Side 3");
    assert_eq!(decimal_string(0), "0");
    assert_eq!(decimal_string(1207), "1207");
    assert!(str_eq("ab", "ab"));
    assert!(!str_eq("ab", "abc"));
    let v = chars_of("héllo");
    assert_eq!(v.len(), 5);
    assert_eq!(string_of(&v), "héllo");
    assert!(chars_eq(&v, &chars_of("héllo")));
    assert!(contains_chars(&v, &chars_of("ll")));
    assert!(!contains_chars(&v, &chars_of("lo!")));
    assert!(contains_chars(&v, &[]));
}

#[test]
fn lines_follow_str_lines() {
    let text = "a\n\nb\nc\n";
    let got: Vec<String> = split_lines(&chars_of(text)).iter().map(|l| string_of(l)).collect();
    let want: Vec<String> = text.lines().map(|l| l.to_string()).collect();
    assert_eq!(got, want);
    assert!(split_lines(&[]).is_empty());
    let got: Vec<String> = split_lines(&chars_of("x")).iter().map(|l| string_of(l)).collect();
    assert_eq!(got, vec!["x"]);
}
