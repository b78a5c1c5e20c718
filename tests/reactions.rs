use mathparser::ast::Span;
use mathparser::models::{Problem, ProblemId};
use mathparser::reactions::{digit_as_emoji, emoji_as_digit};

#[test]
fn digits_round_trip_through_emoji() {
    assert_eq!(digit_as_emoji(3), "3\u{fe0f}\u{20e3}");
    assert_eq!(digit_as_emoji(12), "12\u{fe0f}\u{20e3}");
    for d in 0..10u8 {
        assert_eq!(emoji_as_digit(&digit_as_emoji(d)), Some(d));
    }
}

#[test]
fn other_text_is_no_digit() {
    assert_eq!(emoji_as_digit(""), None);
    assert_eq!(emoji_as_digit("x\u{fe0f}\u{20e3}"), None);
    assert_eq!(emoji_as_digit("7"), None);
    assert_eq!(emoji_as_digit("12\u{fe0f}\u{20e3}"), None);
    assert_eq!(emoji_as_digit("\u{2b05}\u{fe0f}"), None);
}

#[test]
fn span_map_and_as_ref() {
    let s = Span(21, (3, 5));
    assert_eq!(s.as_ref(), Span(&21, (3, 5)));
    assert_eq!(s.map(|v| v * 2), Span(42, (3, 5)));
}

#[test]
fn problem_fields() {
    let p = Problem {
        id: ProblemId(1),
        name: "Test".to_owned(),
        description: "Test".to_owned(),
        difficulty: "Test".to_owned(),
        formula: "f(x, y) = x + y".to_owned(),
        domain: "rational(x, y)".to_owned(),
        score_query: 1,
        score_guess_correct: 0,
        score_guess_incorrect: 2,
        score_submit_incorrect: 2,
    };
    assert_eq!(p.clone(), p);
    assert_eq!(p.id, ProblemId(1));
}

#[test]
fn span_derefs_to_its_value() {
    let s = Span("name".to_owned(), (0, 4));
    assert_eq!(s.len(), 4);
    assert_eq!(*s, "name");
}
