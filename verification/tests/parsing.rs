use hired::error::EdError;
use hired::parse_expressions::parse_expressions;
use hired::parse_flags::parse_flags;
use hired::parse_path::parse_path;
use hired::parse_selection::{
    interpret_index, interpret_selection, parse_index, parse_selection, u_i_add, Ind, Sel,
};
use hired::substitute::substitute;

#[test]
fn index_shapes() {
    assert_eq!(parse_index(""), Ok(Ind::Default));
    assert_eq!(parse_index("."), Ok(Ind::Relative(0)));
    assert_eq!(parse_index("$"), Ok(Ind::BufferLen));
    assert_eq!(parse_index("+"), Ok(Ind::Relative(1)));
    assert_eq!(parse_index("-"), Ok(Ind::Relative(-1)));
    assert_eq!(parse_index("+3"), Ok(Ind::Relative(3)));
    assert_eq!(parse_index("-12"), Ok(Ind::Relative(-12)));
    assert_eq!(parse_index("7"), Ok(Ind::Literal(7)));
    assert_eq!(parse_index("0"), Ok(Ind::Literal(0)));
    assert_eq!(parse_index("x"), Err(EdError::IndexParse));
    assert_eq!(parse_index("1x"), Err(EdError::IndexParse));
    assert_eq!(parse_index("+-2"), Err(EdError::IndexParse));
    assert_eq!(parse_index("99999999999999999999999999"), Err(EdError::IndexParse));
}

#[test]
fn selection_shapes() {
    // The start literal is shifted from 1-indexed to 0-indexed; the end
    // literal stays as typed.
    assert_eq!(parse_selection("2,4p"), Ok((3, Sel::FromStart(Ind::Literal(1), Ind::Literal(4)))));
    assert_eq!(
        parse_selection("2;4p"),
        Ok((3, Sel::FromSelection(Ind::Literal(1), Ind::Literal(4))))
    );
    assert_eq!(parse_selection("5p"), Ok((1, Sel::Lone(Ind::Literal(5)))));
    assert_eq!(parse_selection("p"), Ok((0, Sel::Lone(Ind::Default))));
    assert_eq!(parse_selection(",p"), Ok((1, Sel::FromStart(Ind::Default, Ind::Default))));
    assert_eq!(parse_selection("1,2,3p"), Err(EdError::IndexParse));
    assert_eq!(parse_selection("123"), Err(EdError::NoCommand));
}

#[test]
fn resolve_pair_against_buffer() {
    // Scenario: "2,4" against a ten-line buffer selects lines 2 to 4,
    // half-open and 0-indexed.
    let (_, sel) = parse_selection("2,4p").unwrap();
    let resolved = interpret_selection(sel, None, 10, false);
    assert_eq!(resolved, (1, 4));
}

#[test]
fn resolve_lone_and_symbolic() {
    // A lone literal selects the single line it names.
    let (_, sel) = parse_selection("3p").unwrap();
    assert_eq!(interpret_selection(sel, Some((4, 6)), 10, false), (2, 3));
    // `$` alone selects the last line.
    let (_, sel) = parse_selection("$p").unwrap();
    assert_eq!(interpret_selection(sel, Some((4, 6)), 10, false), (9, 10));
    // ... even on an empty buffer, where the result is then rejected
    // by selection validation rather than panicking.
    let (_, sel) = parse_selection("$p").unwrap();
    assert_eq!(interpret_selection(sel, None, 0, false), (0, 0));
    // A relative offset shifts the previous selection.
    let (_, sel) = parse_selection("+2p").unwrap();
    assert_eq!(interpret_selection(sel, Some((4, 6)), 10, false), (6, 8));
    // The default with `default_all` spans the whole buffer.
    let (_, sel) = parse_selection("p").unwrap();
    assert_eq!(interpret_selection(sel, Some((4, 6)), 10, true), (0, 10));
    assert_eq!(interpret_selection(sel, Some((4, 6)), 10, false), (4, 6));
}

#[test]
fn resolve_index_defaults() {
    assert_eq!(interpret_index(Ind::Default, Some(3), 10, 7), 7);
    assert_eq!(interpret_index(Ind::BufferLen, Some(3), 10, 7), 10);
    assert_eq!(interpret_index(Ind::Relative(-2), Some(3), 10, 7), 1);
    assert_eq!(interpret_index(Ind::Relative(-5), Some(3), 10, 7), 0);
    assert_eq!(interpret_index(Ind::Literal(4), Some(3), 10, 7), 4);
}

#[test]
fn offset_addition_saturates() {
    assert_eq!(u_i_add(5, 3), 8);
    assert_eq!(u_i_add(5, -3), 2);
    assert_eq!(u_i_add(2, -5), 0);
    assert_eq!(u_i_add(usize::MAX, 1), usize::MAX);
    assert_eq!(u_i_add(0, i32::MIN), 0);
}

#[test]
fn flag_sets() {
    // Scenario: "pn" against {p, n, l} reports p and n present, l absent.
    let flags = parse_flags("pn", "pnl").unwrap();
    assert_eq!(flags.get('p'), Some(true));
    assert_eq!(flags.get('n'), Some(true));
    assert_eq!(flags.get('l'), Some(false));
    assert_eq!(flags.get('g'), None);
    // A repeated flag and an unknown flag are hard errors.
    assert_eq!(parse_flags("pp", "p").unwrap_err(), EdError::DuplicateFlag);
    assert_eq!(parse_flags("x", "p").unwrap_err(), EdError::UndefinedFlag);
    // Surrounding whitespace is ignored.
    let flags = parse_flags(" l \n", "pnl").unwrap();
    assert_eq!(flags.get('l'), Some(true));
    assert_eq!(flags.get('p'), Some(false));
}

#[test]
fn expression_splitting() {
    let exprs = parse_expressions("/test/best/");
    assert_eq!(exprs, vec!["test".to_string(), "best".to_string(), "".to_string()]);
    let exprs = parse_expressions("/a/b/g");
    assert_eq!(exprs, vec!["a".to_string(), "b".to_string(), "g".to_string()]);
    let exprs = parse_expressions("/unclosed");
    assert_eq!(exprs, vec!["unclosed".to_string()]);
    let exprs = parse_expressions("");
    assert_eq!(exprs, Vec::<String>::new());
}

#[test]
fn path_extraction() {
    assert_eq!(parse_path("  notes.txt"), Some("notes.txt"));
    assert_eq!(parse_path("notes.txt"), Some("notes.txt"));
    assert_eq!(parse_path("   "), None);
    assert_eq!(parse_path(""), None);
}

#[test]
fn replacement_escapes() {
    assert_eq!(substitute("a\\nb"), "a\nb".to_string());
    assert_eq!(substitute("a\\tb"), "a\tb".to_string());
    assert_eq!(substitute("a\\xb"), "a\\xb".to_string());
    assert_eq!(substitute("plain"), "plain".to_string());
}

#[test]
fn find_any_of_picks_first() {
    assert_eq!(hired::cmd::find_any_of(",;", "12,34;x"), Some(2));
    assert_eq!(hired::cmd::find_any_of(",;", "1234"), None);
}
