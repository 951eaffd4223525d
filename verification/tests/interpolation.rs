use doa::docker::fmt::{shell_interpolate, InterpolationError};

fn upper(expr: &str) -> Result<String, InterpolationError> {
    Ok(expr.to_uppercase())
}

#[test]
fn test_shell_interpolate_single() {
    let interpolated = shell_interpolate("#{abc}", &|extract| {
        Ok(if extract == "abc" { "YES".to_string() } else { "NO".to_string() })
    })
    .unwrap();

    assert_eq!(interpolated, "YES");
}

#[test]
fn test_shell_interpolate_multiple() {
    let interpolated = shell_interpolate("#{abc}:#{def}", &|extract| {
        Ok(if extract == "abc" { "YES".to_string() } else { "NO".to_string() })
    })
    .unwrap();

    assert_eq!(interpolated, "YES:NO");
}

#[test]
fn substitution_gives_exactly_the_result() {
    let f = |expr: &str| match expr {
        "X" => Ok("R".to_string()),
        "A" => Ok("Y".to_string()),
        "B" => Ok("N".to_string()),
        _ => Err(InterpolationError::AbnormalExit),
    };
    assert_eq!(shell_interpolate("#{X}", &f), Ok("R".to_string()));
    assert_eq!(shell_interpolate("#{A}:#{B}", &f), Ok("Y:N".to_string()));
}

#[test]
fn text_without_marker_passes_through() {
    for raw in ["", "plain text", "a{b}c", "100%", "#x", "a#}b", "{{key}}", "a # b", "a#", "#"] {
        assert_eq!(shell_interpolate(raw, &upper), Ok(raw.to_string()));
    }
}

#[test]
fn doubled_hash_is_one_hash() {
    assert_eq!(shell_interpolate("##", &upper), Ok("#".to_string()));
    assert_eq!(shell_interpolate("a##b", &upper), Ok("a#b".to_string()));
    assert_eq!(shell_interpolate("##{x}", &upper), Ok("#{x}".to_string()));
    assert_eq!(shell_interpolate("####", &upper), Ok("##".to_string()));
}

#[test]
fn hash_before_closing_brace_is_literal() {
    assert_eq!(shell_interpolate("#}", &upper), Ok("#}".to_string()));
    assert_eq!(shell_interpolate("a#}b#{c}", &upper), Ok("a#}bC".to_string()));
}

#[test]
fn lone_hash_keeps_the_next_character() {
    assert_eq!(shell_interpolate("#a", &upper), Ok("#a".to_string()));
    assert_eq!(shell_interpolate("# {x}", &upper), Ok("# {x}".to_string()));
}

#[test]
fn trailing_hash_is_kept() {
    assert_eq!(shell_interpolate("abc#", &upper), Ok("abc#".to_string()));
    assert_eq!(shell_interpolate("a#", &|_: &str| Ok("X".to_string())), Ok("a#".to_string()));
    assert_eq!(shell_interpolate("#", &upper), Ok("#".to_string()));
    assert_eq!(shell_interpolate("#{a}#", &upper), Ok("A#".to_string()));
    assert_eq!(shell_interpolate("###", &upper), Ok("##".to_string()));
}

#[test]
fn unterminated_expression_is_discarded() {
    assert_eq!(shell_interpolate("ab#{cd", &upper), Ok("ab".to_string()));
    assert_eq!(shell_interpolate("#{a}b#{cd", &upper), Ok("Ab".to_string()));
}

#[test]
fn hash_and_brace_inside_an_expression_are_part_of_it() {
    assert_eq!(shell_interpolate("#{a#b{c}", &upper), Ok("A#B{C".to_string()));
    assert_eq!(shell_interpolate("#{a ## b}", &|e: &str| Ok(e.to_string())), Ok("a ## b".to_string()));
}

#[test]
fn adjacent_expressions_run_left_to_right() {
    let calls = std::cell::RefCell::new(Vec::new());
    let f = |expr: &str| {
        calls.borrow_mut().push(expr.to_string());
        Ok(format!("<{}>", expr))
    };
    assert_eq!(shell_interpolate("#{a}#{b}#{a}", &f), Ok("<a><b><a>".to_string()));
    assert_eq!(*calls.borrow(), vec!["a".to_string(), "b".to_string(), "a".to_string()]);
}

#[test]
fn empty_expression_is_executed() {
    assert_eq!(shell_interpolate("x#{}y", &|e: &str| Ok(format!("[{}]", e))), Ok("x[]y".to_string()));
}

#[test]
fn failing_expression_stops_interpolation() {
    let calls = std::cell::RefCell::new(Vec::new());
    let f = |expr: &str| {
        calls.borrow_mut().push(expr.to_string());
        if expr == "bad" {
            Err(InterpolationError::AbnormalExit)
        } else {
            Ok(expr.to_string())
        }
    };
    assert_eq!(shell_interpolate("#{ok}#{bad}#{later}", &f), Err(InterpolationError::AbnormalExit));
    assert_eq!(*calls.borrow(), vec!["ok".to_string(), "bad".to_string()]);
}

#[test]
fn each_error_is_handed_on() {
    for e in [
        InterpolationError::SpawnFailed,
        InterpolationError::AbnormalExit,
        InterpolationError::InvalidOutput,
    ] {
        assert_eq!(shell_interpolate("#{x}", &|_: &str| Err(e)), Err(e));
    }
}

#[test]
fn text_beyond_ascii_is_kept() {
    assert_eq!(shell_interpolate("héllo #{wörld} ✓", &upper), Ok("héllo WÖRLD ✓".to_string()));
}
