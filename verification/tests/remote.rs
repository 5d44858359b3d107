use tunnelclient::remote::{parse_client_name, parse_uint, parse_y_n, start_reply, unparsed_reply};

#[test]
fn yes_and_no_go_by_the_first_letter() {
    assert_eq!(parse_y_n("y"), Ok(true));
    assert_eq!(parse_y_n("Yes please"), Ok(true));
    assert_eq!(parse_y_n("n"), Ok(false));
    assert_eq!(parse_y_n("NOPE"), Ok(false));
    assert_eq!(parse_y_n("maybe"), Err("Please enter y/n, not 'maybe'.".to_string()));
    assert_eq!(parse_y_n(""), Err("Please enter y/n, not ''.".to_string()));
    assert_eq!(parse_y_n(" y"), Err("Please enter y/n, not ' y'.".to_string()));
}

#[test]
fn an_unsigned_integer_parses_and_anything_else_says_why_not() {
    assert_eq!(parse_uint("0"), Ok(0));
    assert_eq!(parse_uint("42"), Ok(42));
    assert_eq!(parse_uint("+7"), Ok(7));
    assert_eq!(parse_uint("18446744073709551615"), Ok(u64::MAX));
    let e = parse_uint("-1").unwrap_err();
    assert!(e.starts_with("Could not parse '-1' as positive integer: "), "{e}");
    let e = parse_uint("18446744073709551616").unwrap_err();
    assert!(e.starts_with("Could not parse '18446744073709551616' as positive integer: "), "{e}");
    let e = parse_uint("").unwrap_err();
    assert!(e.starts_with("Could not parse '' as positive integer: "), "{e}");
    assert!(parse_uint(" 3").is_err());
    assert!(parse_uint("3x").is_err());
}

#[test]
fn a_new_configuration_is_answered_with_what_happened_to_both_shows() {
    assert_eq!(start_reply(true, None), "Stopped a running show.\nStarting a new show.");
    assert_eq!(start_reply(false, None), "No show was running.\nStarting a new show.");
    assert_eq!(
        start_reply(false, Some("sending on a closed channel")),
        "No show was running.\nError trying to start new show: sending on a closed channel."
    );
    assert_eq!(
        start_reply(true, Some("gone")),
        "Stopped a running show.\nError trying to start new show: gone."
    );
}

#[test]
fn a_request_that_does_not_parse_is_answered_with_the_reason() {
    assert_eq!(
        unparsed_reply("invalid marker"),
        "Could not parse request as a show configuration:\ninvalid marker"
    );
    assert_eq!(unparsed_reply(""), "Could not parse request as a show configuration:\n");
}

#[test]
fn only_a_known_client_name_is_accepted() {
    let clients = vec!["left".to_string(), "right".to_string(), "center".to_string()];
    assert_eq!(parse_client_name("right", &clients), Ok("right".to_string()));
    assert_eq!(
        parse_client_name("Right", &clients),
        Err("'Right' is not a recognized client name; available clients: left\nright\ncenter".to_string())
    );
    assert_eq!(
        parse_client_name("x", &vec!["solo".to_string()]),
        Err("'x' is not a recognized client name; available clients: solo".to_string())
    );
    assert_eq!(
        parse_client_name("x", &Vec::new()),
        Err("'x' is not a recognized client name; available clients: ".to_string())
    );
}
