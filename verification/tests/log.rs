use worker_runtime::log::{log_message, render, LogArgument};

#[test]
fn arguments_are_rendered() {
    assert_eq!(render(&LogArgument::Text("hello".to_string())), "hello");
    assert_eq!(render(&LogArgument::Json(Some("{\"a\":1}".to_string()))), "{\"a\":1}");
    assert_eq!(render(&LogArgument::Json(None)), "<norepr>");
}

#[test]
fn arguments_are_joined_by_spaces() {
    let args = vec![
        LogArgument::Text("count".to_string()),
        LogArgument::Json(Some("3".to_string())),
        LogArgument::Json(None),
    ];
    assert_eq!(log_message(&args), "count 3 <norepr>");
}

#[test]
fn a_single_argument_has_no_separator() {
    assert_eq!(log_message(&vec![LogArgument::Text("only".to_string())]), "only");
}

#[test]
fn no_arguments_give_an_empty_message() {
    assert_eq!(log_message(&Vec::new()), "");
}

#[test]
fn empty_arguments_still_get_separators() {
    let args = vec![LogArgument::Text(String::new()), LogArgument::Text(String::new())];
    assert_eq!(log_message(&args), " ");
}
