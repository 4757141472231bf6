use mail_exchange::parse::{get_command, get_status_line, parse_email, Command, STATUS};

#[test]
fn reply_line_success_class() {
    let l = get_status_line(String::from("250 Ok")).unwrap();
    assert_eq!(l.status, STATUS::S200(250));
    assert_eq!(l.content, "Ok");
    assert!(!l.more);
}

#[test]
fn reply_line_continuation() {
    let l = get_status_line(String::from("250-mx.example.com ready")).unwrap();
    assert_eq!(l.status, STATUS::S200(250));
    assert_eq!(l.content, "mx.example.com ready");
    assert!(l.more);
}

#[test]
fn reply_line_classes() {
    assert_eq!(get_status_line(String::from("354 go")).unwrap().status, STATUS::S300(354));
    assert_eq!(get_status_line(String::from("421 busy")).unwrap().status, STATUS::S400(421));
    assert_eq!(get_status_line(String::from("599 no")).unwrap().status, STATUS::S500(599));
    assert_eq!(get_status_line(String::from("200 ")).unwrap().content, "");
}

#[test]
fn reply_line_rejects_bad_input() {
    assert!(get_status_line(String::from("")).is_none());
    assert!(get_status_line(String::from("250")).is_none());
    assert!(get_status_line(String::from("25 x")).is_none());
    assert!(get_status_line(String::from("250x")).is_none());
    assert!(get_status_line(String::from("199 low")).is_none());
    assert!(get_status_line(String::from("600 high")).is_none());
    assert!(get_status_line(String::from("2a0 x")).is_none());
    assert!(get_status_line(String::from("+25 x")).is_none());
}

#[test]
fn command_is_case_insensitive() {
    let a = get_command(String::from("rcpt to: <a@b.com>")).unwrap();
    let b = get_command(String::from("RCPT TO: <a@b.com>")).unwrap();
    assert_eq!(a.command, Command::RcptTo);
    assert_eq!(b.command, Command::RcptTo);
    assert_eq!(a.rest_of_line, ": <a@b.com>");
    assert_eq!(a.rest_of_line, b.rest_of_line);
}

#[test]
fn command_keywords() {
    assert_eq!(get_command(String::from("QUIT")).unwrap().command, Command::Quit);
    assert_eq!(get_command(String::from("quit")).unwrap().rest_of_line, "");
    assert_eq!(get_command(String::from("Data")).unwrap().command, Command::Data);
    assert_eq!(get_command(String::from("HELO x")).unwrap().command, Command::Helo);
    assert_eq!(get_command(String::from("ehlo x")).unwrap().rest_of_line, " x");
    assert_eq!(get_command(String::from("StartTLS")).unwrap().command, Command::StartTls);
    let m = get_command(String::from("Mail From:<a@b>")).unwrap();
    assert_eq!(m.command, Command::MailFrom);
    assert_eq!(m.rest_of_line, ":<a@b>");
}

#[test]
fn command_unknown() {
    assert!(get_command(String::from("NOOP")).is_none());
    assert!(get_command(String::from("")).is_none());
    assert!(get_command(String::from("MAIL")).is_none());
    assert!(get_command(String::from("RCPT:TO")).is_none());
}

#[test]
fn email_in_brackets() {
    assert_eq!(parse_email(":<a@b.com>").unwrap(), "a@b.com");
    assert_eq!(parse_email(": <a@b.com>  ").unwrap(), "a@b.com");
    assert_eq!(parse_email(":\t<>\r").unwrap(), "");
}

#[test]
fn email_without_colon() {
    assert_eq!(
        parse_email("<a@b.com>").unwrap_err(),
        "555 Syntax error, expected (:) found: (<)"
    );
}

#[test]
fn email_without_brackets() {
    assert_eq!(
        parse_email(":a@b.com").unwrap_err(),
        "555 Syntax error expect email to be enclosed within (< >)"
    );
    assert!(parse_email(":<a@b.com").is_err());
    assert!(parse_email(":   <").is_err());
}

#[test]
fn email_too_short() {
    assert_eq!(parse_email(":<a>").unwrap_err(), "555 Syntax error");
    assert_eq!(parse_email("").unwrap_err(), "555 Syntax error");
}
