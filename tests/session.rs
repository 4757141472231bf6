use mail_exchange::server::{
    accepted_reply, closing_reply, greeting, tls_failed_reply, tls_ready_reply, Action, Body,
    Session, Stage, MAX_BODY_LINES, MAX_COMMANDS,
};
use mail_exchange::error::Error;

fn reply(a: Action) -> Vec<String> {
    match a {
        Action::Reply(lines) => lines,
        other => panic!("expected a reply, got {:?}", other),
    }
}

#[test]
fn rcpt_before_mail_from_is_refused() {
    let mut s = Session::new("mx.local");
    assert_eq!(reply(s.handle(String::from("RCPT TO:<a@b.com>"))), vec!["503 Bad sequence of commands"]);
    assert_eq!(reply(s.handle(String::from("HELO peer"))), vec!["250 mx.local ready for mail"]);
    assert_eq!(reply(s.handle(String::from("RCPT TO:<a@b.com>"))), vec!["503 Bad sequence of commands"]);
    assert!(matches!(s.stage(), Stage::Helo));
}

#[test]
fn data_before_rcpt_is_refused() {
    let mut s = Session::new("mx.local");
    assert_eq!(reply(s.handle(String::from("DATA"))), vec!["503 Bad sequence of commands"]);
    s.handle(String::from("EHLO peer"));
    s.handle(String::from("MAIL FROM:<a@b.com>"));
    assert_eq!(reply(s.handle(String::from("DATA"))), vec!["503 Bad sequence of commands"]);
}

#[test]
fn quit_from_any_stage() {
    let mut s = Session::new("mx.local");
    assert!(matches!(s.handle(String::from("QUIT")), Action::Quit));
    s.handle(String::from("EHLO peer"));
    s.handle(String::from("MAIL FROM:<a@b.com>"));
    s.handle(String::from("RCPT TO:<c@d.com>"));
    assert!(matches!(s.handle(String::from("quit")), Action::Quit));
}

#[test]
fn starttls_from_any_stage() {
    let mut s = Session::new("mx.local");
    assert!(matches!(s.handle(String::from("STARTTLS")), Action::StartTls));
}

#[test]
fn ehlo_advertises_starttls() {
    let mut s = Session::new("mx.local");
    assert_eq!(
        reply(s.handle(String::from("EHLO client.example"))),
        vec!["250-mx.local ready for mail", "250 STARTTLS"]
    );
    assert!(matches!(s.stage(), Stage::Helo));
}

#[test]
fn empty_helo_is_refused() {
    let mut s = Session::new("mx.local");
    assert_eq!(reply(s.handle(String::from("HELO"))), vec!["501 Empty HELO/EHLO is not allowed"]);
    assert_eq!(reply(s.handle(String::from("EHLO "))), vec!["501 Empty HELO/EHLO is not allowed"]);
    assert!(matches!(s.stage(), Stage::Connect));
    assert_eq!(reply(s.handle(String::from("HELO  "))), vec!["501 Empty HELO/EHLO is not allowed"]);
    assert_eq!(reply(s.handle(String::from("EHLO \t \r"))), vec!["501 Empty HELO/EHLO is not allowed"]);
    assert!(matches!(s.stage(), Stage::Connect));
}

#[test]
fn short_helo_argument_is_accepted() {
    let mut s = Session::new("mx.local");
    assert_eq!(reply(s.handle(String::from("HELOx"))), vec!["250 mx.local ready for mail"]);
    assert!(matches!(s.stage(), Stage::Helo));
}

#[test]
fn body_line_limit() {
    let mut b = Body::new();
    for _ in 0..MAX_BODY_LINES {
        assert!(!b.take_line("x").unwrap());
    }
    assert!(matches!(b.take_line("."), Err(Error::Timeout)));
}

#[test]
fn unknown_command() {
    let mut s = Session::new("mx.local");
    assert_eq!(reply(s.handle(String::from("NOOP"))), vec!["502 Unknown command"]);
}

#[test]
fn full_transaction() {
    let mut s = Session::new("mx.local");
    s.handle(String::from("EHLO peer"));
    assert_eq!(reply(s.handle(String::from("MAIL FROM:<a@b.com>"))), vec!["250 Ok"]);
    assert_eq!(reply(s.handle(String::from("RCPT TO:<c@d.com>"))), vec!["250 Ok"]);
    assert_eq!(
        reply(s.handle(String::from("RCPT TO:c@d.com"))),
        vec!["555 Syntax error expect email to be enclosed within (< >)"]
    );
    assert_eq!(reply(s.handle(String::from("rcpt to: <e@f.com>"))), vec!["250 Ok"]);
    match s.handle(String::from("DATA")) {
        Action::Data { reply, sender, recipients } => {
            assert_eq!(reply, "354 Ready, please finish with <CR><LF>.<CR><LF>");
            assert_eq!(sender, "a@b.com");
            assert_eq!(recipients, vec!["c@d.com", "e@f.com"]);
        }
        other => panic!("expected data, got {:?}", other),
    }
}

#[test]
fn bad_mail_from_stays_in_helo() {
    let mut s = Session::new("mx.local");
    s.handle(String::from("HELO peer"));
    assert_eq!(
        reply(s.handle(String::from("MAIL FROM a@b.com"))),
        vec!["555 Syntax error, expected (:) found: ( )"]
    );
    assert!(matches!(s.stage(), Stage::Helo));
    s.handle(String::from("MAIL FROM:<a@b.com>"));
    assert_eq!(reply(s.handle(String::from("MAIL FROM:<x@y.com>"))), vec!["503 Bad sequence of commands"]);
}

#[test]
fn invalid_first_recipient_keeps_data_refused() {
    let mut s = Session::new("mx.local");
    s.handle(String::from("HELO peer"));
    s.handle(String::from("MAIL FROM:<a@b.com>"));
    s.handle(String::from("RCPT TO:bad"));
    assert_eq!(reply(s.handle(String::from("DATA"))), vec!["503 Bad sequence of commands"]);
}

#[test]
fn session_times_out() {
    let mut s = Session::new("mx.local");
    for _ in 0..MAX_COMMANDS {
        assert!(!s.timed_out());
        s.handle(String::from("NOOP"));
    }
    assert!(s.timed_out());
    assert!(matches!(s.handle(String::from("QUIT")), Action::Timeout));
}

#[test]
fn body_collection() {
    let mut b = Body::new();
    assert!(!b.take_line("Subject: hi").unwrap());
    assert!(!b.take_line("").unwrap());
    assert!(!b.take_line("..").unwrap());
    assert!(b.take_line(".").unwrap());
    assert_eq!(b.into_text(), "Subject: hi\n\n..\n");
}

#[test]
fn fixed_replies() {
    assert_eq!(greeting("mx.local", "1.2.3.4:5"), "220 mx.local ESMTP Hello [1.2.3.4:5]");
    assert_eq!(closing_reply(), "221 closing connection");
    assert_eq!(accepted_reply(), "250 Sent email :)");
    assert_eq!(tls_ready_reply(), "220 Goahead");
    assert_eq!(tls_failed_reply(), "502 Internal Error starting tls");
}
