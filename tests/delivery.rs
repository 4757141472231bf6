use mail_exchange::client::{
    body_lines, check_greeting, domain_of, ehlo_command, starttls_accepted, Connector, Delivery,
    Helo, Progress, Transaction, Verdict, MAX_ATTEMPTS,
};
use mail_exchange::error::Error;
use mail_exchange::server::Body;
use mail_exchange::tls::tls_server_name;

fn sent(p: Progress) -> Vec<String> {
    match p {
        Progress::Send(lines) => lines,
        other => panic!("expected lines to send, got {:?}", other),
    }
}

/// Runs one attempt against a server that answers MAIL FROM with `mail_reply`
/// and every other command as a willing server does; returns whether the
/// message went through and what the server collected.
fn attempt(mut t: Transaction, mail_reply: &str) -> (bool, Option<String>) {
    let mut out = sent(t.start());
    let mut body: Option<Body> = None;
    let mut collected = None;
    loop {
        let mut reply = String::new();
        for l in out {
            if let Some(b) = body.as_mut() {
                if b.take_line(&l).unwrap() {
                    collected = Some(body.take().unwrap().into_text());
                    reply = String::from("250 Sent email :)");
                }
                continue;
            }
            reply = if l.starts_with("MAIL FROM") {
                String::from(mail_reply)
            } else if l == "DATA" {
                body = Some(Body::new());
                String::from("354 go ahead")
            } else if l == "QUIT" {
                String::from("221 bye")
            } else {
                String::from("250 Ok")
            };
        }
        match t.on_reply(reply) {
            Progress::Send(lines) => out = lines,
            Progress::Done => return (true, collected),
            Progress::Failed(_) => return (false, collected),
        }
    }
}

fn deliver(rejections: u32) -> Verdict {
    let to = vec![String::from("jane@doe.com")];
    let mut d = Delivery::new("john@doe.com", &to, "Subject: x\r\n\r\nHello\r\n");
    let mut n = 0;
    loop {
        let reply = if n < rejections { "550 no" } else { "250 Ok" };
        let (ok, _) = attempt(d.begin(), reply);
        n += 1;
        match d.finish(ok) {
            Verdict::Retry => continue,
            v => return v,
        }
    }
}

#[test]
fn retry_succeeds_on_fifth_attempt() {
    assert!(matches!(deliver(4), Verdict::Sent));
}

#[test]
fn retry_gives_up_after_five() {
    match deliver(5) {
        Verdict::GiveUp(Error::String(m)) => assert_eq!(m, "Failed to send"),
        other => panic!("expected to give up, got {:?}", other),
    }
}

#[test]
fn starttls_only_on_first_attempt() {
    let to = vec![String::from("a@b.com")];
    let mut d = Delivery::new("x@y.com", &to, "hi");
    assert!(d.use_starttls());
    assert!(matches!(d.finish(false), Verdict::Retry));
    assert!(!d.use_starttls());
    assert_eq!(MAX_ATTEMPTS, 5);
}

#[test]
fn commands_in_order() {
    let to = vec![String::from("a@b.com"), String::from("c@d.com")];
    let d = Delivery::new("x@y.com", &to, "line one\nline two\n");
    let mut t = d.begin();
    assert_eq!(sent(t.start()), vec!["MAIL FROM:<x@y.com>"]);
    assert_eq!(sent(t.on_reply(String::from("250 Ok"))), vec!["RCPT TO:<c@d.com>"]);
    assert_eq!(sent(t.on_reply(String::from("250 Ok"))), vec!["RCPT TO:<a@b.com>"]);
    assert_eq!(sent(t.on_reply(String::from("250 Ok"))), vec!["DATA"]);
    assert_eq!(sent(t.on_reply(String::from("354 go"))), vec!["line one", "line two", "."]);
    assert_eq!(sent(t.on_reply(String::from("250 Sent"))), vec!["QUIT"]);
    assert!(matches!(t.on_reply(String::from("garbage")), Progress::Done));
}

#[test]
fn rejected_recipient_fails_attempt() {
    let to = vec![String::from("a@b.com")];
    let d = Delivery::new("x@y.com", &to, "hi");
    let mut t = d.begin();
    t.start();
    t.on_reply(String::from("250 Ok"));
    assert!(matches!(t.on_reply(String::from("550 no such user")), Progress::Failed(_)));
}

#[test]
fn data_needs_354() {
    let to = vec![String::from("a@b.com")];
    let d = Delivery::new("x@y.com", &to, "hi");
    let mut t = d.begin();
    t.start();
    t.on_reply(String::from("250 Ok"));
    t.on_reply(String::from("250 Ok"));
    assert!(matches!(t.on_reply(String::from("250 Ok")), Progress::Failed(_)));
}

#[test]
fn body_round_trip() {
    let to = vec![String::from("jane@doe.com")];
    let d = Delivery::new("john@doe.com", &to, "From: a\r\n\r\nline\r\n..x\n");
    let (ok, body) = attempt(d.begin(), "250 Ok");
    assert!(ok);
    assert_eq!(body.unwrap(), "From: a\n\nline\n..x\n");
}

#[test]
fn body_lines_like_std() {
    for s in ["", "a", "a\n", "a\r\nb", "\n", "a\n\nb\r\n", "x\r", "\r\n\r\n"] {
        let expected: Vec<String> = s.lines().map(String::from).collect();
        assert_eq!(body_lines(s), expected, "{:?}", s);
    }
}

#[test]
fn ehlo_capabilities() {
    let mut h = Helo::new();
    assert_eq!(h.accept(String::from("250-mx.example.com Hello there")).unwrap(), false);
    assert_eq!(h.accept(String::from("250-SIZE 1000")).unwrap(), false);
    assert!(!h.offers_tls());
    assert_eq!(h.accept(String::from("250 starttls")).unwrap(), true);
    assert!(h.offers_tls());
    assert_eq!(h.server_name(), "mx.example.com");
}

#[test]
fn ehlo_rejects_other_codes() {
    let mut h = Helo::new();
    assert!(h.accept(String::from("550 go away")).is_err());
    assert!(h.accept(String::from("nonsense")).is_err());
}

#[test]
fn ehlo_line_limit() {
    let mut h = Helo::new();
    for _ in 0..100 {
        assert_eq!(h.accept(String::from("250-X")).unwrap(), false);
    }
    assert!(h.accept(String::from("250 X")).is_err());
}

#[test]
fn greeting_and_starttls_replies() {
    assert!(check_greeting(String::from("220 mx.example.com ESMTP")).is_ok());
    assert!(check_greeting(String::from("554 no")).is_err());
    assert!(check_greeting(String::from("220")).is_err());
    assert!(starttls_accepted(String::from("220 Goahead")));
    assert!(!starttls_accepted(String::from("502 no")));
    assert_eq!(ehlo_command("client.local"), "EHLO client.local");
}

#[test]
fn domains() {
    assert_eq!(domain_of("jane@doe.com"), "doe.com");
    assert_eq!(domain_of("a@b@c.org"), "c.org");
    assert_eq!(domain_of("plain"), "plain");
}

#[test]
fn no_records_falls_back_to_domain() {
    let mut c = Connector::new(None, "doe.com");
    assert_eq!(c.next_host().unwrap(), "doe.com");
    assert!(c.next_host().is_none());
    let mut c = Connector::new(Some(Vec::new()), "doe.com");
    assert_eq!(c.next_host().unwrap(), "doe.com");
    assert!(c.next_host().is_none());
}

#[test]
fn records_tried_in_order() {
    let mx = vec![String::from("mx1.doe.com."), String::from("mx2.doe.com.")];
    let mut c = Connector::new(Some(mx), "doe.com");
    assert_eq!(c.next_host().unwrap(), "mx1.doe.com.");
    assert_eq!(c.next_host().unwrap(), "mx2.doe.com.");
    assert_eq!(c.next_host().unwrap(), "doe.com");
    assert!(c.next_host().is_none());
}

#[test]
fn server_names_for_tls() {
    assert!(tls_server_name("mx.example.com").is_ok());
    assert!(tls_server_name("127.0.0.1").is_ok());
    assert!(matches!(tls_server_name("not a name!"), Err(Error::String(_))));
    assert!(tls_server_name("").is_err());
}
