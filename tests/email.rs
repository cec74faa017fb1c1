use transmission_controller::email::{render_template, replace, EmailTemplate, Mailer};

fn params(items: &[(&str, &str)]) -> Vec<(String, String)> {
    items.iter().map(|(k, v)| (k.to_string(), v.to_string())).collect()
}

#[test]
fn render_placeholder() {
    assert_eq!(render_template("{{name}}", &params(&[("name", "x")])), "x");
    assert_eq!(render_template("{{other}} and {{name}}", &params(&[("name", "x")])), "{{other}} and x");
    assert_eq!(render_template("{{a}}{{b}}{{a}}", &params(&[("a", "1"), ("b", "2")])), "121");
    assert_eq!(render_template("no placeholders", &params(&[])), "no placeholders");
}

#[test]
fn replace_like_str_replace() {
    for (s, p, v) in [("aaaa", "aa", "b"), ("abcabc", "bc", ""), ("xyz", "q", "r"), ("", "a", "b"), ("aba", "a", "aa")] {
        assert_eq!(replace(s, p, v), s.replace(p, v));
    }
}

#[test]
fn template_file_text() {
    let t = EmailTemplate::from_text("  Hello {{name}}  \n\nBody\nline\n").unwrap();
    let (s, b) = t.render(&params(&[("name", "N")])).unwrap();
    assert_eq!(s, "Hello N");
    assert_eq!(b, "Body\nline\n");
    let t = EmailTemplate::from_text("Subject\r\n\r\nBody").unwrap();
    assert_eq!(t.render(&params(&[])).unwrap(), ("Subject".to_string(), "Body".to_string()));
    assert_eq!(
        EmailTemplate::from_text("   \n\nBody").unwrap_err(),
        "The first line must be a non-empty message subject"
    );
    assert_eq!(
        EmailTemplate::from_text("Subject\nnot empty\nBody").unwrap_err(),
        "The second line must be an empty delimiter between message subject and body"
    );
    let t = EmailTemplate::from_text("Only").unwrap();
    assert_eq!(t.render(&params(&[])).unwrap(), ("Only".to_string(), String::new()));
}

#[test]
fn mail_addresses() {
    assert!(Mailer::new("\"Daemon\" <daemon@example.com>", "admin@example.com").is_ok());
    assert_eq!(Mailer::new("not an address", "admin@example.com").unwrap_err(), "Invalid email: not an address");
    assert_eq!(Mailer::new("daemon@example.com", "bad@").unwrap_err(), "Invalid email: bad@");
    let m = Mailer::new("Daemon <daemon@example.com>", "admin@example.com").unwrap();
    assert_eq!(m.to().email.to_string(), "admin@example.com");
}
