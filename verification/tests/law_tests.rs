use email_syntax_verify_opt::{validate_email, validate_email_bytes, EmailValidator};

const SAMPLES: &[&str] = &[
    "test@example.com",
    "User.Name+tag@Sub.Example.ORG",
    "a@b",
    "x@[::FFFF:10.0.0.1]",
    "x@[2001:DB8::A]",
    "a@b@c.com",
    "user..name@example.com",
    "user@-example.com",
    "user@exa_mple.com",
    "no.separator",
    "UPPER@[127.0.0.1]",
    "mixed.Case@[fe80::ABCD]",
    "x@[::g]",
];

#[test]
fn the_same_bytes_get_the_same_answer() {
    for email in SAMPLES {
        let first = validate_email(email);
        let copy: Vec<u8> = email.as_bytes().to_vec();
        assert_eq!(validate_email(email), first);
        assert_eq!(validate_email_bytes(&copy), first);
        assert_eq!(EmailValidator::check(&copy), EmailValidator::check(email.as_bytes()));
    }
}

#[test]
fn the_case_of_ascii_letters_does_not_change_the_verdict() {
    for email in SAMPLES {
        let upper = email.to_ascii_uppercase();
        let lower = email.to_ascii_lowercase();
        let verdict = EmailValidator::check(email.as_bytes());
        assert_eq!(EmailValidator::check(upper.as_bytes()), verdict, "{}", upper);
        assert_eq!(EmailValidator::check(lower.as_bytes()), verdict, "{}", lower);
    }
    assert_eq!(
        validate_email("USER@EXAMPLE.COM"),
        validate_email("user@example.com")
    );
    assert!(validate_email("USER@EXAMPLE.COM"));
}

#[test]
fn rejection_by_length_does_not_look_at_the_content() {
    for byte in [b'a', b'.', b'-', b'@', b' ', 0xc3u8] {
        let local = vec![byte; 65];
        assert!(!EmailValidator::validate_user_part(&local));
        let mut email = local.clone();
        email.extend_from_slice(b"@example.com");
        assert!(!validate_email_bytes(&email));

        let label = vec![byte; 64];
        assert!(EmailValidator::validate_domain_label(&label).is_invalid());
        let mut email = b"user@".to_vec();
        email.extend_from_slice(&label);
        email.extend_from_slice(b".com");
        assert!(!validate_email_bytes(&email));

        assert!(!validate_email_bytes(&vec![byte; 321]));
    }
}

#[test]
fn dots_at_an_edge_or_side_by_side_are_rejected() {
    assert!(!validate_email("user..name@example.com"));
    assert!(validate_email("user@example.com"));
    for bad in [
        ".user@example.com",
        "user.@example.com",
        "us..er@example.com",
        "user@.example.com",
        "user@example.com.",
        "user@example..com",
        "user@[127..0.1]",
        "user@[127.0.0.1.]",
        "user@[.127.0.0.1]",
        "user@[::1..2]",
        "user@[::ffff:1..2.3]",
    ] {
        assert!(!validate_email(bad), "{}", bad);
    }
}

#[test]
fn an_accepted_address_has_one_at() {
    for email in SAMPLES {
        if validate_email(email) {
            let at = EmailValidator::find_last_at_position(email.as_bytes());
            let count = email.bytes().filter(|b| *b == b'@').count();
            assert_eq!(count, 1, "{}", email);
            let place = at.unwrap();
            assert!(0 < place && place < email.len() - 1);
        }
    }
    assert!(!validate_email("a@b@c.com"));
    assert!(!validate_email("@b.com"));
    assert!(!validate_email("a@"));
    assert!(!validate_email("user@[127.0.0.1@]"));
}

#[test]
fn hyphens_are_accepted_inside_a_label_only() {
    assert!(!validate_email("user@-example.com"));
    assert!(!validate_email("user@example-.com"));
    assert!(!validate_email("user@example.-com"));
    assert!(!validate_email("user@example.com-"));
    assert!(validate_email("user@ex-ample.com"));
    assert!(validate_email("user@e-x-a-m-p-l-e.c-m"));
    assert!(validate_email("user@example.c-om"));
    assert!(!validate_email("user@[-127.0.0.1]"));
    assert!(!validate_email("user@[127.0.0.1-]"));
    // any byte inside a valid label may become a hyphen
    let label = b"example";
    for at in 1..label.len() - 1 {
        let mut changed = label.to_vec();
        changed[at] = b'-';
        assert!(EmailValidator::validate_domain_label(&changed).is_valid());
    }
}

#[test]
fn well_formed_parts_make_an_accepted_address() {
    let locals = ["u", "user", "first.last", "a+b", "x_y-z", "!#$%&'*+/=?^_`{|}~-"];
    let domains = [
        "b",
        "example.com",
        "sub.domain.net",
        "[127.0.0.1]",
        "[::1]",
        "b\u{fc}cher.de",
    ];
    for local in locals {
        assert!(EmailValidator::validate_user_part(local.as_bytes()));
        for domain in domains {
            assert_eq!(EmailValidator::check_domain(domain.as_bytes()), Ok(()));
            let email = format!("{}@{}", local, domain);
            assert!(validate_email(&email), "{}", email);
        }
    }
}

#[test]
fn inputs_of_every_kind_get_an_answer() {
    for input in [
        "\x00".repeat(100),
        "\x7f".repeat(100),
        "\u{ff}".repeat(100),
        "a".repeat(1000),
        "@".repeat(100),
        ".".repeat(100),
        "-".repeat(100),
        "[".repeat(100),
        ":".repeat(100),
        "@".repeat(10),
        "@user@domain@com@".to_string(),
        format!("user{}domain.com", "@".repeat(10)),
    ] {
        assert!(!validate_email(&input));
    }
    for byte in 0u16..=255 {
        for len in 0usize..=12 {
            let input = vec![byte as u8; len];
            assert!(!validate_email_bytes(&input));
        }
        let mut around = b"a@b".to_vec();
        around.push(byte as u8);
        around.extend_from_slice(b"c");
        let _ = validate_email_bytes(&around);
        let mut literal = b"a@[".to_vec();
        literal.push(byte as u8);
        literal.extend_from_slice(b"]");
        assert!(!validate_email_bytes(&literal));
    }
}
