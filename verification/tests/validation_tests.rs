use commission_store::validation::ValidationService;

#[test]
fn id_accepts_alphanumeric_and_underscore() {
    assert!(ValidationService::validate_id("abc_123").is_ok());
    assert!(ValidationService::validate_id("A").is_ok());
    let max = "a".repeat(64);
    assert!(ValidationService::validate_id(&max).is_ok());
}

#[test]
fn id_rejects_empty_long_and_strange() {
    assert!(ValidationService::validate_id("").is_err());
    let too_long = "a".repeat(65);
    assert!(ValidationService::validate_id(&too_long).is_err());
    assert!(ValidationService::validate_id("bad id!").is_err());
    assert!(ValidationService::validate_id("a/b").is_err());
    assert!(ValidationService::validate_id("a.b").is_err());
    assert!(ValidationService::validate_id("..").is_err());
}

#[test]
fn name_rejects_traversal_and_hazards() {
    assert!(ValidationService::validate_name("Alice", "Client name").is_ok());
    assert!(ValidationService::validate_name("J. R. Smith", "Client name").is_ok());
    assert!(ValidationService::validate_name("", "Client name").is_err());
    let too_long = "x".repeat(256);
    assert!(ValidationService::validate_name(&too_long, "Client name").is_err());
    for bad in ["a..b", "a/b", "a\\b", "a<b", "a>b", "a|b", "a:b", "a*b", "a?b", "a\"b"] {
        assert!(ValidationService::validate_name(bad, "Client name").is_err(), "{bad}");
    }
}

#[test]
fn email_is_lenient_freeform_contact_text() {
    assert!(ValidationService::validate_email("").is_ok());
    assert!(ValidationService::validate_email("someone@example.com").is_ok());
    assert!(ValidationService::validate_email("just a handle").is_ok());
    let too_long = format!("{}@x.com", "a".repeat(320));
    assert!(ValidationService::validate_email(&too_long).is_err());
    for bad in ["a<b", "a>b", "a&b", "a\"b", "a'b", "a`b"] {
        assert!(ValidationService::validate_email(bad).is_err(), "{bad}");
    }
}

#[test]
fn contact_limits_and_hazards() {
    assert!(ValidationService::validate_contact("").is_ok());
    assert!(ValidationService::validate_contact("+1 555 0100").is_ok());
    let too_long = "1".repeat(51);
    assert!(ValidationService::validate_contact(&too_long).is_err());
    assert!(ValidationService::validate_contact("a&b").is_err());
}

#[test]
fn description_screens_scripts() {
    assert!(ValidationService::validate_description("").is_ok());
    assert!(ValidationService::validate_description("a detailed brief").is_ok());
    let too_long = "d".repeat(10_001);
    assert!(ValidationService::validate_description(&too_long).is_err());
    for bad in ["x<script>y", "see javascript:alert(1)", "img onload=evil", "img onerror=evil"] {
        assert!(ValidationService::validate_description(bad).is_err(), "{bad}");
    }
}

#[test]
fn filename_needs_a_known_image_extension() {
    assert!(ValidationService::validate_filename("a.jpg").is_ok());
    assert!(ValidationService::validate_filename("a.JPG").is_ok());
    assert!(ValidationService::validate_filename("photo.final.webp").is_ok());
    for ok in ["a.jpeg", "a.png", "a.gif", "a.bmp"] {
        assert!(ValidationService::validate_filename(ok).is_ok(), "{ok}");
    }
    assert!(ValidationService::validate_filename("").is_err());
    assert!(ValidationService::validate_filename("a.exe").is_err());
    assert!(ValidationService::validate_filename("jpg").is_err());
    assert!(ValidationService::validate_filename("a..jpg").is_err());
    assert!(ValidationService::validate_filename("a/b.jpg").is_err());
    let too_long = format!("{}.jpg", "f".repeat(252));
    assert!(ValidationService::validate_filename(&too_long).is_err());
}

#[test]
fn status_and_payment_status_are_enumerated() {
    for ok in ["pending", "in-progress", "completed"] {
        assert!(ValidationService::validate_status(ok).is_ok(), "{ok}");
    }
    assert!(ValidationService::validate_status("done").is_err());
    assert!(ValidationService::validate_status("").is_err());
    for ok in ["Not Paid", "Half Paid", "Fully Paid"] {
        assert!(ValidationService::validate_payment_status(ok).is_ok(), "{ok}");
    }
    assert!(ValidationService::validate_payment_status("paid").is_err());
}

#[test]
fn price_bounds() {
    assert!(ValidationService::validate_price_cents(0).is_ok());
    assert!(ValidationService::validate_price_cents(1234).is_ok());
    assert!(ValidationService::validate_price_cents(99_999_999_999).is_ok());
    assert!(ValidationService::validate_price_cents(-1).is_err());
    assert!(ValidationService::validate_price_cents(100_000_000_000).is_err());
}

#[test]
fn image_path_rules() {
    assert!(ValidationService::validate_image_path("data:image/png;base64,AAAA").is_ok());
    assert!(ValidationService::validate_image_path("images/ord1_a.jpg").is_ok());
    assert!(ValidationService::validate_image_path("plain.jpg").is_ok());
    assert!(ValidationService::validate_image_path("other/a.jpg").is_err());
    assert!(ValidationService::validate_image_path("images/../secret").is_err());
    assert!(ValidationService::validate_image_path("a\\b").is_err());
    assert!(ValidationService::validate_image_path("a|b").is_err());
    assert!(ValidationService::validate_image_path("a<b").is_err());
    assert!(ValidationService::validate_image_path("a>b").is_err());
}

#[test]
fn import_path_rules() {
    let home = "/home/someone";
    assert!(ValidationService::validate_import_path("/tmp/export", home).is_ok());
    assert!(ValidationService::validate_import_path("/var/tmp/export", home).is_ok());
    assert!(ValidationService::validate_import_path("/home/someone/Downloads/data", home).is_ok());
    assert!(ValidationService::validate_import_path("", home).is_err());
    assert!(ValidationService::validate_import_path("/tmp/../etc", home).is_err());
    assert!(ValidationService::validate_import_path("~/Downloads/data", home).is_err());
    assert!(ValidationService::validate_import_path("relative/path", home).is_err());
    assert!(ValidationService::validate_import_path("/etc/passwd", home).is_err());
}
