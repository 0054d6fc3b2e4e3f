use docstamp::models::{GenerateRequest, GenerateError};

fn req(name: &str, address: &str, issuer: &str) -> GenerateRequest {
    GenerateRequest {
        name: name.to_string(),
        address: address.to_string(),
        issuer: issuer.to_string(),
    }
}

fn validation_message(r: Result<(), GenerateError>) -> String {
    match r {
        Err(GenerateError::ValidationError(m)) => m,
        other => panic!("expected a validation error, got {:?}", other.is_ok()),
    }
}

#[test]
fn valid_request_passes() {
    assert!(req("Jane Doe", "123 Main St", "Acme Corp").validate().is_ok());
}

#[test]
fn empty_name_is_rejected() {
    let r = req("", "123 Main St", "Acme Corp").validate();
    assert_eq!(validation_message(r), "Name cannot be empty");
}

#[test]
fn whitespace_only_name_is_rejected() {
    let r = req(" \t\n ", "123 Main St", "Acme Corp").validate();
    assert_eq!(validation_message(r), "Name cannot be empty");
}

#[test]
fn empty_address_is_rejected() {
    let r = req("Jane", "   ", "Acme Corp").validate();
    assert_eq!(validation_message(r), "Address cannot be empty");
}

#[test]
fn empty_issuer_is_rejected() {
    let r = req("Jane", "123 Main St", "\u{00a0}").validate();
    assert_eq!(validation_message(r), "Issuer cannot be empty");
}

#[test]
fn overlong_name_is_rejected() {
    let long = "x".repeat(101);
    let r = req(&long, "123 Main St", "Acme").validate();
    assert_eq!(validation_message(r), "Name is too long");
}

#[test]
fn overlong_address_is_rejected() {
    let long = "x".repeat(201);
    let r = req("Jane", &long, "Acme").validate();
    assert_eq!(validation_message(r), "Address is too long");
}

#[test]
fn overlong_issuer_is_rejected() {
    let long = "y".repeat(101);
    let r = req("Jane", "123 Main St", &long).validate();
    assert_eq!(validation_message(r), "Issuer is too long");
}

#[test]
fn boundary_lengths_pass() {
    let name = "n".repeat(100);
    let address = "a".repeat(200);
    let issuer = "i".repeat(100);
    assert!(req(&name, &address, &issuer).validate().is_ok());
}

#[test]
fn non_latin_text_is_accepted() {
    assert!(req("Іван Іваненко", "вул. Головна 1", "Офіс").validate().is_ok());
}

#[test]
fn sanitize_trims_all_fields() {
    let mut r = req("  Jane Doe \t", "\n123 Main St  ", " Acme Corp ");
    r.sanitize();
    assert_eq!(r.name, "Jane Doe");
    assert_eq!(r.address, "123 Main St");
    assert_eq!(r.issuer, "Acme Corp");
}

#[test]
fn sanitize_trims_unicode_whitespace() {
    let mut r = req("\u{2003}Jane\u{2003}", "a", "b");
    r.sanitize();
    assert_eq!(r.name, "Jane");
}

#[test]
fn sanitize_of_blank_leaves_empty() {
    let mut r = req("   ", "a", "b");
    r.sanitize();
    assert_eq!(r.name, "");
}
