use aidecomment::capability::{apply_operation_doc, extract_companion, OperationDoc};
use aidecomment::transform::{
    companion_arg_source, companion_name, escape_string, insert_companion_arg, render_expansion,
};
use quote::ToTokens;

#[test]
fn companion_name_appends_fixed_suffix() {
    assert_eq!(companion_name("my_handler"), "my_handler_AideComment");
    assert_eq!(companion_name("x"), "x_AideComment");
}

#[test]
fn companion_arg_source_is_ignored_binding() {
    assert_eq!(companion_arg_source("my_handler_AideComment"), "_: my_handler_AideComment");
}

#[test]
fn escape_handles_quotes_backslashes_and_controls() {
    assert_eq!(escape_string("plain"), "plain");
    assert_eq!(escape_string("a\"b"), "a\\\"b");
    assert_eq!(escape_string("a\\b"), "a\\\\b");
    assert_eq!(escape_string("a\nb\rc\td"), "a\\nb\\rc\\td");
    assert_eq!(escape_string(""), "");
}

#[test]
fn parameter_shift_inserts_companion_first() {
    let a: syn::FnArg = syn::parse_str("a: i32").unwrap();
    let b: syn::FnArg = syn::parse_str("b: i32").unwrap();
    let companion: syn::FnArg = syn::parse_str("_: Demo_AideComment").unwrap();
    let mut args = vec![a.clone(), b.clone()];
    insert_companion_arg(&mut args, companion.clone());
    assert_eq!(args.len(), 3);
    let texts: Vec<String> =
        args.iter().map(|arg| arg.to_token_stream().to_string()).collect();
    assert_eq!(texts[0], companion.to_token_stream().to_string());
    assert_eq!(texts[1], a.to_token_stream().to_string());
    assert_eq!(texts[2], b.to_token_stream().to_string());
}

#[test]
fn parameter_shift_on_empty_list() {
    let companion: syn::FnArg = syn::parse_str("_: Demo_AideComment").unwrap();
    let mut args: Vec<syn::FnArg> = Vec::new();
    insert_companion_arg(&mut args, companion);
    assert_eq!(args.len(), 1);
}

#[test]
fn rendered_expansion_has_expected_shape() {
    let out = render_expansion(
        "pub",
        "foo_AideComment",
        "The summary",
        "The description",
        "pub fn foo() {}",
    );
    assert!(out.starts_with("pub struct foo_AideComment ;\n"));
    assert!(out.contains("impl ::aide::OperationInput for foo_AideComment"));
    assert!(out.contains("operation.summary = Some(\"The summary\".to_owned());"));
    assert!(out.contains("operation.description = Some(\"The description\".to_owned());"));
    assert!(out.contains(
        "#[::axum::async_trait] impl<S> ::axum::extract::FromRequestParts<S> for foo_AideComment"
    ));
    assert!(out.contains("type Rejection = ::std::convert::Infallible;"));
    assert!(out.contains("Ok(foo_AideComment)"));
    assert!(out.ends_with("pub fn foo() {}"));
}

#[test]
fn rendered_expansion_escapes_literals() {
    let out = render_expansion("", "f_AideComment", "has \"quotes\"", "line\nbreak", "fn f() {}");
    assert!(out.contains("Some(\"has \\\"quotes\\\"\".to_owned())"));
    assert!(out.contains("Some(\"line\\nbreak\".to_owned())"));
}

#[test]
fn extractor_never_fails() {
    let r = extract_companion();
    assert!(r.is_ok());
}

#[test]
fn metadata_provider_sets_both_fields() {
    let mut operation = OperationDoc { summary: None, description: None };
    let summary = String::from("s");
    let description = String::from("d");
    apply_operation_doc(&mut operation, &summary, &description);
    assert_eq!(operation.summary, Some(String::from("s")));
    assert_eq!(operation.description, Some(String::from("d")));
}

#[test]
fn metadata_provider_sets_empty_fields_as_present() {
    let mut operation = OperationDoc { summary: None, description: None };
    let empty = String::new();
    apply_operation_doc(&mut operation, &empty, &empty);
    assert_eq!(operation.summary, Some(String::new()));
    assert_eq!(operation.description, Some(String::new()));
}
