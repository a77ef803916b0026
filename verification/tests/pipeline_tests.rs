use aidecomment::{aidecomment, ExpandError};

fn expand(src: &str) -> proc_macro2::TokenStream {
    let ts: proc_macro2::TokenStream = src.parse().unwrap();
    aidecomment(ts).unwrap()
}

fn parse_file(ts: proc_macro2::TokenStream) -> syn::File {
    syn::parse2(ts).unwrap()
}

#[test]
fn emits_four_declarations_in_order() {
    let out = expand(
        "#[doc = \" This is a summary\"] #[doc = \"\"] #[doc = \" Longer description.\"] \
         pub async fn my_handler() -> i32 { 0 }",
    );
    let text = out.to_string();
    assert!(text.contains("\"This is a summary\""));
    assert!(text.contains("\"Longer description.\""));
    let file = parse_file(out);
    assert_eq!(file.items.len(), 4);
    match &file.items[0] {
        syn::Item::Struct(s) => {
            assert_eq!(s.ident.to_string(), "my_handler_AideComment");
            assert!(matches!(s.vis, syn::Visibility::Public(_)));
            assert!(matches!(s.fields, syn::Fields::Unit));
        }
        _ => panic!("expected a struct first"),
    }
    assert!(matches!(&file.items[1], syn::Item::Impl(_)));
    assert!(matches!(&file.items[2], syn::Item::Impl(_)));
    match &file.items[3] {
        syn::Item::Fn(f) => {
            assert_eq!(f.sig.ident.to_string(), "my_handler");
            assert_eq!(f.sig.inputs.len(), 1);
        }
        _ => panic!("expected the rewritten function last"),
    }
}

#[test]
fn scenario_parameters_shift_right() {
    let out = expand("#[doc = \" docs\"] fn calc(a: i32, b: i32) -> i32 { a + b }");
    let file = parse_file(out);
    match &file.items[3] {
        syn::Item::Fn(f) => {
            assert_eq!(f.sig.inputs.len(), 3);
            match &f.sig.inputs[0] {
                syn::FnArg::Typed(pt) => {
                    assert!(matches!(*pt.pat, syn::Pat::Wild(_)));
                    match pt.ty.as_ref() {
                        syn::Type::Path(tp) => {
                            assert!(tp.path.is_ident("calc_AideComment"));
                        }
                        _ => panic!("expected a plain type path"),
                    }
                }
                _ => panic!("expected a typed parameter first"),
            }
            let names: Vec<String> = f
                .sig
                .inputs
                .iter()
                .skip(1)
                .map(|arg| match arg {
                    syn::FnArg::Typed(pt) => match pt.pat.as_ref() {
                        syn::Pat::Ident(id) => id.ident.to_string(),
                        _ => panic!("expected named parameters"),
                    },
                    _ => panic!("expected typed parameters"),
                })
                .collect();
            assert_eq!(names, vec![String::from("a"), String::from("b")]);
        }
        _ => panic!("expected the rewritten function last"),
    }
}

#[test]
fn function_without_docs_gets_empty_but_present_metadata() {
    let out = expand("fn bare() {}");
    let text = out.to_string();
    assert!(text.contains("\"\""));
    let file = parse_file(out);
    assert_eq!(file.items.len(), 4);
}

#[test]
fn restricted_visibility_is_copied_to_companion() {
    let out = expand("#[doc = \" x\"] pub(crate) fn scoped() {}");
    let file = parse_file(out);
    match &file.items[0] {
        syn::Item::Struct(s) => {
            assert!(matches!(s.vis, syn::Visibility::Restricted(_)));
        }
        _ => panic!("expected a struct first"),
    }
}

#[test]
fn other_attributes_stay_on_the_function() {
    let out = expand("#[doc = \" s\"] #[inline] fn speedy() {}");
    let file = parse_file(out);
    match &file.items[3] {
        syn::Item::Fn(f) => {
            assert_eq!(f.attrs.len(), 2);
        }
        _ => panic!("expected the rewritten function last"),
    }
}

#[test]
fn summary_with_quotes_survives_the_round_trip() {
    let out = expand("#[doc = \" a \\\"quoted\\\" word\"] fn q() {}");
    assert!(out.to_string().contains("quoted"));
    let file = parse_file(out);
    assert_eq!(file.items.len(), 4);
}

#[test]
fn non_function_input_is_rejected() {
    let ts: proc_macro2::TokenStream = "struct NotAFunction;".parse().unwrap();
    let r = aidecomment(ts);
    assert!(matches!(r, Err(ExpandError::ItemParse(_))));
}

#[test]
fn doc_comment_syntax_is_read_like_doc_attributes() {
    let out = expand("/// This is a summary\n///\n/// And a description.\nfn commented() {}");
    let text = out.to_string();
    assert!(text.contains("\"This is a summary\""));
    assert!(text.contains("\"And a description.\""));
}
