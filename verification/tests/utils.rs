use com_macros_support::interface::iid::ident;
use com_macros_support::text::{chars_of, decimal_chars, decimal_padded_chars, push_all, push_str};
use com_macros_support::utils::{camel_to_snake, class_factory_ident, ref_count_ident, snake_to_camel};

#[test]
fn test_camel_to_snake() {
    let result = camel_to_snake("IAnimalVTable".into());
    assert_eq!(result, "ianimal_vtable".to_owned());
}

// Further cases.

#[test]
fn camel_to_snake_cases() {
    assert_eq!(camel_to_snake(""), "");
    assert_eq!(camel_to_snake("IUnknown"), "iunknown");
    assert_eq!(camel_to_snake("IClassFactory"), "iclass_factory");
    assert_eq!(camel_to_snake("already_snake"), "already_snake");
    assert_eq!(camel_to_snake("ABCdef"), "abcdef");
    assert_eq!(camel_to_snake("aBcD"), "a_bc_d");
    assert_eq!(camel_to_snake("IFoo2Bar"), "ifoo2_bar");
}

#[test]
fn camel_to_snake_beyond_ascii() {
    // 'Ä' is uppercase and lowercases to 'ä'; 'İ' lowercases to two characters.
    assert_eq!(camel_to_snake("ÄbcDef"), "äbc_def");
    assert_eq!(camel_to_snake("xİ"), "x_i\u{307}");
}

#[test]
fn snake_to_camel_cases() {
    assert_eq!(snake_to_camel(""), "");
    assert_eq!(snake_to_camel("query_interface"), "QueryInterface");
    assert_eq!(snake_to_camel("AddRef"), "AddRef");
    assert_eq!(snake_to_camel("__a__b_"), "AB");
    assert_eq!(snake_to_camel("get_2nd_value"), "Get2ndValue");
}

#[test]
fn snake_to_camel_beyond_ascii() {
    // 'ß' uppercases to "SS".
    assert_eq!(snake_to_camel("ß_x"), "SSX");
    assert_eq!(snake_to_camel("é_à"), "ÉÀ");
}

#[test]
fn ascii_snake_to_camel_has_no_underscore() {
    for s in ["a_b_c", "_x_", "already", "with_1_digit"] {
        assert!(!snake_to_camel(s).contains('_'));
    }
}

#[test]
fn ascii_camel_to_snake_has_no_uppercase() {
    for s in ["IAnimalVTable", "ABC", "aBcDeF", "X_Y"] {
        let r = camel_to_snake(s);
        assert!(!r.chars().any(|c| c.is_ascii_uppercase()), "{}", r);
    }
}

#[test]
fn idents() {
    assert_eq!(class_factory_ident("BritishShortHairCat"), "BritishShortHairCatClassFactory");
    assert_eq!(ref_count_ident(), "__refcnt");
}

#[test]
fn text_helpers() {
    // Case mappings, through the functions that use them.
    assert_eq!(camel_to_snake("Q"), "q");
    assert_eq!(camel_to_snake("qQ"), "q_q");
    assert_eq!(camel_to_snake("Äb"), "äb");
    assert_eq!(snake_to_camel("q"), "Q");
    assert_eq!(snake_to_camel("ß"), "SS");
    assert_eq!(ident("ianimal"), "IID_IANIMAL");
    assert_eq!(ident("straße"), "IID_STRASSE");
    assert_eq!(chars_of("ab"), vec!['a', 'b']);
    let mut v = vec!['a'];
    push_all(&mut v, &vec!['b', 'c']);
    push_str(&mut v, "de");
    assert_eq!(v, vec!['a', 'b', 'c', 'd', 'e']);
}

#[test]
fn decimals() {
    let text = |v: Vec<char>| v.into_iter().collect::<String>();
    assert_eq!(text(decimal_chars(0)), "0");
    assert_eq!(text(decimal_chars(1204)), "1204");
    assert_eq!(text(decimal_padded_chars(7, 4)), "0007");
    assert_eq!(text(decimal_padded_chars(12345, 4)), "12345");
}

#[test]
fn snake_to_camel_idempotent() {
    for s in ["query_interface", "_a__b_", "AddRef", "x1_y2"] {
        let once = snake_to_camel(s);
        assert_eq!(snake_to_camel(&once), once);
    }
}

#[test]
fn camel_snake_round_trips() {
    for s in ["QueryInterface", "AddRef", "Release", "GetTypeInfoCount"] {
        assert_eq!(snake_to_camel(&camel_to_snake(s)), s);
    }
    for s in ["query_interface", "add_ref", "get_type_info_count", "eat"] {
        assert_eq!(camel_to_snake(&snake_to_camel(s)), s);
    }
}
