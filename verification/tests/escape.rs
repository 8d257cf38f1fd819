use partiql::escape::Escaper;

#[test]
fn escaping_letters_and_whitespace() {
    assert_eq!("a B c \t D \n e_f_G".escape_path(), "a_b_c_d_e_f_g");
    assert_eq!("a B c \t D \n e_f_G".escape_test_name(), "r#a_b_c_d_e_f_g");
    assert_eq!(
        "a B c \t D \n e_f_G".escape_module_name(),
        "r#a_b_c_d_e_f_g"
    );
}

#[test]
fn escaping_letters_numbers_other_chars() {
    assert_eq!(
        "a B c  1 2 3 e f G !?#$%*!(".escape_path(),
        "a_b_c_1_2_3_e_f_g"
    );
    assert_eq!(
        "a B c  1 2 3 e f G !?#$%*!(".escape_test_name(),
        "r#a_b_c_1_2_3_e_f_g"
    );
    assert_eq!(
        "a B c  1 2 3 e f G !?#$%*!(".escape_module_name(),
        "r#a_b_c_1_2_3_e_f_g"
    );
}

#[test]
fn escaping_a_string_agrees_with_escaping_its_slice() {
    let s = String::from("Hello World");
    assert_eq!(s.escape_path(), "hello_world");
    assert_eq!(s.escape_path(), s.as_str().escape_path());
    assert_eq!(s.escape_test_name(), "r#hello_world");
    assert_eq!(s.escape_module_name(), s.escape_test_name());
}

#[test]
fn escaping_camel_case() {
    assert_eq!("fooBar".escape_path(), "foo_bar");
    assert_eq!("FooBar".escape_test_name(), "r#foo_bar");
    assert_eq!("".escape_path(), "");
    assert_eq!("".escape_module_name(), "r#");
}
