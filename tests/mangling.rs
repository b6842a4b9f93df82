use jnisupport::mangling::{get_symbol_name, mangle_name, symbol_name};
use jnisupport::signature::MethodSignature;

#[test]
fn test_get_symbol_name() {
    assert_eq!(
        &get_symbol_name("pkg/Cls", "f", &MethodSignature::from_utf8("(ILjava/lang/String;)D")),
        "Java_pkg_Cls_f__ILjava_lang_String_2"
    );
}

#[test]
fn test_mangle_name() {
    assert_eq!(&mangle_name(""), "");
    assert_eq!(&mangle_name("abc"), "abc");
    assert_eq!(&mangle_name("java/lang/String"), "java_lang_String");
    assert_eq!(&mangle_name("Ljava/lang/String;"), "Ljava_lang_String_2");
    assert_eq!(&mangle_name("[III"), "_3III");
    assert_eq!(&mangle_name("L测试;"), "L_06d4b_08bd5_2");
    assert_eq!(&mangle_name("L𝕊;"), "L_0d835_0dd4a_2");
}

#[test]
fn mangle_underscore_and_punctuation() {
    assert_eq!(&mangle_name("a_b"), "a_1b");
    assert_eq!(&mangle_name("[Lx;"), "_3Lx_2");
    assert_eq!(&mangle_name("a.b"), "a_0002eb");
    assert_eq!(&mangle_name("$"), "_00024");
}

#[test]
fn mangle_single_characters_by_width() {
    assert_eq!(&mangle_name("\u{6d4b}"), "_06d4b");
    assert_eq!(&mangle_name("\u{1d54a}"), "_0d835_0dd4a");
    assert_eq!(&mangle_name("\u{e9}"), "_000e9");
    assert_eq!(&mangle_name("\u{10ffff}"), "_0dbff_0dfff");
    assert_eq!(&mangle_name("\u{10000}"), "_0d800_0dc00");
}

#[test]
fn mangle_is_repeatable_and_plain() {
    let inputs = ["", "abc", "L测试;", "a_b/c[d;e", "x\u{1d54a}y", "a b\tc"];
    for s in inputs.iter() {
        let first = mangle_name(s);
        let second = mangle_name(s);
        assert_eq!(first, second);
        assert!(first.chars().all(|c| c.is_ascii_alphanumeric() || c == '_'));
    }
}

#[test]
fn symbol_name_composition() {
    assert_eq!(
        &symbol_name("pkg/Cls", "f", "ILjava/lang/String;"),
        "Java_pkg_Cls_f__ILjava_lang_String_2"
    );
}

#[test]
fn symbol_name_keeps_double_underscore_without_args() {
    assert_eq!(&symbol_name("a/B", "run", ""), "Java_a_B_run__");
    assert_eq!(
        &get_symbol_name("com/example/Test", "test_m", &MethodSignature::from_utf8("()V")),
        "Java_com_example_Test_test_1m__"
    );
}

#[test]
fn symbol_name_with_array_args() {
    assert_eq!(
        &get_symbol_name("p/Q", "g", &MethodSignature::from_utf8("([I[[Ljava/lang/Object;)I")),
        "Java_p_Q_g___3I_3_3Ljava_lang_Object_2"
    );
}
