use jnisupport::signature::JavaTy::{Array, Boolean, Byte, Char, Class, Double, Float, Int, Long, Short};
use jnisupport::signature::{parse_type, JavaTy, MethodSignature};

#[test]
fn test_signature_parse() {
    assert_eq!(MethodSignature::from_utf8("()"), MethodSignature::new(vec![], None));
    assert_eq!(MethodSignature::from_utf8("()I"), MethodSignature::new(vec![], Some(Int)));
    assert_eq!(MethodSignature::from_utf8("(I)"), MethodSignature::new(vec![Int], None));
    assert_eq!(
        MethodSignature::from_utf8("(ILjava/lang/String;[I)J"),
        MethodSignature::new(
            vec![Int, Class("java/lang/String".to_string()), Array("I".to_string())],
            Some(Long)
        )
    );
}

#[test]
fn test_parser() {
    assert_eq!(parse_type("Z"), Some((Boolean, "")));
    assert_eq!(parse_type("B"), Some((Byte, "")));
    assert_eq!(parse_type("C"), Some((Char, "")));
    assert_eq!(parse_type("S"), Some((Short, "")));
    assert_eq!(parse_type("I"), Some((Int, "")));
    assert_eq!(parse_type("J"), Some((Long, "")));
    assert_eq!(parse_type("F"), Some((Float, "")));
    assert_eq!(parse_type("D"), Some((Double, "")));

    assert_eq!(
        parse_type("Ljava/lang/String;"),
        Some((Class("java/lang/String".to_string()), ""))
    );

    assert_eq!(parse_type("[I"), Some((Array("I".to_string()), "")));
    assert_eq!(parse_type("[[I"), Some((Array("[I".to_string()), "")));
    assert_eq!(parse_type("[[[I"), Some((Array("[[I".to_string()), "")));
    assert_eq!(
        parse_type("[[[Ljava/lang/String;"),
        Some((Array("[[Ljava/lang/String;".to_string()), ""))
    );

    let empty: &[JavaTy] = &[];
    assert_eq!(MethodSignature::from_utf8("()").args(), empty);
    assert_eq!(
        MethodSignature::from_utf8("(IIILjava/lang/String;Z)").args(),
        &[Int, Int, Int, Class("java/lang/String".to_string()), Boolean][..]
    );
}

#[test]
fn parse_type_leaves_the_rest() {
    assert_eq!(parse_type("IJ"), Some((Int, "J")));
    assert_eq!(parse_type("La/B;I)"), Some((Class("a/B".to_string()), "I)")));
    assert_eq!(parse_type("[La/B;;"), Some((Array("La/B;".to_string()), ";")));
}

#[test]
fn parse_type_rejects() {
    assert_eq!(parse_type(""), None);
    assert_eq!(parse_type("V"), None);
    assert_eq!(parse_type("X"), None);
    assert_eq!(parse_type("Ljava/lang/String"), None);
    assert_eq!(parse_type("L;"), None);
    assert_eq!(parse_type("["), None);
    assert_eq!(parse_type("[[Q"), None);
}

#[test]
fn type_round_trip() {
    let types = vec![
        Boolean,
        Byte,
        Char,
        Short,
        Int,
        Long,
        Float,
        Double,
        Class("java/lang/String".to_string()),
        Class("a/b/C$D".to_string()),
        Array("I".to_string()),
        Array("[[Ljava/lang/Object;".to_string()),
    ];
    for t in types {
        let text = t.to_str();
        assert_eq!(parse_type(&text), Some((t.clone(), "")));
    }
}

#[test]
fn to_str_texts() {
    assert_eq!(Int.to_str(), "I");
    assert_eq!(Class("a/B".to_string()).to_str(), "La/B;");
    assert_eq!(Array("[J".to_string()).to_str(), "[[J");
}

#[test]
fn parse_method_examples() {
    let m = MethodSignature::parse_method("()").unwrap();
    assert!(m.args().is_empty());
    assert_eq!(m.ret(), None);

    let m = MethodSignature::parse_method("()I").unwrap();
    assert!(m.args().is_empty());
    assert_eq!(m.ret(), Some(&Int));

    let m = MethodSignature::parse_method("(I)").unwrap();
    assert_eq!(m.args(), &[Int][..]);
    assert_eq!(m.ret(), None);

    let m = MethodSignature::parse_method("(ILjava/lang/String;[I)J").unwrap();
    assert_eq!(
        m.args(),
        &[Int, Class("java/lang/String".to_string()), Array("I".to_string())][..]
    );
    assert_eq!(m.ret(), Some(&Long));
}

#[test]
fn parse_method_void_marker() {
    let m = MethodSignature::parse_method("(I)V").unwrap();
    assert_eq!(m.args(), &[Int][..]);
    assert_eq!(m.ret(), None);
}

#[test]
fn parse_method_rejects_malformed() {
    assert_eq!(MethodSignature::parse_method(""), None);
    assert_eq!(MethodSignature::parse_method("I"), None);
    assert_eq!(MethodSignature::parse_method("("), None);
    assert_eq!(MethodSignature::parse_method("(I"), None);
    assert_eq!(MethodSignature::parse_method("()II"), None);
    assert_eq!(MethodSignature::parse_method("(I)Ix"), None);
    assert_eq!(MethodSignature::parse_method("()VV"), None);
    assert_eq!(MethodSignature::parse_method("()V;"), None);
    assert_eq!(MethodSignature::parse_method("(Ljava/lang/String)V"), None);
    assert_eq!(MethodSignature::parse_method("()Ljava/lang/String"), None);
    assert_eq!(MethodSignature::parse_method("(X)"), None);
}

#[test]
fn args_string_joins_descriptors() {
    let m = MethodSignature::from_utf8("(ILjava/lang/String;[I)J");
    assert_eq!(m.args_string(), "ILjava/lang/String;[I");
    assert_eq!(MethodSignature::from_utf8("()D").args_string(), "");
}
