use jnisupport::jni_export::{jni_export_impl, AttrArg, ExportError, NativeType};

fn named(k: &str, v: &str) -> AttrArg {
    AttrArg::NameValue(k.to_string(), v.to_string())
}

fn lit(v: &str) -> AttrArg {
    AttrArg::Literal(v.to_string())
}

#[test]
fn named_form_generates_stub() {
    let params = Some(vec![
        named("class", "com.example.Test"),
        named("name", "testMethod1"),
        named("sig", "(I)I"),
    ]);
    let stub = jni_export_impl("test_method_1", &params).unwrap();
    assert_eq!(stub.symbol, "Java_com_example_Test_testMethod1__I");
    assert_eq!(stub.target, "test_method_1");
    assert_eq!(stub.params, vec![NativeType::Env, NativeType::ClassHandle, NativeType::Int]);
    assert_eq!(stub.ret, Some(NativeType::Int));
}

#[test]
fn positional_form_generates_stub() {
    let params = Some(vec![lit("com.example.Test.testMethod2"), lit("(I)I")]);
    let stub = jni_export_impl("test_method_2", &params).unwrap();
    assert_eq!(stub.symbol, "Java_com_example_Test_testMethod2__I");
    assert_eq!(stub.target, "test_method_2");
    assert_eq!(stub.params, vec![NativeType::Env, NativeType::ClassHandle, NativeType::Int]);
    assert_eq!(stub.ret, Some(NativeType::Int));
}

#[test]
fn stub_maps_every_argument_in_order() {
    let params = Some(vec![
        named("sig", "(ZBCSJFDLjava/lang/String;Ljava/lang/Object;[I)V"),
        named("class", "a/B"),
        named("name", "all"),
    ]);
    let stub = jni_export_impl("all", &params).unwrap();
    assert_eq!(
        stub.params,
        vec![
            NativeType::Env,
            NativeType::ClassHandle,
            NativeType::Boolean,
            NativeType::Byte,
            NativeType::Char,
            NativeType::Short,
            NativeType::Long,
            NativeType::Float,
            NativeType::Double,
            NativeType::Str,
            NativeType::Object,
            NativeType::Array,
        ]
    );
    assert_eq!(stub.params.len(), 2 + 10);
    assert_eq!(stub.ret, None);
    assert_eq!(
        stub.symbol,
        "Java_a_B_all__ZBCSJFDLjava_lang_String_2Ljava_lang_Object_2_3I"
    );
}

#[test]
fn stub_returns_object_handles() {
    let params = Some(vec![lit("p.Q.f"), lit("()Ljava/lang/String;")]);
    let stub = jni_export_impl("f", &params).unwrap();
    assert_eq!(stub.params, vec![NativeType::Env, NativeType::ClassHandle]);
    assert_eq!(stub.ret, Some(NativeType::Str));
    let params = Some(vec![lit("p.Q.f"), lit("()[D")]);
    assert_eq!(jni_export_impl("f", &params).unwrap().ret, Some(NativeType::Array));
}

#[test]
fn later_named_value_wins() {
    let params = Some(vec![
        named("class", "a.B"),
        named("name", "x"),
        named("name", "y"),
        named("sig", "()"),
    ]);
    let stub = jni_export_impl("f", &params).unwrap();
    assert_eq!(stub.symbol, "Java_a_B_y__");
}

#[test]
fn usage_errors() {
    assert_eq!(jni_export_impl("f", &None).err(), Some(ExportError::Usage));
    assert_eq!(jni_export_impl("f", &Some(vec![])).err(), Some(ExportError::Usage));
    let missing = Some(vec![named("class", "a.B"), named("name", "x")]);
    assert_eq!(jni_export_impl("f", &missing).err(), Some(ExportError::Usage));
    let unknown = Some(vec![named("klass", "a.B"), named("name", "x"), named("sig", "()")]);
    assert_eq!(jni_export_impl("f", &unknown).err(), Some(ExportError::Usage));
    let mixed = Some(vec![named("class", "a.B"), lit("()")]);
    assert_eq!(jni_export_impl("f", &mixed).err(), Some(ExportError::Usage));
    let mixed = Some(vec![lit("a.B.c"), named("sig", "()")]);
    assert_eq!(jni_export_impl("f", &mixed).err(), Some(ExportError::Usage));
    let extra = Some(vec![lit("a.B.c"), lit("()"), lit("()")]);
    assert_eq!(jni_export_impl("f", &extra).err(), Some(ExportError::Usage));
    let other = Some(vec![AttrArg::Other]);
    assert_eq!(jni_export_impl("f", &other).err(), Some(ExportError::Usage));
}

#[test]
fn method_path_error() {
    let params = Some(vec![lit("nodots"), lit("()")]);
    assert_eq!(jni_export_impl("f", &params).err(), Some(ExportError::MethodPath));
}

#[test]
fn descriptor_error() {
    let params = Some(vec![lit("a.B.c"), lit("(I)I;")]);
    assert_eq!(jni_export_impl("f", &params).err(), Some(ExportError::Descriptor));
    let params = Some(vec![named("class", "a.B"), named("name", "c"), named("sig", "(La/B)")]);
    assert_eq!(jni_export_impl("f", &params).err(), Some(ExportError::Descriptor));
}

#[test]
fn native_type_paths() {
    assert_eq!(NativeType::Env.path(), "::jni::JNIEnv");
    assert_eq!(NativeType::ClassHandle.path(), "::jni::objects::JClass");
    assert_eq!(NativeType::Int.path(), "::jni::sys::jint");
    assert_eq!(NativeType::Str.path(), "::jni::objects::JString");
    assert_eq!(NativeType::Object.path(), "::jni::objects::JObject");
    assert_eq!(NativeType::Array.path(), "::jni::sys::jarray");
}
