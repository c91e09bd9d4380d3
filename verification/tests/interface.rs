use com_macros_support::interface::expand_interfacess;
use com_macros_support::interface::iid::{ident, IidError, IID};
use com_macros_support::interface::interface::{
    interface_attributes, needs_parent, require_iid, ArgSyntax, AttrSyntax, Interface,
    InterfaceAttribute, InterfaceError, InterfaceMethod, InterfaceMethodArg, MethodSyntax,
    TypeKind,
};
use com_macros_support::interface::interfaces::{ConvertImpl, Interfaces};
use com_macros_support::interface::vtable::{self, RawParam};
use com_macros_support::interface::vptr;
use com_macros_support::path::{PathModel, Segment};

fn path(text: &str) -> PathModel {
    let segments = text
        .split("::")
        .map(|s| Segment { ident: s.to_string(), has_arguments: false })
        .collect();
    PathModel { text: text.to_string(), leading_colon: false, segments }
}

const IANIMAL: &str = "EFF8970E-C50F-45E0-9284-291CE5A6F771";

fn iid(s: &str) -> IID {
    IID::parse(s).unwrap()
}

fn arg(kind: TypeKind, pass_through: bool) -> InterfaceMethodArg<String> {
    InterfaceMethodArg { ty: "T".to_string(), pat: "x".to_string(), pass_through, ty_kind: kind }
}

fn method(name: &str, args: Vec<InterfaceMethodArg<String>>) -> InterfaceMethod<String> {
    InterfaceMethod {
        name: name.to_string(),
        visibility: String::new(),
        args,
        ret: "-> HRESULT".to_string(),
        docs: vec![],
    }
}

fn interface(name: &str, parent: Option<&str>, methods: Vec<InterfaceMethod<String>>) -> Interface<String> {
    Interface {
        iid: iid(IANIMAL),
        visibility: "pub".to_string(),
        name: name.to_string(),
        parent: parent.map(path),
        methods,
        docs: vec![],
    }
}

fn syntax(name: &str) -> MethodSyntax<String> {
    MethodSyntax {
        attrs: vec![],
        visibility: String::new(),
        name: name.to_string(),
        has_default: false,
        has_abi: false,
        has_async: false,
        has_generics: false,
        has_const: false,
        has_receiver: true,
        has_variadic: false,
        args: vec![],
        ret: String::new(),
    }
}

#[test]
fn iid_parse_ok() {
    let i = iid(IANIMAL);
    assert_eq!(i.parts[0], "EFF8970E");
    assert_eq!(i.parts[1], "C50F");
    assert_eq!(i.parts[2], "45E0");
    assert_eq!(i.parts[3], "9284");
    assert_eq!(i.parts[4], "291CE5A6F771");
}

#[test]
fn iid_parse_errors() {
    match IID::parse("00000000-0000-0000") {
        Err(e) => {
            assert!(matches!(e, IidError::MissingPart { index: 3 }));
            assert_eq!(e.message(), "The IID missing part at index 3");
        }
        Ok(_) => panic!("expected an error"),
    }
    match IID::parse("0000000-0000-0000-C000-000000000046") {
        Err(e) => {
            assert!(matches!(e, IidError::WrongLength { index: 0, expected: 8, actual: 7 }));
            assert_eq!(e.message(), "The IID part at index 0 must be 8 characters long but was 7 characters");
        }
        Ok(_) => panic!("expected an error"),
    }
    match IID::parse("00000000-0000-0000-C000-000000000046-1") {
        Ok(i) => assert_eq!(i.parts[4], "000000000046"),
        Err(e) => panic!("unexpected: {:?}", e),
    }
    // Lengths are counted in bytes: 'é' takes two.
    match IID::parse("0000000é-0000-0000-C000-000000000046") {
        Err(e) => assert!(matches!(e, IidError::WrongLength { index: 0, expected: 8, actual: 9 })),
        Ok(_) => panic!("expected an error"),
    }
}

#[test]
fn iid_constant() {
    let c = iid(IANIMAL).to_tokens("IAnimal").unwrap();
    assert_eq!(c.ident, "IID_IANIMAL");
    assert_eq!(c.data1, "0xEFF8970E");
    assert_eq!(c.data2, "0xC50F");
    assert_eq!(c.data3, "0x45E0");
    assert_eq!(
        c.data4,
        vec!["0x92", "0x84", "0x29", "0x1C", "0xE5", "0xA6", "0xF7", "0x71"]
    );
    assert_eq!(ident("IClassFactory"), "IID_ICLASS_FACTORY");
    assert_eq!(ident("IAnimalVTable"), "IID_IANIMAL_VTABLE");
}

#[test]
fn iid_constant_not_on_boundary() {
    // 4 bytes, but byte 2 falls inside 'é'.
    let i = IID::parse("00000000-0000-0000-aé0-000000000046").unwrap();
    assert!(i.to_tokens("IFoo").is_none());
}

#[test]
fn attributes_of_interface() {
    let attrs = vec![
        InterfaceAttribute { path: path("doc"), uuid: Err::<String, ()>(()), item: "doc1".to_string() },
        InterfaceAttribute { path: path("uuid"), uuid: Ok(IANIMAL.to_string()), item: "u".to_string() },
    ];
    let a = interface_attributes(attrs).unwrap();
    assert_eq!(a.docs, vec!["doc1".to_string()]);
    assert_eq!(a.iid.unwrap().parts[0], "EFF8970E");

    let attrs = vec![
        InterfaceAttribute { path: path("doc"), uuid: Err::<String, ()>(()), item: String::new() },
        InterfaceAttribute { path: path("bogus"), uuid: Err(()), item: String::new() },
    ];
    match interface_attributes(attrs) {
        Err(e) => {
            assert!(matches!(e, InterfaceError::UnrecognizedAttribute { index: 1, .. }));
            assert_eq!(e.message().unwrap(), "Unrecognized attribute 'bogus'");
        }
        Ok(_) => panic!("expected an error"),
    }

    let attrs = vec![InterfaceAttribute { path: path("uuid"), uuid: Ok("1-2".to_string()), item: String::new() }];
    match interface_attributes::<String, ()>(attrs) {
        Err(InterfaceError::Iid { index: 0, error }) => {
            assert_eq!(error.message(), "The IID part at index 0 must be 8 characters long but was 1 characters");
        }
        other => panic!("unexpected: {:?}", other),
    }

    let attrs = vec![InterfaceAttribute { path: path("uuid"), uuid: Err::<String, &str>("uuids must be string literals"), item: String::new() }];
    match interface_attributes(attrs) {
        Err(e) => {
            assert!(matches!(e, InterfaceError::Syntax("uuids must be string literals")));
            assert!(e.message().is_none());
        }
        Ok(_) => panic!("expected an error"),
    }
}

#[test]
fn uuid_and_parent_required() {
    match require_iid::<()>(None) {
        Err(e) => assert_eq!(e.message().unwrap(), "Interfaces must have a '#[uuid(\"$IID\")]' attribute"),
        Ok(_) => panic!("expected an error"),
    }
    assert!(require_iid::<()>(Some(iid(IANIMAL))).is_ok());
    assert!(!needs_parent("IUnknown"));
    assert!(needs_parent("IAnimal"));
    let e: InterfaceError<()> = InterfaceError::MissingParent { name: "IAnimal".to_string() };
    assert_eq!(
        e.message().unwrap(),
        "Interfaces must inherit from another interface like so: `interface IAnimal: IParentInterface`"
    );
    assert!(interface("IUnknown", None, vec![]).is_iunknown());
    assert!(!interface("IAnimal", Some("IUnknown"), vec![]).is_iunknown());
}

#[test]
fn method_checks() {
    let ok = InterfaceMethod::<String>::from_syntax::<()>(syntax("Eat")).unwrap();
    assert_eq!(ok.name, "Eat");
    assert!(ok.args.is_empty());

    let mut m = syntax("Eat");
    m.attrs = vec![
        AttrSyntax { path: path("doc"), item: "d".to_string() },
        AttrSyntax { path: path("inline"), item: "i".to_string() },
    ];
    match InterfaceMethod::<String>::from_syntax::<()>(m) {
        Err(e) => {
            assert!(matches!(e, InterfaceError::UnexpectedAttribute { index: 1 }));
            assert_eq!(e.message().unwrap(), "unexpected attribute");
        }
        Ok(_) => panic!("expected an error"),
    }

    let mut m = syntax("Eat");
    m.has_default = true;
    m.has_receiver = false;
    let e = InterfaceMethod::<String>::from_syntax::<()>(m).unwrap_err();
    assert_eq!(e.message().unwrap(), "unexpected default method implementation");

    let mut m = syntax("Eat");
    m.has_receiver = false;
    let e = InterfaceMethod::<String>::from_syntax::<()>(m).unwrap_err();
    assert_eq!(e.message().unwrap(), "expected the method to have &self as its first argument");

    for (field, msg) in [
        ("abi", "unexpected abi declaration"),
        ("async", "unexpected async declaration"),
        ("generics", "unexpected generics declaration"),
        ("const", "unexpected const declaration"),
        ("variadic", "unexpected variadic args"),
    ] {
        let mut m = syntax("Eat");
        match field {
            "abi" => m.has_abi = true,
            "async" => m.has_async = true,
            "generics" => m.has_generics = true,
            "const" => m.has_const = true,
            _ => m.has_variadic = true,
        }
        let e = InterfaceMethod::<String>::from_syntax::<()>(m).unwrap_err();
        assert_eq!(e.message().unwrap(), msg);
    }
}

#[test]
fn method_args_and_pass_through() {
    let mut m = syntax("Set");
    m.args = vec![
        ArgSyntax { attr_paths: vec![], ty: "u32".to_string(), pat: "a".to_string(), ty_kind: TypeKind::Path },
        ArgSyntax { attr_paths: vec![path("pass_through")], ty: "*mut u8".to_string(), pat: "b".to_string(), ty_kind: TypeKind::Ptr },
    ];
    let ok = InterfaceMethod::<String>::from_syntax::<()>(m).unwrap();
    assert_eq!(ok.args.len(), 2);
    assert!(!ok.args[0].pass_through);
    assert!(ok.args[1].pass_through);
    assert_eq!(ok.args[1].pat, "b");

    let mut m = syntax("Set");
    m.args = vec![
        ArgSyntax { attr_paths: vec![], ty: "u32".to_string(), pat: "a".to_string(), ty_kind: TypeKind::Path },
        ArgSyntax {
            attr_paths: vec![path("pass_through"), path("doc"), path("pass_through")],
            ty: "u32".to_string(),
            pat: "b".to_string(),
            ty_kind: TypeKind::Path,
        },
    ];
    match InterfaceMethod::<String>::from_syntax::<()>(m) {
        Err(e) => {
            assert!(matches!(e, InterfaceError::UnexpectedArgAttribute { arg: 1, attr: 2 }));
            assert_eq!(e.message().unwrap(), "unexpected function attribute");
        }
        Ok(_) => panic!("expected an error"),
    }
}

#[test]
fn method_wrapper() {
    let m = method("get_value", vec![arg(TypeKind::Path, false), arg(TypeKind::Ptr, true), arg(TypeKind::Path, false)]);
    let w = m.wrapper();
    assert_eq!(w.inner_ident, "GetValue");
    assert!(w.lifetime);
    assert_eq!(w.generics, vec![Some("__0".to_string()), None, Some("__2".to_string())]);
    let w = method("AddRef", vec![]).wrapper();
    assert!(!w.lifetime);
    assert!(w.generics.is_empty());
}

#[test]
fn vtable_layout() {
    let i = interface(
        "IAnimal",
        Some("IUnknown"),
        vec![
            method("Eat", vec![]),
            method("set_food", vec![arg(TypeKind::Path, false), arg(TypeKind::Ptr, true)]),
        ],
    );
    let t = vtable::generate(&i).unwrap();
    assert_eq!(t.ident, "IAnimalVTable");
    assert_eq!(t.vptr_ident, "IAnimalVPtr");
    assert!(t.has_parent);
    assert_eq!(t.methods.len(), 2);
    assert_eq!(t.methods[0].field, "Eat");
    assert!(t.methods[0].params.is_empty());
    assert_eq!(t.methods[1].field, "SetFood");
    assert_eq!(t.methods[1].params, vec![RawParam::Abi, RawParam::Plain]);
    assert_eq!(vtable::ident("IUnknown"), "IUnknownVTable");
    assert_eq!(vptr::ident("IUnknown"), "IUnknownVPtr");
    let a = vptr::generate(&i);
    assert_eq!(a.ident, "IAnimalVPtr");
    assert_eq!(a.vtable_ident, "IAnimalVTable");
}

#[test]
fn vtable_rejects_argument_kinds() {
    let kinds = [
        (TypeKind::Array, "array type"),
        (TypeKind::BareFn, "barefn type"),
        (TypeKind::Group, "group type"),
        (TypeKind::ImplTrait, "implTrait type"),
        (TypeKind::Infer, "infer type"),
        (TypeKind::Macro, "typeMacro type"),
        (TypeKind::Never, "typeNever type"),
        (TypeKind::Paren, "paren type"),
        (TypeKind::Reference, "reference type"),
        (TypeKind::Slice, "slice type"),
        (TypeKind::TraitObject, "traitObject type"),
        (TypeKind::Tuple, "tuple type"),
        (TypeKind::Verbatim, "verbatim type"),
        (TypeKind::Other, "other type"),
    ];
    for (kind, name) in kinds {
        let i = interface(
            "IFoo",
            Some("IUnknown"),
            vec![
                method("a", vec![arg(TypeKind::Path, false)]),
                method("b", vec![arg(TypeKind::Ptr, false), arg(kind, false), arg(TypeKind::Tuple, false)]),
            ],
        );
        let e = vtable::generate(&i).unwrap_err();
        assert_eq!(e.method, 1);
        assert_eq!(e.arg, 1);
        assert_eq!(e.message, format!("unexpected argument type: {}", name));
    }
}

#[test]
fn interfaces_parents() {
    let mut all = Interfaces::new();
    all.push(interface("IUnknown", None, vec![]));
    all.push(interface("IAnimal", Some("IUnknown"), vec![]));
    all.push(interface("ICat", Some("IAnimal"), vec![]));
    assert_eq!(all.inner.len(), 3);
    assert_eq!(all.parents, vec![1, 2]);
    assert_eq!(all.lookup("ICat"), Some(2));
    assert_eq!(all.lookup("IUnknown"), None);
    // A later declaration of a name takes its entry.
    all.push(interface("IAnimal", Some("other::IUnknown"), vec![]));
    assert_eq!(all.parents, vec![3, 2]);
    assert_eq!(all.lookup("IAnimal"), Some(3));
}

#[test]
fn conversions_follow_chains() {
    let mut all = Interfaces::new();
    all.push(interface("IUnknown", None, vec![]));
    all.push(interface("IAnimal", Some("IUnknown"), vec![]));
    all.push(interface("ICat", Some("IAnimal"), vec![]));
    all.push(interface("IExt", Some("crate::IOther"), vec![]));
    let c = all.convert_impls().unwrap();
    assert_eq!(
        c,
        vec![
            ConvertImpl { interface: 1, parent: 1 },
            ConvertImpl { interface: 2, parent: 2 },
            ConvertImpl { interface: 2, parent: 1 },
            ConvertImpl { interface: 3, parent: 3 },
        ]
    );
}

#[test]
fn conversions_cycle() {
    let mut all = Interfaces::new();
    all.push(interface("IA", Some("IB"), vec![]));
    all.push(interface("IB", Some("IA"), vec![]));
    assert!(all.convert_impls().is_none());
    let e = expand_interfacess(&all);
    assert!(e.converts.is_none());
    assert_eq!(e.vtables.len(), 2);
}

#[test]
fn expansion() {
    let mut all = Interfaces::new();
    all.push(interface("IUnknown", None, vec![method("AddRef", vec![])]));
    all.push(interface("IBad", Some("IUnknown"), vec![method("f", vec![arg(TypeKind::Reference, false)])]));
    let e = expand_interfacess(&all);
    assert_eq!(e.vtables.len(), 2);
    assert_eq!(e.vtables[0].as_ref().unwrap().methods[0].field, "AddRef");
    assert!(!e.vtables[0].as_ref().unwrap().has_parent);
    assert_eq!(e.vtables[1].as_ref().unwrap_err().message, "unexpected argument type: reference type");
    assert_eq!(e.converts.unwrap(), vec![ConvertImpl { interface: 1, parent: 1 }]);
}
