use com_macros_support::class::class::{Class, Field, Interface, StructField};
use com_macros_support::class::collisions::{
    collision_counter, find_method_name_collisions, renaming_is_defined,
};
use com_macros_support::class::parse::{
    push_interface, AttrMeta, ClassAttribute, ClassError, ClassParser, ImplItem, NestedMeta,
};
use com_macros_support::path::{path_to_single_string, PathModel, Segment};

/// An attribute as the tests write it: its path and its tokens.
#[derive(Debug, Clone, PartialEq)]
struct Attr {
    path: String,
    tokens: String,
}

fn path(text: &str) -> PathModel {
    let segments = text
        .split("::")
        .map(|s| Segment { ident: s.to_string(), has_arguments: false })
        .collect();
    PathModel { text: text.to_string(), leading_colon: false, segments }
}

fn doc(tokens: &str) -> ClassAttribute<Attr> {
    ClassAttribute {
        path: path("doc"),
        meta: AttrMeta::Other,
        item: Attr { path: "doc".to_string(), tokens: tokens.to_string() },
    }
}

fn bare(name: &str) -> ClassAttribute<Attr> {
    ClassAttribute {
        path: path(name),
        meta: AttrMeta::Other,
        item: Attr { path: name.to_string(), tokens: String::new() },
    }
}

fn derive(names: &[&str]) -> ClassAttribute<Attr> {
    ClassAttribute {
        path: path("derive"),
        meta: AttrMeta::List(names.iter().map(|n| NestedMeta::Path(path(n))).collect()),
        item: Attr { path: "derive".to_string(), tokens: format!("({})", names.join(", ")) },
    }
}

fn method(name: &str) -> ImplItem<Attr> {
    ImplItem::Method {
        ident: name.to_string(),
        item: Attr { path: String::new(), tokens: format!("fn {}(&self) {{}}", name) },
    }
}

/// One item of a `class!` invocation, already read.
enum Item {
    Class {
        attrs: Vec<ClassAttribute<Attr>>,
        name: &'static str,
        chains: Vec<Vec<&'static str>>,
        fields: Vec<&'static str>,
    },
    Impl {
        attrs: Vec<ClassAttribute<Attr>>,
        interface: Option<&'static str>,
        items: Vec<ImplItem<Attr>>,
    },
}

fn class_item(attrs: Vec<ClassAttribute<Attr>>, name: &'static str, chains: Vec<Vec<&'static str>>) -> Item {
    Item::Class { attrs, name, chains, fields: vec![] }
}

fn impl_item(interface: &'static str, items: Vec<ImplItem<Attr>>) -> Item {
    Item::Impl { attrs: vec![], interface: Some(interface), items }
}

/// Reads the items in order, as the macro does, and finishes the class.
fn parse(items: Vec<Item>) -> Result<Class<Attr>, ClassError> {
    let mut parser = ClassParser::new();
    for item in items {
        match item {
            Item::Class { attrs, name, chains, fields } => {
                let attrs = parser.attributes(attrs)?;
                let mut interfaces: Vec<Interface> = Vec::new();
                for chain in chains {
                    push_interface(&mut interfaces, path(chain[0]))?;
                    let last = interfaces.last_mut().unwrap();
                    for (depth, parent) in chain[1..].iter().enumerate() {
                        last.set_parent_at(depth, path(parent));
                    }
                }
                let fields = fields
                    .iter()
                    .map(|f| Field {
                        ident: f.to_string(),
                        item: Attr { path: String::new(), tokens: format!("{}: u32", f) },
                    })
                    .collect();
                let vis = Attr { path: String::new(), tokens: "pub".to_string() };
                parser.class_declared(
                    name.to_string(),
                    attrs.has_class_factory,
                    attrs.docs,
                    vis,
                    interfaces,
                    fields,
                );
            }
            Item::Impl { attrs, interface, items } => {
                parser.attributes(attrs)?;
                parser.add_impl(interface.map(path), items)?;
            }
        }
    }
    assert!(parser.renaming_possible());
    parser.finish_renamed()
}

fn parse_class_ok(items: Vec<Item>) -> Class<Attr> {
    match parse(items) {
        Ok(class) => {
            // What the expansion is built from can be computed for every
            // class that is accepted.
            let _ = class.interface_from_impls();
            let _ = class.factory();
            let _ = class.debug();
            for (index, interface) in class.interfaces.iter().enumerate() {
                let _ = interface.chain_ident(index);
                let _ = interface.vtable_static_item_ident(&class);
                for p in interface.iter_chain() {
                    assert!(class.methods_for(&p).is_some());
                }
                let _ = class.initialized_vtables(interface);
            }
            class
        }
        Err(e) => panic!("Expected class definition to parse successfully. Error: {:?}", e),
    }
}

fn parse_class_err(items: Vec<Item>, expected_error: &str) {
    assert!(!expected_error.is_empty());
    match parse(items) {
        Ok(_) => panic!("Expected class definition to fail to parse."),
        Err(e) => {
            let e_string = e.message();
            if !e_string.contains(expected_error) {
                panic!(
                    "Did not find expected error string.\nActual error: {:?}\nExpected error: {:?}",
                    e_string, expected_error
                );
            }
        }
    }
}

#[test]
fn docs() {
    let class = parse_class_ok(vec![
        class_item(
            vec![doc("= r\" Something interesting.\""), doc("= \"And another thing!\"")],
            "Simple",
            vec![vec!["IFoo"]],
        ),
        impl_item("IFoo", vec![]),
    ]);
    assert_eq!(class.docs.len(), 2);
    for attr in class.docs.iter() {
        assert!(attr.path == "doc");
    }
    assert_eq!(class.docs[0].tokens, "= r\" Something interesting.\"");
    assert_eq!(class.docs[1].tokens, "= \"And another thing!\"");
}

#[test]
fn no_factory() {
    let class = parse_class_ok(vec![
        class_item(vec![bare("no_class_factory")], "Simple", vec![vec!["IFoo"]]),
        impl_item("IFoo", vec![]),
    ]);
    assert!(!class.has_class_factory);
}

#[test]
fn has_factory() {
    let class = parse_class_ok(vec![
        class_item(vec![], "Simple", vec![vec!["IFoo"]]),
        impl_item("IFoo", vec![]),
    ]);
    assert!(class.has_class_factory);
}

#[test]
fn class_name() {
    let class = parse_class_ok(vec![
        class_item(vec![], "Simple", vec![vec!["IFoo"]]),
        impl_item("IFoo", vec![]),
    ]);
    assert!(class.name == "Simple");
}

#[test]
fn interface_list() {
    let class = parse_class_ok(vec![
        class_item(vec![], "Simple", vec![vec!["IFoo", "IZap"], vec!["IBar"]]),
        impl_item("IFoo", vec![]),
        impl_item("IBar", vec![]),
        impl_item("IZap", vec![]),
    ]);
    assert_eq!(class.interfaces.len(), 2);
    let interface0 = &class.interfaces[0];
    assert!(interface0.path.is_ident("IFoo"));
    assert!(interface0.parent.is_some());
    assert!(interface0.parent.as_ref().unwrap().path.is_ident("IZap"));
    let interface1 = &class.interfaces[1];
    assert!(interface1.path.is_ident("IBar"));
    assert!(interface1.parent.is_none());
}

#[test]
fn err_no_impl() {
    parse_class_err(
        vec![class_item(vec![], "Simple", vec![vec!["IFoo"]])],
        "impl for interface is missing",
    );
}

#[test]
fn err_missing_indirect_impl() {
    parse_class_err(
        vec![
            class_item(vec![], "Simple", vec![vec!["IFoo", "IBar"]]),
            impl_item("IFoo", vec![]),
        ],
        "impl for interface is missing",
    );
}

#[test]
fn err_impl() {
    parse_class_err(
        vec![
            class_item(vec![], "Simple", vec![vec!["IFoo"]]),
            Item::Impl { attrs: vec![], interface: None, items: vec![] },
        ],
        "Impl must be for an interface",
    );
}

#[test]
fn err_unrecognized_attribute() {
    parse_class_err(
        vec![
            class_item(vec![bare("bogus")], "Simple", vec![vec!["IFoo"]]),
            impl_item("IFoo", vec![method("zap")]),
        ],
        "Unrecognized attribute",
    );
}

#[test]
fn derive_debug() {
    let class = parse_class_ok(vec![
        class_item(vec![derive(&["Debug"])], "Simple", vec![vec!["IFoo"]]),
        impl_item("IFoo", vec![]),
    ]);
    assert!(class.impl_debug);
}

#[test]
fn no_derive_debug() {
    let class = parse_class_ok(vec![
        class_item(vec![], "Simple", vec![vec!["IFoo"]]),
        impl_item("IFoo", vec![]),
    ]);
    assert!(!class.impl_debug);
}

#[test]
fn err_derive_unrecognized() {
    parse_class_err(
        vec![
            class_item(vec![derive(&["Unknown"])], "Simple", vec![vec!["IFoo"]]),
            impl_item("IFoo", vec![]),
        ],
        "Unrecognized derive attribute",
    );
}

#[test]
fn from_impls() {
    let _class = parse_class_ok(vec![
        class_item(vec![], "Server", vec![vec!["IBar", "IFoo"], vec!["IZap", "IFoo"]]),
        impl_item("IFoo", vec![]),
        impl_item("IBar", vec![]),
        impl_item("IZap", vec![]),
    ]);
}

// Further cases.

#[test]
fn from_impls_one_per_interface() {
    let class = parse_class_ok(vec![
        class_item(vec![], "Server", vec![vec!["IBar", "IFoo"], vec!["IZap", "IFoo"]]),
        impl_item("IFoo", vec![]),
        impl_item("IBar", vec![]),
        impl_item("IZap", vec![]),
    ]);
    let impls = class.interface_from_impls();
    let got: Vec<(String, String)> = impls
        .iter()
        .map(|f| (f.interface.text.clone(), f.chain_ident.clone()))
        .collect();
    assert_eq!(
        got,
        vec![
            ("IBar".to_string(), "__0_IBar".to_string()),
            ("IFoo".to_string(), "__0_IBar".to_string()),
            ("IZap".to_string(), "__1_IZap".to_string()),
        ]
    );
}

#[test]
fn chain_and_vtable_names() {
    let class = parse_class_ok(vec![
        class_item(vec![], "Server", vec![vec!["IBar", "IFoo"], vec!["other::IZap"]]),
        impl_item("IFoo", vec![]),
        impl_item("IBar", vec![]),
        impl_item("other::IZap", vec![]),
    ]);
    assert_eq!(class.interfaces[1].chain_ident(1), "__1_IZap");
    assert_eq!(class.interfaces[1].vtable_ident(), "IZapVTable");
    assert_eq!(class.interfaces[0].vtable_static_item_ident(&class), "Server__IBar_VTABLE");
    let chain: Vec<String> = class.interfaces[0].iter_chain().iter().map(|p| p.text.clone()).collect();
    assert_eq!(chain, vec!["IBar".to_string(), "IFoo".to_string()]);
    assert_eq!(class.factory(), Some("ServerClassFactory".to_string()));
}

#[test]
fn debug_fields() {
    let class = parse(vec![
        Item::Class {
            attrs: vec![derive(&["Debug"])],
            name: "Counter",
            chains: vec![vec!["IFoo"]],
            fields: vec!["count", "limit"],
        },
        impl_item("IFoo", vec![]),
    ])
    .unwrap();
    assert_eq!(class.debug(), Some(vec!["count".to_string(), "limit".to_string()]));
    let plain = parse(vec![class_item(vec![], "Plain", vec![vec!["IFoo"]]), impl_item("IFoo", vec![])]).unwrap();
    assert_eq!(plain.debug(), None);
}

#[test]
fn err_derive_two_traits() {
    parse_class_err(
        vec![
            class_item(vec![derive(&["Debug", "Clone"])], "Simple", vec![vec!["IFoo"]]),
            impl_item("IFoo", vec![]),
        ],
        "Unrecognized derive attribute",
    );
}

#[test]
fn err_interface_redefined_in_class() {
    let r = parse(vec![
        class_item(vec![], "Simple", vec![vec!["IFoo"], vec!["IFoo"]]),
        impl_item("IFoo", vec![]),
    ]);
    match r {
        Err(ClassError::InterfaceRedefined { path }) => assert_eq!(path.text, "IFoo"),
        other => panic!("unexpected: {:?}", other),
    }
}

#[test]
fn err_impl_redefined() {
    parse_class_err(
        vec![
            class_item(vec![], "Simple", vec![vec!["IFoo"]]),
            impl_item("IFoo", vec![]),
            impl_item("IFoo", vec![]),
        ],
        "interface was redefined",
    );
}

#[test]
fn err_non_method_item() {
    let r = parse(vec![
        class_item(vec![], "Simple", vec![vec!["IFoo"]]),
        impl_item("IFoo", vec![method("a"), ImplItem::Other]),
    ]);
    match r {
        Err(e) => {
            assert!(matches!(e, ClassError::NonMethodItem { index: 1 }));
            assert_eq!(e.message(), "only trait methods are allowed when implementing an interface");
        }
        Ok(_) => panic!("expected an error"),
    }
}

#[test]
fn err_non_declared_impl() {
    parse_class_err(
        vec![
            class_item(vec![], "Simple", vec![vec!["IFoo"]]),
            impl_item("IFoo", vec![]),
            impl_item("IBar", vec![]),
        ],
        "impl for a non-declared interface",
    );
}

#[test]
fn err_no_class() {
    parse_class_err(vec![impl_item("IFoo", vec![])], "no class was defined");
}

#[test]
fn later_declaration_replaces_earlier() {
    let class = parse_class_ok(vec![
        class_item(vec![], "First", vec![vec!["IFoo"]]),
        class_item(vec![], "Second", vec![vec!["IBar"]]),
        impl_item("IBar", vec![]),
    ]);
    assert_eq!(class.name, "Second");
}

#[test]
fn colliding_methods_are_renamed() {
    let class = parse_class_ok(vec![
        class_item(vec![], "Simple", vec![vec!["IFoo"], vec!["IBar"]]),
        impl_item("IFoo", vec![method("zap"), method("only")]),
        impl_item("IBar", vec![method("zap")]),
    ]);
    let names: Vec<(String, String)> = class
        .methods
        .iter()
        .flat_map(|m| m.methods.iter().map(|x| (x.original_ident.clone(), x.ident.clone())))
        .collect();
    assert_eq!(
        names,
        vec![
            ("zap".to_string(), "IFoo__zap".to_string()),
            ("only".to_string(), "only".to_string()),
            ("zap".to_string(), "IBar__zap".to_string()),
        ]
    );
}

#[test]
fn renamed_name_taken_gets_counter() {
    let items = || {
        vec![
            class_item(vec![], "Simple", vec![vec!["IFoo"], vec!["IBar"]]),
            impl_item("IFoo", vec![method("zap"), method("IBar__zap")]),
            impl_item("IBar", vec![method("zap")]),
        ]
    };
    let mut parser = ClassParser::new();
    for item in items() {
        match item {
            Item::Class { name, chains, .. } => {
                let mut interfaces: Vec<Interface> = Vec::new();
                for chain in chains {
                    push_interface(&mut interfaces, path(chain[0])).unwrap();
                }
                let vis = Attr { path: String::new(), tokens: String::new() };
                parser.class_declared(name.to_string(), true, vec![], vis, interfaces, vec![]);
            }
            Item::Impl { interface, items, .. } => parser.add_impl(interface.map(path), items).unwrap(),
        }
    }
    let mut unrenamed = parser.finish().unwrap();
    assert_eq!(collision_counter(&unrenamed), 1);
    find_method_name_collisions(&mut unrenamed);
    assert_eq!(unrenamed.methods[1].methods[0].ident, "IBar__zap__0000");
    let class = parse_class_ok(items());
    let idents: Vec<String> = class
        .methods
        .iter()
        .flat_map(|m| m.methods.iter().map(|x| x.ident.clone()))
        .collect();
    assert_eq!(
        idents,
        vec!["IFoo__zap".to_string(), "IBar__zap".to_string(), "IBar__zap__0000".to_string()]
    );
}

#[test]
fn collision_on_module_path() {
    let class = parse_class_ok(vec![
        class_item(vec![], "Simple", vec![vec!["a::IFoo"], vec!["IBar"]]),
        impl_item("a::IFoo", vec![method("zap")]),
        impl_item("IBar", vec![method("zap")]),
    ]);
    assert_eq!(class.methods[0].methods[0].ident, "a_IFoo__zap");
    assert_eq!(path_to_single_string(&path("a::b::IFoo")), "a_b_IFoo");
}

#[test]
fn renaming_undefined_for_generic_path() {
    let mut generic = path("IFoo");
    generic.segments[0].has_arguments = true;
    generic.text = "IFoo<T>".to_string();
    let class: Class<Attr> = Class {
        name: "Simple".to_string(),
        has_class_factory: true,
        docs: vec![],
        visibility: Attr { path: String::new(), tokens: String::new() },
        interfaces: vec![],
        methods: vec![
            com_macros_support::class::class::InterfaceImpl {
                path: generic,
                methods: vec![com_macros_support::class::class::InterfaceMethod {
                    item: Attr { path: String::new(), tokens: String::new() },
                    ident: "zap".to_string(),
                    original_ident: "zap".to_string(),
                }],
            },
            com_macros_support::class::class::InterfaceImpl {
                path: path("IBar"),
                methods: vec![com_macros_support::class::class::InterfaceMethod {
                    item: Attr { path: String::new(), tokens: String::new() },
                    ident: "zap".to_string(),
                    original_ident: "zap".to_string(),
                }],
            },
        ],
        fields: vec![],
        impl_debug: false,
    };
    assert!(!renaming_is_defined(&class));
}

#[test]
fn set_parent_replaces_above() {
    let mut i = Interface::new(path("IA"));
    i.set_parent_at(0, path("IB"));
    i.set_parent_at(1, path("IC"));
    i.set_parent_at(0, path("ID"));
    let chain: Vec<String> = i.iter_chain().iter().map(|p| p.text.clone()).collect();
    assert_eq!(chain, vec!["IA".to_string(), "ID".to_string()]);
}

#[test]
fn vtables_of_a_chain() {
    let class = parse_class_ok(vec![
        class_item(vec![], "Cat", vec![vec!["ICat", "IAnimal"]]),
        impl_item("IAnimal", vec![method("eat_food")]),
        impl_item("ICat", vec![method("ignore_humans"), method("Purr")]),
    ]);
    let inits = class.initialized_vtables(&class.interfaces[0]);
    assert_eq!(inits.len(), 2);
    assert_eq!(inits[0].vtable_ident, "ICatVTable");
    assert_eq!(inits[0].impl_index, 1);
    assert_eq!(inits[0].fields, vec!["IgnoreHumans".to_string(), "Purr".to_string()]);
    assert_eq!(inits[1].vtable_ident, "IAnimalVTable");
    assert_eq!(inits[1].impl_index, 0);
    assert_eq!(inits[1].fields, vec!["EatFood".to_string()]);
}

#[test]
fn renamed_names_avoid_given_names() {
    let class = parse_class_ok(vec![
        class_item(vec![], "Simple", vec![vec!["IFoo"], vec!["IBar"]]),
        impl_item("IFoo", vec![method("zap"), method("zap__0000")]),
        impl_item("IBar", vec![method("zap"), method("zap__0000"), method("IFoo__zap")]),
    ]);
    let idents: Vec<String> = class
        .methods
        .iter()
        .flat_map(|m| m.methods.iter().map(|x| x.ident.clone()))
        .collect();
    assert_eq!(
        idents,
        vec![
            "IFoo__zap__0000".to_string(),
            "IFoo__zap__0000__0001".to_string(),
            "IBar__zap".to_string(),
            "IBar__zap__0000".to_string(),
            "IFoo__zap".to_string(),
        ]
    );
    for (i, a) in idents.iter().enumerate() {
        for b in idents.iter().skip(i + 1) {
            assert_ne!(a, b);
        }
    }
}

#[test]
fn struct_layout() {
    let class = parse(vec![
        Item::Class {
            attrs: vec![],
            name: "Cat",
            chains: vec![vec!["ICat", "IAnimal"], vec!["IDomesticAnimal"]],
            fields: vec!["num_owners"],
        },
        impl_item("ICat", vec![]),
        impl_item("IAnimal", vec![]),
        impl_item("IDomesticAnimal", vec![]),
    ])
    .unwrap();
    assert_eq!(
        class.struct_fields(),
        vec![
            StructField::VTablePtr { ident: "__0_ICat".to_string(), chain: 0 },
            StructField::VTablePtr { ident: "__1_IDomesticAnimal".to_string(), chain: 1 },
            StructField::RefCount { ident: "__refcnt".to_string() },
            StructField::User { index: 0 },
        ]
    );
}

#[test]
fn renaming_possible_only_matters_when_accepted() {
    let mut generic = path("IFoo");
    generic.segments[0].has_arguments = true;
    generic.text = "IFoo<T>".to_string();
    let build = |with_impl_for_bar: bool| {
        let mut parser = ClassParser::new();
        let mut interfaces: Vec<Interface> = Vec::new();
        push_interface(&mut interfaces, generic.clone()).unwrap();
        push_interface(&mut interfaces, path("IBar")).unwrap();
        let vis = Attr { path: String::new(), tokens: String::new() };
        parser.class_declared("Simple".to_string(), true, vec![], vis, interfaces, vec![]);
        parser.add_impl(Some(generic.clone()), vec![method("zap")]).unwrap();
        let other = if with_impl_for_bar { "IBar" } else { "IBaz" };
        parser.add_impl(Some(path(other)), vec![method("zap")]).unwrap();
        parser
    };
    // Accepted, but the colliding `zap` of `IFoo<T>` cannot be renamed.
    assert!(!build(true).renaming_possible());
    // Not accepted (an impl of the undeclared `IBaz`): the error is
    // reported instead.
    let parser = build(false);
    assert!(parser.renaming_possible());
    match parser.finish_renamed() {
        Err(e) => assert_eq!(e.message(), "impl for a non-declared interface"),
        Ok(_) => panic!("expected an error"),
    }
}
