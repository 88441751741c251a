use binprot::derive::{
    has_distinct_tags, has_polymorphic_variant_attr, plan, variant_int, Binders, Data,
    Declaration, DeriveError, Fields, Plan, Variant,
};
use binprot::{Error, IoErrorKind, Source};

fn cases(names: &[&'static str]) -> Vec<Variant<()>> {
    names.iter().map(|n| Variant { ident: *n, fields: Fields::Unit }).collect()
}

fn ordinary(names: &[&'static str]) -> Plan {
    plan(&Declaration { ident: "Menu", attrs: vec![], data: Data::Enum(cases(names)) }).unwrap()
}

fn polymorphic(names: &[&'static str]) -> Plan {
    plan(&Declaration {
        ident: "Poly",
        attrs: vec![vec!["polymorphic_variant"]],
        data: Data::Enum(cases(names)),
    })
    .unwrap()
}

fn refusal(decl: Declaration<()>) -> DeriveError {
    match plan(&decl) {
        Err(e) => e,
        Ok(_) => panic!("a plan for {}", decl.ident),
    }
}

#[test]
fn declarations_that_are_refused() {
    assert_eq!(
        refusal(Declaration { ident: "U", attrs: vec![], data: Data::Union }),
        DeriveError::UnionNotSupported
    );
    assert_eq!(
        refusal(Declaration { ident: "S", attrs: vec![], data: Data::Struct(Fields::Unit) }),
        DeriveError::UnitStruct
    );
    assert_eq!(
        refusal(Declaration {
            ident: "S",
            attrs: vec![vec!["polymorphic_variant"]],
            data: Data::Struct(Fields::Unnamed(vec![()])),
        }),
        DeriveError::PolymorphicVariantOnStruct
    );
    // The mark on a struct is found before the struct is found empty.
    assert_eq!(
        refusal(Declaration {
            ident: "S",
            attrs: vec![vec!["polymorphic_variant"]],
            data: Data::Struct(Fields::Unit),
        }),
        DeriveError::PolymorphicVariantOnStruct
    );
    let names: Vec<&'static str> = vec!["X"; 257];
    assert_eq!(
        refusal(Declaration { ident: "E", attrs: vec![], data: Data::Enum(cases(&names)) }),
        DeriveError::TooManyCases
    );
    assert_eq!(
        refusal(Declaration {
            ident: "E",
            attrs: vec![vec!["polymorphic_variant"]],
            data: Data::Enum(cases(&names)),
        }),
        DeriveError::TooManyCases
    );
}

#[test]
fn an_enum_may_have_256_cases() {
    let names: Vec<&'static str> = vec!["X"; 256];
    let plan = ordinary(&names);
    for case in [0usize, 1, 127, 128, 255] {
        let mut w = Vec::new();
        assert!(plan.write_tag(case, &mut w));
        assert_eq!(w, [case as u8]);
        assert_eq!(plan.read_tag(&mut Source::new(&w)).unwrap(), case);
    }
    let mut w = vec![1u8];
    assert!(!plan.write_tag(256, &mut w));
    assert_eq!(w, [1]);
    let none = ordinary(&[]);
    assert!(matches!(
        none.read_tag(&mut Source::new(&[0])),
        Err(Error::UnexpectedVariantIndex { index: 0, ident: "Menu" })
    ));
}

#[test]
fn each_index_selects_its_own_case() {
    let plan = ordinary(&["Any", "Eggs", "Nothing"]);
    for index in 0..=255u8 {
        let bytes = [index, 42];
        let mut source = Source::new(&bytes);
        match plan.read_tag(&mut source) {
            Ok(case) => {
                assert!(index < 3);
                assert_eq!(case, index as usize);
                assert_eq!(source.remaining(), 1);
            }
            Err(Error::UnexpectedVariantIndex { index: found, ident }) => {
                assert!(index >= 3);
                assert_eq!(found, index);
                assert_eq!(ident, "Menu");
            }
            Err(other) => panic!("{:?}", other),
        }
    }
    assert!(matches!(
        plan.read_tag(&mut Source::new(&[])),
        Err(Error::IoError(IoErrorKind::UnexpectedEof))
    ));
}

#[test]
fn tags_of_a_polymorphic_variant() {
    let names = ["Any", "Eggs", "Pancakes", "MorePancakes", "Nothing"];
    let plan = polymorphic(&names);
    for (case, name) in names.iter().enumerate() {
        let mut w = Vec::new();
        assert!(plan.write_tag(case, &mut w));
        assert_eq!(w, variant_int(name).to_le_bytes());
        w.push(1);
        let mut source = Source::new(&w);
        assert_eq!(plan.read_tag(&mut source).unwrap(), case);
        assert_eq!(source.remaining(), 1);
    }
    assert!(matches!(
        plan.read_tag(&mut Source::new(&[1, 0, 0, 0])),
        Err(Error::UnexpectedPolymorphicVariantIndex { index: 1, ident: "Poly" })
    ));
    assert!(matches!(
        plan.read_tag(&mut Source::new(&[255, 255, 255, 255])),
        Err(Error::UnexpectedPolymorphicVariantIndex { index: -1, ident: "Poly" })
    ));
    assert!(matches!(
        plan.read_tag(&mut Source::new(&[153, 101, 99])),
        Err(Error::IoError(IoErrorKind::UnexpectedEof))
    ));
    // Of two cases with one tag the first is meant.
    let twice = polymorphic(&["Eggs", "Any", "Eggs"]);
    let tag = variant_int("Eggs").to_le_bytes();
    assert_eq!(twice.read_tag(&mut Source::new(&tag)).unwrap(), 0);
}

#[test]
fn a_struct_has_fields_and_no_tag() {
    let named = plan(&Declaration {
        ident: "Item",
        attrs: vec![vec!["derive"]],
        data: Data::Struct(Fields::Named(vec![("name", ()), ("quantity", ()), ("large", ())])),
    })
    .unwrap();
    match &named {
        Plan::Struct { ident, fields: Binders::Named(names) } => {
            assert_eq!(*ident, "Item");
            assert_eq!(names, &["name", "quantity", "large"]);
        }
        _ => panic!("not the plan of a record"),
    }
    let mut w = Vec::new();
    assert!(!named.write_tag(0, &mut w));
    assert!(w.is_empty());
    let bytes = [5u8];
    let mut source = Source::new(&bytes);
    assert_eq!(named.read_tag(&mut source).unwrap(), 0);
    assert_eq!(source.remaining(), 1);
    let positional = plan(&Declaration {
        ident: "Pair",
        attrs: vec![],
        data: Data::Struct(Fields::Unnamed(vec![(), ()])),
    })
    .unwrap();
    assert!(matches!(positional, Plan::Struct { ident: "Pair", fields: Binders::Unnamed(2) }));
}

#[test]
fn arms_follow_the_cases() {
    let decl = Declaration {
        ident: "Menu",
        attrs: vec![],
        data: Data::Enum(vec![
            Variant { ident: "Any", fields: Fields::Unnamed(vec![0u8]) },
            Variant {
                ident: "Everything",
                fields: Fields::Named(vec![("eggs", 1), ("pancakes", 2)]),
            },
            Variant { ident: "Nothing", fields: Fields::Unit },
        ]),
    };
    match plan(&decl).unwrap() {
        Plan::Enum { ident, polymorphic, arms } => {
            assert_eq!(ident, "Menu");
            assert!(!polymorphic);
            assert_eq!(arms.len(), 3);
            assert_eq!(arms[0].ident, "Any");
            assert_eq!(arms[0].tag, [0]);
            assert!(matches!(arms[0].fields, Binders::Unnamed(1)));
            assert_eq!(arms[1].ident, "Everything");
            assert_eq!(arms[1].tag, [1]);
            assert!(matches!(&arms[1].fields, Binders::Named(n) if n == &["eggs", "pancakes"]));
            assert_eq!(arms[2].tag, [2]);
            assert!(matches!(arms[2].fields, Binders::Unit));
        }
        _ => panic!("not the plan of an enum"),
    }
}

#[test]
fn the_mark_of_a_polymorphic_variant() {
    let with = |attrs: Vec<Vec<&'static str>>| {
        has_polymorphic_variant_attr(&Declaration::<()> { ident: "T", attrs, data: Data::Union })
    };
    assert!(!with(vec![]));
    assert!(with(vec![vec!["polymorphic_variant"]]));
    assert!(with(vec![vec!["derive"], vec!["allow"], vec!["polymorphic_variant"]]));
    assert!(!with(vec![vec!["polymorphic_variants"]]));
    assert!(!with(vec![vec!["polymorphic_varian"]]));
    assert!(!with(vec![vec!["binprot", "polymorphic_variant"]]));
    assert!(!with(vec![vec![]]));
}

#[test]
fn tags_that_collide_are_found() {
    assert!(has_distinct_tags(&ordinary(&["A", "A", "B"])));
    assert!(has_distinct_tags(&polymorphic(&["Any", "Eggs", "Nothing"])));
    assert!(has_distinct_tags(&polymorphic(&[])));
    assert!(!has_distinct_tags(&polymorphic(&["Eggs", "Any", "Eggs"])));
    assert!(!has_distinct_tags(&polymorphic(&["Eggs", "Eggs"])));
    let record = plan(&Declaration {
        ident: "Pair",
        attrs: vec![],
        data: Data::Struct(Fields::Unnamed(vec![(), ()])),
    })
    .unwrap();
    assert!(has_distinct_tags(&record));
}
