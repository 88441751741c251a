use binprot::derive::{impl_binprot_shape, Data, Declaration, DeriveError, Fields, Variant};
use binprot::{BinProtShape, Digestible, Float64, Shape, ShapeContext};

fn assert_digest<T: BinProtShape>(digest: &'static str) {
    assert_eq!(format!("{:x}", md5::Digest(T::binprot_shape().digest())), digest)
}

// The text that `{:?}` gives for a shape whose polymorphic variants are held in a map
// ordered by name.
fn debug(shape: &Shape) -> String {
    fn list(shapes: &[Shape]) -> String {
        format!("[{}]", shapes.iter().map(debug).collect::<Vec<_>>().join(", "))
    }
    match shape {
        Shape::Annotate(uuid, t) => format!("Annotate({:?}, {})", uuid, debug(t)),
        Shape::Base(uuid, v) => format!("Base({:?}, {})", uuid, list(v)),
        Shape::Tuple(v) => format!("Tuple({})", list(v)),
        Shape::Record(v) => {
            let fields: Vec<String> =
                v.iter().map(|(n, s)| format!("({:?}, {})", n, debug(s))).collect();
            format!("Record([{}])", fields.join(", "))
        }
        Shape::Variant(v) => {
            let cases: Vec<String> =
                v.iter().map(|(n, args)| format!("({:?}, {})", n, list(args))).collect();
            format!("Variant([{}])", cases.join(", "))
        }
        Shape::PolyVariant(v) => {
            let cases: Vec<String> = v
                .iter()
                .map(|(n, arg)| match arg {
                    None => format!("{:?}: None", n),
                    Some(s) => format!("{:?}: Some({})", n, debug(s)),
                })
                .collect();
            format!("PolyVariant({{{}}})", cases.join(", "))
        }
        Shape::Application(t, v) => format!("Application({}, {})", debug(t), list(v)),
        Shape::RecApp(n, v) => format!("RecApp({}, {})", n, list(v)),
        Shape::Var(n) => format!("Var({})", n),
    }
}

fn record(ident: &'static str, fields: Vec<(&'static str, Shape)>) -> Shape {
    impl_binprot_shape(Declaration {
        ident,
        attrs: vec![],
        data: Data::Struct(Fields::Named(fields)),
    })
    .unwrap()
}

fn tuple_struct(ident: &'static str, fields: Vec<Shape>) -> Shape {
    impl_binprot_shape(Declaration {
        ident,
        attrs: vec![],
        data: Data::Struct(Fields::Unnamed(fields)),
    })
    .unwrap()
}

fn variant(ident: &'static str, cases: Vec<Variant<Shape>>) -> Shape {
    impl_binprot_shape(Declaration { ident, attrs: vec![], data: Data::Enum(cases) }).unwrap()
}

fn polymorphic_variant(ident: &'static str, cases: Vec<Variant<Shape>>) -> Shape {
    impl_binprot_shape(Declaration {
        ident,
        attrs: vec![vec!["polymorphic_variant"]],
        data: Data::Enum(cases),
    })
    .unwrap()
}

#[allow(dead_code)]
struct Test1 {
    t: i64,
}

impl BinProtShape for Test1 {
    fn binprot_shape_impl(c: &mut ShapeContext) -> Shape {
        record("Test1", vec![("t", <i64>::binprot_shape_loop(c))])
    }
}

#[allow(dead_code)]
struct Test2 {
    t: i64,
    u: f64,
}

impl BinProtShape for Test2 {
    fn binprot_shape_impl(c: &mut ShapeContext) -> Shape {
        record(
            "Test2",
            vec![("t", <i64>::binprot_shape_loop(c)), ("u", <Float64>::binprot_shape_loop(c))],
        )
    }
}

#[allow(dead_code)]
struct Test3 {
    t: Test1,
    u: Test2,
}

impl BinProtShape for Test3 {
    fn binprot_shape_impl(c: &mut ShapeContext) -> Shape {
        record(
            "Test3",
            vec![("t", <Test1>::binprot_shape_loop(c)), ("u", <Test2>::binprot_shape_loop(c))],
        )
    }
}

#[allow(dead_code)]
struct Test4 {
    t: Test1,
    u: (Test2, Test2),
    v: (Test3, Test3, Test3),
}

impl BinProtShape for Test4 {
    fn binprot_shape_impl(c: &mut ShapeContext) -> Shape {
        record(
            "Test4",
            vec![
                ("t", <Test1>::binprot_shape_loop(c)),
                ("u", <(Test2, Test2)>::binprot_shape_loop(c)),
                ("v", <(Test3, Test3, Test3)>::binprot_shape_loop(c)),
            ],
        )
    }
}

#[allow(dead_code)]
enum TestVariant {
    Foo,
}

impl BinProtShape for TestVariant {
    fn binprot_shape_impl(_c: &mut ShapeContext) -> Shape {
        variant("TestVariant", vec![Variant { ident: "Foo", fields: Fields::Unit }])
    }
}

#[allow(dead_code)]
enum TestVariant2 {
    Foo,
    Bar(i64),
    Bar2(i64, f64),
    Baz { x: i64, y: f64 },
}

impl BinProtShape for TestVariant2 {
    fn binprot_shape_impl(c: &mut ShapeContext) -> Shape {
        variant(
            "TestVariant2",
            vec![
                Variant { ident: "Foo", fields: Fields::Unit },
                Variant {
                    ident: "Bar",
                    fields: Fields::Unnamed(vec![<i64>::binprot_shape_loop(c)]),
                },
                Variant {
                    ident: "Bar2",
                    fields: Fields::Unnamed(vec![
                        <i64>::binprot_shape_loop(c),
                        <Float64>::binprot_shape_loop(c),
                    ]),
                },
                Variant {
                    ident: "Baz",
                    fields: Fields::Named(vec![
                        ("x", <i64>::binprot_shape_loop(c)),
                        ("y", <Float64>::binprot_shape_loop(c)),
                    ]),
                },
            ],
        )
    }
}

#[allow(dead_code)]
enum TestPolyVariant {
    A,
}

impl BinProtShape for TestPolyVariant {
    fn binprot_shape_impl(_c: &mut ShapeContext) -> Shape {
        polymorphic_variant("TestPolyVariant", vec![Variant { ident: "A", fields: Fields::Unit }])
    }
}

#[allow(dead_code)]
enum TestPolyVariant2 {
    A(i64),
}

impl BinProtShape for TestPolyVariant2 {
    fn binprot_shape_impl(c: &mut ShapeContext) -> Shape {
        polymorphic_variant(
            "TestPolyVariant2",
            vec![case_a(c)],
        )
    }
}

fn case_a(c: &mut ShapeContext) -> Variant<Shape> {
    Variant { ident: "A", fields: Fields::Unnamed(vec![<i64>::binprot_shape_loop(c)]) }
}

fn case_b() -> Variant<Shape> {
    Variant { ident: "B", fields: Fields::Unit }
}

fn case_c(c: &mut ShapeContext) -> Variant<Shape> {
    Variant {
        ident: "C",
        fields: Fields::Unnamed(vec![
            <i64>::binprot_shape_loop(c),
            <Float64>::binprot_shape_loop(c),
        ]),
    }
}

fn case_d(c: &mut ShapeContext) -> Variant<Shape> {
    Variant { ident: "D", fields: Fields::Unnamed(vec![<String>::binprot_shape_loop(c)]) }
}

#[allow(dead_code)]
enum TestPolyVariant3 {
    A(i64),
    B,
    C(i64, f64),
    D(String),
}

impl BinProtShape for TestPolyVariant3 {
    fn binprot_shape_impl(c: &mut ShapeContext) -> Shape {
        let cases = vec![case_a(c), case_b(), case_c(c), case_d(c)];
        polymorphic_variant("TestPolyVariant3", cases)
    }
}

#[allow(dead_code)]
enum TestPolyVariant4 {
    B,
    D(String),
    C(i64, f64),
    A(i64),
}

impl BinProtShape for TestPolyVariant4 {
    fn binprot_shape_impl(c: &mut ShapeContext) -> Shape {
        let cases = vec![case_b(), case_d(c), case_c(c), case_a(c)];
        polymorphic_variant("TestPolyVariant4", cases)
    }
}

#[allow(dead_code)]
struct TestRec(Vec<TestRec>);

impl BinProtShape for TestRec {
    fn binprot_shape_impl(c: &mut ShapeContext) -> Shape {
        tuple_struct("TestRec", vec![<Vec<TestRec>>::binprot_shape_loop(c)])
    }
}

#[allow(dead_code)]
struct TestRec2 {
    foo: Option<Box<TestRec2>>,
}

impl BinProtShape for TestRec2 {
    fn binprot_shape_impl(c: &mut ShapeContext) -> Shape {
        record("TestRec2", vec![("foo", <Option<Box<TestRec2>>>::binprot_shape_loop(c))])
    }
}

#[allow(dead_code)]
enum TestRec3 {
    Empty,
    Cons(i64, Box<TestRec3>),
}

impl BinProtShape for TestRec3 {
    fn binprot_shape_impl(c: &mut ShapeContext) -> Shape {
        variant(
            "TestRec3",
            vec![
                Variant { ident: "Empty", fields: Fields::Unit },
                Variant {
                    ident: "Cons",
                    fields: Fields::Unnamed(vec![
                        <i64>::binprot_shape_loop(c),
                        <Box<TestRec3>>::binprot_shape_loop(c),
                    ]),
                },
            ],
        )
    }
}

#[allow(dead_code)]
enum TestRec4 {
    Empty,
    Cons((i64, Box<TestRec4>)),
}

impl BinProtShape for TestRec4 {
    fn binprot_shape_impl(c: &mut ShapeContext) -> Shape {
        variant(
            "TestRec4",
            vec![
                Variant { ident: "Empty", fields: Fields::Unit },
                Variant {
                    ident: "Cons",
                    fields: Fields::Unnamed(vec![<(i64, Box<TestRec4>)>::binprot_shape_loop(c)]),
                },
            ],
        )
    }
}

#[test]
fn test_shapes() {
    assert_digest::<i64>("698cfa4093fe5e51523842d37b92aeac");
    assert_digest::<Float64>("1fd923acb2dd9c5d401ad5b08b1d40cd");
    assert_digest::<String>("d9a8da25d5656b016fb4dbdc2e4197fb");
    assert_digest::<Test1>("43fa87a0bac7a0bb295f67cdc685aa26");
    assert_digest::<(Test1, Test1)>("d9aa33e00d47eb8eeb7f489b17d78d11");
    assert_digest::<(i64, Test1)>("4455e4c2995a2db383c16d4e99093686");
    assert_digest::<Test2>("485a864ae3ab9d4e12534fd17f64a7c4");
    assert_digest::<Test3>("3a9e779c28768361e904e90f37728927");
    assert_digest::<Test4>("7a412f4ba96d992a85db1d498721b752");
    assert_digest::<Vec<i64>>("4c138035aa69ec9dd8b7a7119090f84a");
    assert_digest::<()>("86ba5df747eec837f0b391dd49f33f9e");
    assert_digest::<Option<i64>>("33fd4ff7bde530bddf13dfa739207fae");
    assert_digest::<Result<i64, String>>("d90ddb29b1dc8ae4416867c01634f2de");
    assert_eq!(format!("{:?}", TestVariant::binprot_shape()), "Variant([(\"Foo\", [])])");
    assert_digest::<TestVariant>("81253431711eb0c9d669d0cf1c5ffea7");
    assert_digest::<TestVariant2>("6b5a9ecfe97b786f98c8b9e502c3d6db");
    assert_eq!(debug(&TestPolyVariant::binprot_shape()), "PolyVariant({\"A\": None})",);
    assert_digest::<TestPolyVariant>("37dab657a1bd138599a678980804d513");
    assert_digest::<TestPolyVariant2>("d82abba442a26f15f25d121e20b45083");
    assert_digest::<TestPolyVariant3>("534bd89034090512512955f635735d46");
    assert_digest::<TestPolyVariant4>("534bd89034090512512955f635735d46");
    // Recursive types are not handled properly yet if there are multiple
    // recursive types. However for a simple recursive type this works well.
    assert_digest::<TestRec>("4526f4c156fe4f6acde769fcb6262b23");
    assert_eq!(
        format!("{:?}", TestRec2::binprot_shape()),
        "Application(Record([(\"foo\", Base(Uuid(\"option\"), [RecApp(0, [])]))]), [])"
    );
    assert_digest::<TestRec2>("2e92d51efb901fcf492f243fc1c3601d");
    assert_digest::<TestRec4>("a0627068b62aa4530d1891cbe7f5d51e");
    assert_digest::<TestRec3>("2ac39052755cfe456342e727b104f34a");
}

#[test]
fn shapes_of_the_built_in_types() {
    assert_eq!(debug(&bool::binprot_shape()), "Base(Uuid(\"bool\"), [])");
    assert_eq!(debug(&char::binprot_shape()), "Base(Uuid(\"char\"), [])");
    assert_eq!(debug(&i32::binprot_shape()), "Base(Uuid(\"i32\"), [])");
    assert_eq!(debug(&<()>::binprot_shape()), "Base(Uuid(\"unit\"), [])");
    assert_eq!(
        debug(&Vec::<bool>::binprot_shape()),
        "Base(Uuid(\"array\"), [Base(Uuid(\"bool\"), [])])"
    );
    assert_eq!(
        debug(&Result::<i64, String>::binprot_shape()),
        "Base(Uuid(\"result\"), [Base(Uuid(\"int\"), []), Base(Uuid(\"string\"), [])])"
    );
    assert_eq!(debug(&Box::<i64>::binprot_shape()), "Base(Uuid(\"int\"), [])");
    assert_eq!(
        debug(&std::collections::BTreeMap::<i64, bool>::binprot_shape()),
        "Base(Uuid(\"dfb300f8-4992-11e6-9c15-73a2ac6b815c\"), [Base(Uuid(\"ac8a9ff4-4994-11e6-9a1b-9fb4e933bd9d\"), [Tuple([Base(Uuid(\"int\"), []), Base(Uuid(\"bool\"), [])])])])"
    );
    assert_eq!(
        debug(&std::collections::HashMap::<i64, bool>::binprot_shape()),
        "Base(Uuid(\"8fabab0a-4992-11e6-8cca-9ba2c4686d9e\"), [Base(Uuid(\"ac8a9ff4-4994-11e6-9a1b-9fb4e933bd9d\"), [Tuple([Base(Uuid(\"int\"), []), Base(Uuid(\"bool\"), [])])])])"
    );
    assert_eq!(
        debug(&<(i64, bool, String)>::binprot_shape()),
        "Tuple([Base(Uuid(\"int\"), []), Base(Uuid(\"bool\"), []), Base(Uuid(\"string\"), [])])"
    );
}

#[test]
fn a_type_met_twice_side_by_side_is_not_recursive() {
    assert_eq!(
        debug(&<(Test1, Test1)>::binprot_shape()),
        "Tuple([Record([(\"t\", Base(Uuid(\"int\"), []))]), Record([(\"t\", Base(Uuid(\"int\"), []))])])"
    );
    assert_eq!(
        debug(&TestRec::binprot_shape()),
        "Application(Tuple([Base(Uuid(\"array\"), [RecApp(0, [])])]), [])"
    );
}

#[test]
fn polymorphic_cases_stand_in_the_order_of_their_names() {
    let expected = "PolyVariant({\"A\": Some(Base(Uuid(\"int\"), [])), \"B\": None, \"C\": Some(Tuple([Base(Uuid(\"int\"), []), Base(Uuid(\"float\"), [])])), \"D\": Some(Base(Uuid(\"string\"), []))})";
    assert_eq!(debug(&TestPolyVariant3::binprot_shape()), expected);
    assert_eq!(debug(&TestPolyVariant4::binprot_shape()), expected);
    assert_eq!(TestPolyVariant3::binprot_shape(), TestPolyVariant4::binprot_shape());
    // A name that begins another comes first; capitals come before small letters.
    let shape = polymorphic_variant(
        "Names",
        vec![
            Variant { ident: "ab", fields: Fields::Unit },
            Variant { ident: "b", fields: Fields::Unit },
            Variant { ident: "a", fields: Fields::Unit },
            Variant { ident: "B", fields: Fields::Unit },
            Variant { ident: "", fields: Fields::Unit },
        ],
    );
    assert_eq!(
        debug(&shape),
        "PolyVariant({\"\": None, \"B\": None, \"a\": None, \"ab\": None, \"b\": None})"
    );
}

#[test]
fn a_name_declared_twice_keeps_its_last_argument() {
    let mut c = ShapeContext::new();
    let shape = polymorphic_variant(
        "Twice",
        vec![
            Variant { ident: "A", fields: Fields::Unit },
            Variant { ident: "B", fields: Fields::Unit },
            case_a(&mut c),
        ],
    );
    assert_eq!(debug(&shape), "PolyVariant({\"A\": Some(Base(Uuid(\"int\"), [])), \"B\": None})");
}

#[test]
fn arguments_of_polymorphic_cases() {
    let mut c = ShapeContext::new();
    let shape = polymorphic_variant(
        "Args",
        vec![
            Variant { ident: "None", fields: Fields::Unnamed(vec![]) },
            Variant {
                ident: "Named",
                fields: Fields::Named(vec![("x", <bool>::binprot_shape_loop(&mut c))]),
            },
        ],
    );
    assert_eq!(
        debug(&shape),
        "PolyVariant({\"Named\": Some(Record([(\"x\", Base(Uuid(\"bool\"), []))])), \"None\": Some(Tuple([]))})"
    );
    let ordinary = variant(
        "Args",
        vec![Variant {
            ident: "Named",
            fields: Fields::Named(vec![("x", <bool>::binprot_shape_loop(&mut c))]),
        }],
    );
    assert_eq!(
        debug(&ordinary),
        "Variant([(\"Named\", [Record([(\"x\", Base(Uuid(\"bool\"), []))])])])"
    );
}

#[test]
fn declarations_that_have_no_shape() {
    let union: Declaration<Shape> = Declaration { ident: "U", attrs: vec![], data: Data::Union };
    assert_eq!(impl_binprot_shape(union), Err(DeriveError::UnionNotSupported));
    let unit: Declaration<Shape> =
        Declaration { ident: "S", attrs: vec![], data: Data::Struct(Fields::Unit) };
    assert_eq!(impl_binprot_shape(unit), Err(DeriveError::UnitStruct));
    let marked: Declaration<Shape> = Declaration {
        ident: "S",
        attrs: vec![vec!["derive"], vec!["polymorphic_variant"]],
        data: Data::Struct(Fields::Unnamed(vec![])),
    };
    assert_eq!(impl_binprot_shape(marked), Err(DeriveError::PolymorphicVariantOnStruct));
    // A path of two segments is not the mark.
    let other: Declaration<Shape> = Declaration {
        ident: "S",
        attrs: vec![vec!["binprot", "polymorphic_variant"]],
        data: Data::Struct(Fields::Unnamed(vec![])),
    };
    assert_eq!(impl_binprot_shape(other), Ok(Shape::Tuple(vec![])));
    // The limit on the number of cases does not bear on the shape.
    let many: Vec<Variant<Shape>> =
        (0..300).map(|_| Variant { ident: "X", fields: Fields::Unit }).collect();
    let big: Declaration<Shape> = Declaration { ident: "E", attrs: vec![], data: Data::Enum(many) };
    match impl_binprot_shape(big) {
        Ok(Shape::Variant(cases)) => assert_eq!(cases.len(), 300),
        other => panic!("{:?}", other),
    }
}

#[test]
fn a_copy_of_a_shape_is_the_same_shape() {
    for shape in [
        TestPolyVariant3::binprot_shape(),
        TestVariant2::binprot_shape(),
        TestRec2::binprot_shape(),
        Test4::binprot_shape(),
        Shape::Annotate("a".into(), Box::new(Shape::Var(-3))),
        Shape::RecApp(i64::MIN, vec![Shape::Tuple(vec![])]),
    ] {
        let copy = shape.clone();
        assert_eq!(copy, shape);
        assert_eq!(copy.digest(), shape.digest());
    }
}
