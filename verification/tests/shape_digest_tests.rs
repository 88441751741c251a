use binprot::shape::base;
use binprot::{BinProtShape, Digestible, Shape, ShapeContext};

fn digest_str(s: &Shape) -> String {
    format!("{:x}", md5::Digest(s.digest()))
}

#[test]
fn shape_digest() {
    assert_eq!(digest_str(&base("int")), "698cfa4093fe5e51523842d37b92aeac");
    assert_eq!(digest_str(&base("int32")), "0892f5f3797659e9ecf8a0faa5f76829");
    assert_eq!(digest_str(&base("int64")), "0078f5c24ad346a7066cb6673cd5c3cb");
    assert_eq!(digest_str(&base("string")), "d9a8da25d5656b016fb4dbdc2e4197fb");
    assert_eq!(digest_str(&base("float")), "1fd923acb2dd9c5d401ad5b08b1d40cd");
    assert_eq!(digest_str(&base("bool")), "a25306e4c5d30d35adbb5b0462a6b1b3");
    assert_eq!(digest_str(&base("char")), "84610d32d63dcff5c93f1033ec8cb1d5");
    let shape_t = Shape::Record(vec![("t", base("int"))]);
    assert_eq!(digest_str(&shape_t), "43fa87a0bac7a0bb295f67cdc685aa26");
    let shape_u = Shape::Record(vec![("t", base("int")), ("u", base("float"))]);
    assert_eq!(digest_str(&shape_u), "485a864ae3ab9d4e12534fd17f64a7c4");
    let shape_v = Shape::Record(vec![("t", shape_t), ("u", shape_u)]);
    assert_eq!(digest_str(&shape_v), "3a9e779c28768361e904e90f37728927");
    // The shape of a recursive type:
    //   type int_list =
    //     | Empty
    //     | Cons of (int * int_list)
    let shape_rec = {
        let inner = Shape::Variant(vec![
            ("Empty", vec![]),
            ("Cons", vec![Shape::Tuple(vec![base("int"), Shape::RecApp(0, vec![])])]),
        ]);
        Shape::Application(Box::new(inner), vec![])
    };
    assert_eq!(digest_str(&shape_rec), "a0627068b62aa4530d1891cbe7f5d51e");
    // type simple_rec = { foo : simple_rec option }
    let shape_rec = {
        let inner = Shape::Record(vec![(
            "foo",
            Shape::Base("option".into(), vec![Shape::RecApp(0, vec![])]),
        )]);
        Shape::Application(Box::new(inner), vec![])
    };
    assert_eq!(digest_str(&shape_rec), "2e92d51efb901fcf492f243fc1c3601d");
    let shape_i64_i64_hashtbl = {
        std::collections::HashMap::<i64, i64>::binprot_shape_impl(&mut ShapeContext::default())
    };
    assert_eq!(digest_str(&shape_i64_i64_hashtbl), "1fd943a5d8026fbd3e6746c972ab2127");
    let shape_i64_i64_btreemap = {
        std::collections::BTreeMap::<i64, i64>::binprot_shape_impl(&mut ShapeContext::default())
    };
    assert_eq!(digest_str(&shape_i64_i64_btreemap), "ed73a010af8ffc32cab7411d6be2d676");
}

#[test]
fn digest_of_numbers_goes_by_their_decimal_form() {
    // md5("var" ++ md5(md5("-7"))) and the like, worked out with the md5 crate alone.
    fn node(name: &str, children: &[[u8; 16]]) -> String {
        let mut inner = md5::Context::new();
        for c in children {
            inner.consume(c);
        }
        let mut outer = md5::Context::new();
        outer.consume(name);
        outer.consume(inner.compute().0);
        format!("{:x}", outer.compute())
    }
    for n in [0i64, 7, -7, 10, 1234567890, i64::MAX, i64::MIN] {
        let text = md5::compute(n.to_string()).0;
        assert_eq!(digest_str(&Shape::Var(n)), node("var", &[text]));
        let no_args = md5::compute(b"").0;
        assert_eq!(digest_str(&Shape::RecApp(n, vec![])), node("rec_app", &[text, no_args]));
    }
}

#[test]
fn digest_of_an_annotation() {
    let inner = base("int");
    let inner_digest = inner.digest();
    let uuid_digest = md5::compute("some-uuid").0;
    let mut children = md5::Context::new();
    children.consume(uuid_digest);
    children.consume(inner_digest);
    let mut outer = md5::Context::new();
    outer.consume("annotate");
    outer.consume(children.compute().0);
    let expected = format!("{:x}", outer.compute());
    let annotated = Shape::Annotate("some-uuid".into(), Box::new(inner));
    assert_eq!(digest_str(&annotated), expected);
}

#[test]
fn digests_of_strings_options_and_results() {
    assert_eq!(format!("{:x}", md5::Digest("abc".digest())), format!("{:x}", md5::compute("abc")));
    assert_eq!(
        format!("{:x}", md5::Digest("abc".to_string().digest())),
        "900150983cd24fb0d6963f7d28e17f72"
    );
    let wrapped = |tag: &str, inner: [u8; 16]| {
        let mut c = md5::Context::new();
        c.consume(tag);
        c.consume(md5::compute(inner).0);
        c.compute().0
    };
    let some: Option<&str> = Some("abc");
    assert_eq!(some.digest(), wrapped("some", md5::compute("abc").0));
    let none: Option<&str> = None;
    let mut c = md5::Context::new();
    c.consume("none");
    c.consume(md5::compute("").0);
    assert_eq!(none.digest(), c.compute().0);
    let ok: Result<&str, &str> = Ok("abc");
    assert_eq!(ok.digest(), wrapped("ok", md5::compute("abc").0));
    let err: Result<&str, &str> = Err("abc");
    assert_eq!(err.digest(), wrapped("err", md5::compute("abc").0));
    let list = vec!["a", "b"];
    let mut c = md5::Context::new();
    c.consume(md5::compute("a").0);
    c.consume(md5::compute("b").0);
    assert_eq!(list.digest(), c.compute().0);
    let mut c = md5::Context::new();
    c.consume(md5::compute("a").0);
    c.consume(md5::compute("b").0);
    assert_eq!(("a", "b").digest(), c.compute().0);
}
