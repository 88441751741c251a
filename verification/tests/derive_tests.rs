use binprot::{BinProtRead, BinProtSize, BinProtWrite, Error, Float64, Source};

fn test_roundtrip<T>(t: T, sz: usize, vs: Option<&[u8]>)
where
    T: BinProtRead + BinProtWrite + PartialEq + std::fmt::Debug,
{
    assert_eq!(t.binprot_size(), sz);
    let mut data: Vec<u8> = Vec::new();
    t.binprot_write(&mut data);
    let slice = data.as_slice();
    if let Some(vs) = vs {
        assert_eq!(slice, vs);
    }
    let mut source = Source::new(slice);
    let flipped = T::binprot_read(&mut source).unwrap();
    assert_eq!(source.remaining(), 0);
    assert_eq!(t, flipped)
}

fn write_f64(v: f64, w: &mut Vec<u8>) {
    Float64(v.to_bits()).binprot_write(w)
}

fn read_f64(r: &mut Source) -> Result<f64, Error> {
    let bits = Float64::binprot_read(r)?;
    Ok(f64::from_bits(bits.0))
}

#[derive(Debug, PartialEq)]
struct Pancakes(i64);

impl BinProtWrite for Pancakes {
    fn binprot_write(&self, w: &mut Vec<u8>) {
        self.0.binprot_write(w);
    }
}

impl BinProtRead for Pancakes {
    fn binprot_read(r: &mut Source) -> Result<Self, Error> {
        let field0 = BinProtRead::binprot_read(r)?;
        Ok(Pancakes(field0))
    }
}

#[test]
fn breakfast1() {
    test_roundtrip(Pancakes(12), 1, Some(&[12]));
    test_roundtrip(Pancakes(0), 1, Some(&[0]));
    test_roundtrip(Pancakes(-1), 2, Some(&[255, 255]));
    test_roundtrip(
        Pancakes(12345678910111213),
        9,
        Some(&[252, 237, 189, 242, 93, 84, 220, 43, 0]),
    );
}

#[derive(Debug, PartialEq)]
struct MorePancakes(i64, f64, i64);

impl BinProtWrite for MorePancakes {
    fn binprot_write(&self, w: &mut Vec<u8>) {
        self.0.binprot_write(w);
        write_f64(self.1, w);
        self.2.binprot_write(w);
    }
}

impl BinProtRead for MorePancakes {
    fn binprot_read(r: &mut Source) -> Result<Self, Error> {
        let field0 = BinProtRead::binprot_read(r)?;
        let field1 = read_f64(r)?;
        let field2 = BinProtRead::binprot_read(r)?;
        Ok(MorePancakes(field0, field1, field2))
    }
}

#[test]
fn breakfast2() {
    test_roundtrip(
        MorePancakes(12, 3.141592, 1234567890123),
        18,
        Some(&[
            12, 122, 0, 139, 252, 250, 33, 9, 64, 252, 203, 4, 251, 113, 31, 1, 0, 0,
        ]),
    );
}

#[derive(Debug, PartialEq)]
struct Breakfasts {
    pancakes: Pancakes,
    more_pancakes: MorePancakes,
    value1: i64,
    value2: (f64, f64),
}

impl BinProtWrite for Breakfasts {
    fn binprot_write(&self, w: &mut Vec<u8>) {
        self.pancakes.binprot_write(w);
        self.more_pancakes.binprot_write(w);
        self.value1.binprot_write(w);
        (Float64(self.value2.0.to_bits()), Float64(self.value2.1.to_bits())).binprot_write(w);
    }
}

impl BinProtRead for Breakfasts {
    fn binprot_read(r: &mut Source) -> Result<Self, Error> {
        let pancakes = BinProtRead::binprot_read(r)?;
        let more_pancakes = BinProtRead::binprot_read(r)?;
        let value1 = BinProtRead::binprot_read(r)?;
        let value2: (Float64, Float64) = BinProtRead::binprot_read(r)?;
        Ok(Breakfasts {
            pancakes,
            more_pancakes,
            value1,
            value2: (f64::from_bits(value2.0 .0), f64::from_bits(value2.1 .0)),
        })
    }
}

#[test]
fn breakfast3() {
    let breakfasts = Breakfasts {
        pancakes: Pancakes(12),
        more_pancakes: MorePancakes(-123, 2.71828182846, 0),
        value1: -1234567890123456,
        value2: (3.141592, 6535.8979),
    };
    let expected = [
        12, 255, 133, 207, 95, 20, 139, 10, 191, 5, 64, 0, 252, 64, 69, 117, 195, 42, 157, 251,
        255, 122, 0, 139, 252, 250, 33, 9, 64, 20, 63, 198, 220, 229, 135, 185, 64,
    ];
    test_roundtrip(breakfasts, 37, Some(&expected))
}

#[derive(Debug, PartialEq)]
struct BreakfastItem {
    name: String,
    quantity: f64,
    large: bool,
}

impl BinProtWrite for BreakfastItem {
    fn binprot_write(&self, w: &mut Vec<u8>) {
        self.name.binprot_write(w);
        write_f64(self.quantity, w);
        self.large.binprot_write(w);
    }
}

impl BinProtRead for BreakfastItem {
    fn binprot_read(r: &mut Source) -> Result<Self, Error> {
        let name = BinProtRead::binprot_read(r)?;
        let quantity = read_f64(r)?;
        let large = BinProtRead::binprot_read(r)?;
        Ok(BreakfastItem { name, quantity, large })
    }
}

#[test]
fn breakfast5() {
    let expected = [3, 101, 103, 103, 111, 18, 131, 192, 202, 33, 9, 64, 1];
    test_roundtrip(
        BreakfastItem { name: "egg".to_string(), quantity: 3.1415, large: true },
        13,
        Some(&expected),
    );
    let expected = [
        9, 99, 114, 111, 105, 115, 115, 97, 110, 116, 0, 0, 0, 0, 128, 28, 200, 192, 0,
    ];
    test_roundtrip(
        BreakfastItem { name: "croissant".to_string(), quantity: -12345., large: false },
        19,
        Some(&expected),
    );
    let expected = [
        14, 80, 97, 105, 110, 65, 117, 67, 104, 111, 99, 111, 108, 97, 116, 0, 0, 0, 74, 120, 222,
        177, 65, 0,
    ];
    test_roundtrip(
        BreakfastItem { name: "PainAuChocolat".to_string(), quantity: 299792458.0, large: false },
        24,
        Some(&expected),
    );
}

use binprot::derive::{plan, Data, Declaration, Fields, Plan, Variant};
use binprot::{Table, WithLen};

fn menu_declaration(ident: &'static str, polymorphic: bool) -> Declaration<()> {
    let attrs = if polymorphic { vec![vec!["polymorphic_variant"]] } else { vec![] };
    Declaration {
        ident,
        attrs,
        data: Data::Enum(vec![
            Variant { ident: "Any", fields: Fields::Unnamed(vec![()]) },
            Variant { ident: "Eggs", fields: Fields::Unnamed(vec![()]) },
            Variant { ident: "Pancakes", fields: Fields::Unnamed(vec![()]) },
            Variant { ident: "MorePancakes", fields: Fields::Unnamed(vec![()]) },
            Variant { ident: "LotsOfPancakes", fields: Fields::Unnamed(vec![(), ()]) },
            Variant {
                ident: "Everything",
                fields: Fields::Named(vec![("eggs", ()), ("pancakes", ())]),
            },
            Variant { ident: "Nothing", fields: Fields::Unit },
        ]),
    }
}

fn menu_plan() -> Plan {
    plan(&menu_declaration("BreakfastMenu", false)).unwrap()
}

#[derive(Debug, PartialEq)]
enum BreakfastMenu<T> {
    Any(T),
    Eggs(i64),
    Pancakes(Pancakes),
    MorePancakes(MorePancakes),
    LotsOfPancakes(Pancakes, MorePancakes),
    Everything { eggs: i64, pancakes: i64 },
    Nothing,
}

impl<T: BinProtWrite> BinProtWrite for BreakfastMenu<T> {
    fn binprot_write(&self, w: &mut Vec<u8>) {
        let plan = menu_plan();
        match self {
            BreakfastMenu::Any(arg0) => {
                assert!(plan.write_tag(0, w));
                arg0.binprot_write(w);
            }
            BreakfastMenu::Eggs(arg0) => {
                assert!(plan.write_tag(1, w));
                arg0.binprot_write(w);
            }
            BreakfastMenu::Pancakes(arg0) => {
                assert!(plan.write_tag(2, w));
                arg0.binprot_write(w);
            }
            BreakfastMenu::MorePancakes(arg0) => {
                assert!(plan.write_tag(3, w));
                arg0.binprot_write(w);
            }
            BreakfastMenu::LotsOfPancakes(arg0, arg1) => {
                assert!(plan.write_tag(4, w));
                arg0.binprot_write(w);
                arg1.binprot_write(w);
            }
            BreakfastMenu::Everything { eggs, pancakes } => {
                assert!(plan.write_tag(5, w));
                eggs.binprot_write(w);
                pancakes.binprot_write(w);
            }
            BreakfastMenu::Nothing => {
                assert!(plan.write_tag(6, w));
            }
        }
    }
}

impl<T: BinProtRead> BinProtRead for BreakfastMenu<T> {
    fn binprot_read(r: &mut Source) -> Result<Self, Error> {
        match menu_plan().read_tag(r)? {
            0 => Ok(BreakfastMenu::Any(BinProtRead::binprot_read(r)?)),
            1 => Ok(BreakfastMenu::Eggs(BinProtRead::binprot_read(r)?)),
            2 => Ok(BreakfastMenu::Pancakes(BinProtRead::binprot_read(r)?)),
            3 => Ok(BreakfastMenu::MorePancakes(BinProtRead::binprot_read(r)?)),
            4 => {
                let field0 = BinProtRead::binprot_read(r)?;
                let field1 = BinProtRead::binprot_read(r)?;
                Ok(BreakfastMenu::LotsOfPancakes(field0, field1))
            }
            5 => {
                let eggs = BinProtRead::binprot_read(r)?;
                let pancakes = BinProtRead::binprot_read(r)?;
                Ok(BreakfastMenu::Everything { eggs, pancakes })
            }
            6 => Ok(BreakfastMenu::Nothing),
            _ => unreachable!(),
        }
    }
}

#[test]
fn breakfast4() {
    let breakfast: BreakfastMenu<BreakfastMenu<i64>> =
        BreakfastMenu::Any(BreakfastMenu::Everything { eggs: 123, pancakes: 456 });
    let expected = [0, 5, 123, 254, 200, 1];
    test_roundtrip(breakfast, 6, Some(&expected));
    test_roundtrip(BreakfastMenu::<i64>::Nothing, 1, None);
    let expected = [1, 42];
    test_roundtrip(BreakfastMenu::<i64>::Eggs(42), 2, Some(&expected));
    test_roundtrip(WithLen(BreakfastMenu::<i64>::Eggs(42)), 3, Some(&[2, 1, 42]));
}

fn poly_plan() -> Plan {
    plan(&menu_declaration("BreakfastPoly", true)).unwrap()
}

#[derive(Debug, PartialEq)]
enum BreakfastPoly<T> {
    Any(T),
    Eggs(i64),
    Pancakes(Pancakes),
    MorePancakes(MorePancakes),
    LotsOfPancakes(Pancakes, MorePancakes),
    Everything { eggs: i64, pancakes: i64 },
    Nothing,
}

impl<T: BinProtWrite> BinProtWrite for BreakfastPoly<T> {
    fn binprot_write(&self, w: &mut Vec<u8>) {
        let plan = poly_plan();
        match self {
            BreakfastPoly::Any(arg0) => {
                assert!(plan.write_tag(0, w));
                arg0.binprot_write(w);
            }
            BreakfastPoly::Eggs(arg0) => {
                assert!(plan.write_tag(1, w));
                arg0.binprot_write(w);
            }
            BreakfastPoly::Pancakes(arg0) => {
                assert!(plan.write_tag(2, w));
                arg0.binprot_write(w);
            }
            BreakfastPoly::MorePancakes(arg0) => {
                assert!(plan.write_tag(3, w));
                arg0.binprot_write(w);
            }
            BreakfastPoly::LotsOfPancakes(arg0, arg1) => {
                assert!(plan.write_tag(4, w));
                arg0.binprot_write(w);
                arg1.binprot_write(w);
            }
            BreakfastPoly::Everything { eggs, pancakes } => {
                assert!(plan.write_tag(5, w));
                eggs.binprot_write(w);
                pancakes.binprot_write(w);
            }
            BreakfastPoly::Nothing => {
                assert!(plan.write_tag(6, w));
            }
        }
    }
}

impl<T: BinProtRead> BinProtRead for BreakfastPoly<T> {
    fn binprot_read(r: &mut Source) -> Result<Self, Error> {
        match poly_plan().read_tag(r)? {
            0 => Ok(BreakfastPoly::Any(BinProtRead::binprot_read(r)?)),
            1 => Ok(BreakfastPoly::Eggs(BinProtRead::binprot_read(r)?)),
            2 => Ok(BreakfastPoly::Pancakes(BinProtRead::binprot_read(r)?)),
            3 => Ok(BreakfastPoly::MorePancakes(BinProtRead::binprot_read(r)?)),
            4 => {
                let field0 = BinProtRead::binprot_read(r)?;
                let field1 = BinProtRead::binprot_read(r)?;
                Ok(BreakfastPoly::LotsOfPancakes(field0, field1))
            }
            5 => {
                let eggs = BinProtRead::binprot_read(r)?;
                let pancakes = BinProtRead::binprot_read(r)?;
                Ok(BreakfastPoly::Everything { eggs, pancakes })
            }
            6 => Ok(BreakfastPoly::Nothing),
            _ => unreachable!(),
        }
    }
}

#[test]
fn breakfast6() {
    let breakfast: BreakfastPoly<BreakfastPoly<i64>> =
        BreakfastPoly::Any(BreakfastPoly::MorePancakes(MorePancakes(-123, 2.71828182846, 0)));
    let expected = [
        153, 101, 99, 0, 39, 152, 92, 190, 255, 133, 207, 95, 20, 139, 10, 191, 5, 64, 0,
    ];
    test_roundtrip(breakfast, 19, Some(&expected));
    test_roundtrip(BreakfastPoly::<i64>::Nothing, 4, None);
    let expected = [93, 118, 212, 91, 42];
    test_roundtrip(BreakfastPoly::<i64>::Eggs(42), 5, Some(&expected));
    test_roundtrip(
        WithLen(BreakfastPoly::<i64>::Eggs(42)),
        6,
        Some(&[5, 93, 118, 212, 91, 42]),
    );
}

fn entries_of<'a, I>(entries: I) -> Table<String, (i64, Float64)>
where
    I: Iterator<Item = (&'a String, &'a (i64, f64))>,
{
    Table(entries.map(|(k, (n, q))| (k.clone(), (*n, Float64(q.to_bits())))).collect())
}

#[test]
fn breakfast7() {
    let price_and_quantities: std::collections::HashMap<String, (i64, f64)> = [
        ("croissant", (4, 1.23)),
        ("JusDOrange", (1, 2.34)),
        ("PainAuChocolat", (2, 1.45)),
    ]
    .iter()
    .map(|(x, y)| (x.to_string(), *y))
    .collect();
    test_roundtrip(entries_of(price_and_quantities.clone().iter()), 64, None);
    let price_and_quantities: std::collections::BTreeMap<String, (i64, f64)> =
        price_and_quantities.into_iter().collect();
    test_roundtrip(entries_of(price_and_quantities.iter()), 64, None);
}
