use binprot::{Shape, ShapeContext};
use std::any::TypeId;

#[test]
fn a_type_that_meets_itself_is_recursive() {
    let mut c = ShapeContext::new();
    let a = TypeId::of::<i64>();
    let b = TypeId::of::<bool>();
    assert_eq!(c.get(&a), None);
    assert_eq!(c.enter(a), None);
    assert_eq!(c.get(&a), Some(false));
    assert_eq!(c.enter(b), None);
    assert_eq!(c.enter(a), Some(Shape::RecApp(0, vec![])));
    assert_eq!(c.get(&a), Some(true));
    assert_eq!(c.get(&b), Some(false));
    assert_eq!(c.leave(b, Shape::Var(1)), Shape::Var(1));
    assert_eq!(c.get(&b), None);
    assert_eq!(c.leave(a, Shape::Var(2)), Shape::Application(Box::new(Shape::Var(2)), vec![]));
    assert_eq!(c.get(&a), None);
    // A type that is not in the context leaves as it came.
    assert_eq!(c.leave(a, Shape::Var(3)), Shape::Var(3));
    // Once a type has left, it enters afresh.
    assert_eq!(c.enter(a), None);
    assert_eq!(c.leave(a, Shape::Var(4)), Shape::Var(4));
}
