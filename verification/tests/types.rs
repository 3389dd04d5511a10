use len::ty::{Primitive, Ty};

#[test]
fn test_ty() {
    let x = Ty::Primitive(Primitive::Int);

    let y = Ty::Product(vec![
        // ..
        (String::from("foo"), Some(Ty::Primitive(Primitive::String))),
    ]);

    let maybe_s = Ty::Sum(vec![
        (String::from("Some"), Some(Ty::Primitive(Primitive::Int))),
        (String::from("None"), None),
    ]);

    assert_eq!(x, Ty::Primitive(Primitive::Int));
    assert_ne!(x, Ty::Primitive(Primitive::String));
    match &y {
        Ty::Product(members) => {
            assert_eq!(members.len(), 1);
            assert_eq!(members[0].0, "foo");
            assert_eq!(members[0].1, Some(Ty::Primitive(Primitive::String)));
        }
        other => panic!("not a product: {:?}", other),
    }
    match &maybe_s {
        Ty::Sum(members) => {
            assert_eq!(members.len(), 2);
            assert_eq!(members[0].0, "Some");
            assert_eq!(members[0].1, Some(x));
            assert_eq!(members[1].0, "None");
            assert_eq!(members[1].1, None);
        }
        other => panic!("not a sum: {:?}", other),
    }
    assert_ne!(y, maybe_s);
}
