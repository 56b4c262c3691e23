use lazyvm::scope::{Identifier, Scopes};
use lazyvm::text::Concat;

#[test]
fn resolve_local_bind() {
    let mut sc = Scopes::new();
    let name = String::from("x");
    let id = sc.declare_bind(&name);
    assert_eq!(id, 0);
    match sc.resolve(0, &name) {
        Some((Identifier::Bind(b), d)) => {
            assert_eq!(b, 0);
            assert_eq!(d, 0);
        }
        other => panic!("unexpected resolution: {:?}", other),
    }
}

#[test]
fn arg_shadows_outer_bind_at_depth_zero() {
    let mut sc = Scopes::new();
    let name = String::from("x");
    sc.declare_bind(&name);
    let child = sc.fork(0);
    sc.declare_arg(&name, 3);
    match sc.resolve(child, &name) {
        Some((Identifier::Arg(i), d)) => {
            assert_eq!(i, 3);
            assert_eq!(d, 0);
        }
        other => panic!("unexpected resolution: {:?}", other),
    }
}

#[test]
fn unbound_name_is_none() {
    let sc = Scopes::new();
    assert!(sc.resolve(0, &String::from("missing")).is_none());
}

#[test]
fn concat_appends() {
    let c = Concat::new(String::from("foo"));
    assert_eq!(c.apply("bar"), String::from("foobar"));
}
