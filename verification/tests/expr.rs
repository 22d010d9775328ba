use argus::bound::Bound;
use argus::builder::ExprBuilder;
use argus::error::Error;
use argus::expr::{And, AnyExpr, BoolExpr, BoolVar, Cmp, ExprRef, IntLit, Mul, Not, NumExpr, Or, Type};
use argus::interval::Interval;
use argus::relation::Relation;

#[test]
fn simple_iter() {
    let mut ctx = ExprBuilder::new();

    let x = Box::new(ctx.float_var("x".to_owned()).unwrap());
    let y = Box::new(ctx.float_var("y".to_owned()).unwrap());
    let lit = Box::new(ctx.float_const(2, 0));

    let pred1 = Box::new(ctx.make_le(Box::new(x.deep_copy()), Box::new(lit.deep_copy())));
    let pred2 = Box::new(ctx.make_gt(Box::new(y.deep_copy()), Box::new(lit.deep_copy())));
    let spec = ctx.make_or(vec![pred1.deep_copy(), pred2.deep_copy()]).unwrap();

    drop(ctx);

    let mut expr_tree = spec.iter();
    let expected: Vec<ExprRef<'_>> = vec![
        ExprRef::Bool(&spec),
        ExprRef::Bool(pred1.as_ref()),
        ExprRef::Bool(pred2.as_ref()),
        ExprRef::Num(x.as_ref()),
        ExprRef::Num(lit.as_ref()),
        ExprRef::Num(y.as_ref()),
        ExprRef::Num(lit.as_ref()),
    ];

    for rhs in expected.into_iter() {
        let lhs = expr_tree.next().expect("the walk ended early");
        match (lhs, rhs) {
            (ExprRef::Bool(lhs), ExprRef::Bool(rhs)) => assert_eq!(lhs, rhs),
            (ExprRef::Num(lhs), ExprRef::Num(rhs)) => assert_eq!(lhs, rhs),
            e => panic!("got mismatched pair: {:?}", e),
        }
    }
    assert!(expr_tree.next().is_none());
}

#[test]
fn is_numeric() {
    let mut builder = ExprBuilder::new();
    let a = builder.int_const(10);
    let b = builder.int_var("b".to_owned()).unwrap();
    let spec = builder.make_add(vec![a, b]).unwrap();

    assert!(spec.is_numeric());
    assert!(!spec.is_boolean());
}

#[test]
fn is_boolean() {
    let mut builder = ExprBuilder::new();
    let a = builder.bool_const(true);
    let b = builder.bool_var("b".to_owned()).unwrap();
    let spec = a & b;

    assert!(!spec.is_numeric());
    assert!(spec.is_boolean());
}

#[test]
fn redeclaration() {
    let mut builder = ExprBuilder::new();
    assert!(builder.bool_var("a".to_owned()).is_ok());
    // The same type again is fine.
    assert!(builder.bool_var("a".to_owned()).is_ok());
    assert_eq!(builder.int_var("a".to_owned()), Err(Error::IdentifierRedeclaration));
    // A refused declaration leaves the name with its first type.
    assert_eq!(builder.int_var("a".to_owned()), Err(Error::IdentifierRedeclaration));
    assert!(builder.bool_var("a".to_owned()).is_ok());
    assert_eq!(builder.uint_var("a".to_owned()), Err(Error::IdentifierRedeclaration));
    assert_eq!(builder.float_var("a".to_owned()), Err(Error::IdentifierRedeclaration));
    assert!(builder.float_var("z".to_owned()).is_ok());
    assert_eq!(builder.int_var("z".to_owned()), Err(Error::IdentifierRedeclaration));
    assert!(builder.float_var("z".to_owned()).is_ok());
}

#[test]
fn flattening() {
    let mut b = ExprBuilder::new();
    let x = b.int_var("x".to_owned()).unwrap();
    let y = b.int_var("y".to_owned()).unwrap();
    let z = b.int_var("z".to_owned()).unwrap();
    let xy = b.make_mul(vec![x, y]).unwrap();
    let xyz = b.make_mul(vec![xy, z]).unwrap();
    match &xyz {
        NumExpr::Mul(Mul { args }) => assert_eq!(args.len(), 3),
        other => panic!("{:?}", other),
    }
    // Fewer than two arguments is an error.
    assert_eq!(b.make_add(vec![b.int_const(1)]), Err(Error::IncompleteArgs));
    assert_eq!(b.make_mul(vec![]), Err(Error::IncompleteArgs));
    assert_eq!(b.make_or(vec![]), Err(Error::IncompleteArgs));
    assert_eq!(b.make_and(vec![b.bool_const(true)]), Err(Error::IncompleteArgs));

    let p = b.bool_var("p".to_owned()).unwrap();
    let q = b.bool_var("q".to_owned()).unwrap();
    let r = b.bool_var("r".to_owned()).unwrap();
    let pq = b.make_or(vec![p, q]).unwrap();
    let pqr = b.make_or(vec![r, pq]).unwrap();
    match &pqr {
        BoolExpr::Or(Or { args }) => {
            let names: Vec<&str> = args
                .iter()
                .map(|a| match a {
                    BoolExpr::BoolVar(BoolVar { name }) => name.as_str(),
                    other => panic!("{:?}", other),
                })
                .collect();
            assert_eq!(names, vec!["r", "p", "q"]);
        }
        other => panic!("{:?}", other),
    }
}

#[test]
fn derived_operators() {
    let mut b = ExprBuilder::new();
    let p = b.bool_var("p".to_owned()).unwrap();
    let q = b.bool_var("q".to_owned()).unwrap();
    let implies = b.make_implies(Box::new(p.deep_copy()), Box::new(q.deep_copy())).unwrap();
    assert_eq!(
        implies,
        BoolExpr::Or(Or { args: vec![BoolExpr::Not(Not { arg: Box::new(p.deep_copy()) }), q.deep_copy()] })
    );
    let xor = b.make_xor(Box::new(p.deep_copy()), Box::new(q.deep_copy())).unwrap();
    match xor {
        BoolExpr::Not(Not { arg }) => match *arg {
            BoolExpr::Or(Or { args }) => {
                assert_eq!(args.len(), 2);
                assert!(matches!(&args[0], BoolExpr::And(And { args }) if args.len() == 2));
                assert!(matches!(&args[1], BoolExpr::And(And { args }) if args.len() == 2));
            }
            other => panic!("{:?}", other),
        },
        other => panic!("{:?}", other),
    }
    let equiv = b.make_equiv(Box::new(p.deep_copy()), Box::new(q.deep_copy())).unwrap();
    assert!(matches!(equiv, BoolExpr::Or(_)));

    let one = b.make_oracle(1, Box::new(p.deep_copy()));
    assert!(matches!(one, BoolExpr::Next(_)));
    let three = b.make_oracle(3, Box::new(p.deep_copy()));
    assert!(matches!(three, BoolExpr::Oracle(o) if o.steps == 3));

    let lt = b.make_lt(Box::new(b.int_const(1)), Box::new(b.int_const(2)));
    assert_eq!(
        lt,
        BoolExpr::Cmp(Cmp {
            op: Relation::Less { strict: true },
            lhs: Box::new(NumExpr::IntLit(IntLit(1))),
            rhs: Box::new(NumExpr::IntLit(IntLit(2))),
        })
    );
}

#[test]
fn expression_args() {
    let mut b = ExprBuilder::new();
    let p = b.bool_var("p".to_owned()).unwrap();
    let ev = b.make_timed_eventually(
        Interval::new(Bound::Included(1), Bound::Included(3)),
        Box::new(p.deep_copy()),
    );
    let args = ev.args();
    assert_eq!(args.len(), 1);
    assert!(matches!(args[0], ExprRef::Bool(e) if *e == p));
    assert!(b.bool_const(false).args().is_empty());
    assert_eq!(Type::Int.get_common_cast(Type::Float), Type::Float);
}

#[test]
fn intervals() {
    let untimed = Interval::new(Bound::Unbounded, Bound::Unbounded);
    assert!(untimed.is_untimed());
    assert!(!untimed.is_empty());
    let singleton = Interval::new(Bound::Included(2), Bound::Included(2));
    assert!(singleton.is_singleton());
    // An excluded end is taken as included.
    let closed = Interval::new(Bound::Included(3), Bound::Excluded(3));
    assert!(closed.is_singleton() && !closed.is_empty());
    let empty = Interval::new(Bound::Included(3), Bound::Included(2));
    assert!(empty.is_empty());
    let bounded = Interval::new(Bound::Included(0), Bound::Included(2));
    assert!(!bounded.is_empty() && !bounded.is_singleton() && !bounded.is_untimed());
}

#[test]
fn bool_operators_flatten() {
    let mut b = ExprBuilder::new();
    let p = b.bool_var("p".to_owned()).unwrap();
    let q = b.bool_var("q".to_owned()).unwrap();
    let r = b.bool_var("r".to_owned()).unwrap();
    let conj = p.deep_copy() & q.deep_copy();
    assert!(matches!(&conj, BoolExpr::And(And { args }) if args.len() == 2));
    // A conjunction on the right takes the left operand at its end.
    let conj3 = r.deep_copy() & conj;
    match &conj3 {
        BoolExpr::And(And { args }) => assert_eq!(args, &vec![p.deep_copy(), q.deep_copy(), r.deep_copy()]),
        other => panic!("{:?}", other),
    }
    let disj = (p.deep_copy() | q.deep_copy()) | (r.deep_copy() | p.deep_copy());
    match &disj {
        BoolExpr::Or(Or { args }) => assert_eq!(args.len(), 4),
        other => panic!("{:?}", other),
    }
    // Operands of another kind are kept whole.
    let mixed = (p.deep_copy() & q.deep_copy()) | r.deep_copy();
    assert!(matches!(&mixed, BoolExpr::Or(Or { args }) if args.len() == 2));
}
