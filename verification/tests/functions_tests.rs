use hellodb::types::{TypeName, Val};
use hellodb::columns::{Column, ColumnHeader};
use hellodb::functions::arithmetic::PlusBuilder;
use hellodb::functions::cmp::EqualBuilder;
use hellodb::functions::boolean::NotBuilder;
use hellodb::functions::arithmetic::DivideBuilder;
use hellodb::functions::cmp::LessBuilder;

fn int_col(name: &str, vals: &[i64]) -> Column {
    let mut c = Column::new(ColumnHeader::new(name, TypeName::DBInt));
    for v in vals.iter() {
        c.push(Val::Int(*v));
    }
    c
}

fn int_vals(c: &Column) -> Vec<i64> {
    let mut out = Vec::new();
    for i in 0..c.len() {
        match c.value_at(i) {
            Val::Int(x) => out.push(x),
            other => panic!("expected an Int, got {:?}", other),
        }
    }
    out
}

#[test]
fn op_result() {
    let f = PlusBuilder::new().build(vec![TypeName::DBInt, TypeName::DBInt]).unwrap();
    assert_eq!(f.result_type_of(), TypeName::DBInt);
}

#[test]
fn plus_impl() {
    let mut r: Vec<i64> = Vec::new();
    let mut l: Vec<i64> = Vec::new();
    for i in 0..10i64 {
        r.push((i + 1) * 10);
        l.push(i + 1);
    }
    let rc = int_col("r", &r);
    let lc = int_col("l", &l);
    let mut d = int_col("d", &vec![0i64; 10]);
    let op = PlusBuilder::new().build(vec![TypeName::DBInt, TypeName::DBInt]).unwrap();
    op.apply(Vec::from([&rc, &lc]), &mut d).unwrap();

    for (i, v) in int_vals(&d).iter().enumerate() {
        assert_eq!(*v, (1 + i as i64) * 11);
    }
}

#[test]
fn plus_res_type() {
    assert_eq!(
        PlusBuilder::new().result_type(Vec::from([TypeName::DBInt, TypeName::DBInt])),
        Ok(TypeName::DBInt)
    );
    // the engine does no floating-point arithmetic, so a Float addition is
    // rejected at build time
    assert!(
        PlusBuilder::new()
            .result_type(Vec::from([TypeName::DBFloat, TypeName::DBFloat]))
            .is_err()
    );
    assert!(
        PlusBuilder::new()
            .result_type(Vec::from([TypeName::DBInt, TypeName::DBFloat]))
            .is_err()
    );
}

#[test]
fn arithmetic_plus_builder() {
    let args = Vec::from([TypeName::DBInt, TypeName::DBInt]);
    let mut r: Vec<i64> = Vec::new();
    let mut l: Vec<i64> = Vec::new();
    for i in 0..10i64 {
        r.push((i + 1) * 10);
        l.push(i + 1);
    }
    let rc = int_col("r", &r);
    let lc = int_col("l", &l);
    let rty = PlusBuilder::new().result_type(args.clone()).unwrap();
    let mut d = Column::new(ColumnHeader::new("d", rty));
    d.resize(10);
    let op = PlusBuilder::new().build(args).unwrap();
    op.apply(Vec::from([&rc, &lc]), &mut d).unwrap();

    for (i, v) in int_vals(&d).iter().enumerate() {
        assert_eq!(*v, (1 + i as i64) * 11);
    }
}

#[test]
fn cmp_plus_builder() {
    let args = Vec::from([TypeName::DBInt, TypeName::DBInt]);
    let mut r: Vec<i64> = Vec::new();
    let mut l: Vec<i64> = Vec::new();
    for i in 0..10i64 {
        if i % 2 == 0 {
            r.push(10);
            l.push(10);
        } else {
            r.push(1);
            l.push(10);
        }
    }
    let rc = int_col("r", &r);
    let lc = int_col("l", &l);
    let rty = EqualBuilder::new().result_type(args.clone()).unwrap();
    let mut d = Column::new(ColumnHeader::new("d", rty));
    d.resize(10);
    let op = EqualBuilder::new().build(args).unwrap();
    op.apply(Vec::from([&rc, &lc]), &mut d).unwrap();

    for (i, v) in int_vals(&d).iter().enumerate() {
        if i % 2 == 0 {
            assert_eq!(*v, 1);
        } else {
            assert_eq!(*v, 0);
        }
    }
}

#[test]
fn not_builder() {
    let c = int_col("c", &[0, 1, 2, 0]);
    let mut d = int_col("d", &[0, 0, 0, 0]);
    let op = NotBuilder::new().build(vec![TypeName::DBInt]).unwrap();
    op.apply(Vec::from([&c]), &mut d).unwrap();
    assert_eq!(int_vals(&d), vec![1, 0, 0, 1]);
}

#[test]
fn divide_by_zero_reports() {
    let a = int_col("a", &[4, 9]);
    let b = int_col("b", &[2, 0]);
    let mut d = int_col("d", &[0, 0]);
    let op = DivideBuilder::new().build(vec![TypeName::DBInt, TypeName::DBInt]).unwrap();
    assert!(op.apply(Vec::from([&a, &b]), &mut d).is_err());
}

#[test]
fn string_compare_builder() {
    let mut a = Column::new(ColumnHeader::new("a", TypeName::DBString));
    let mut b = Column::new(ColumnHeader::new("b", TypeName::DBString));
    a.push(Val::Str("Female".to_string()));
    a.push(Val::Str("Male".to_string()));
    b.push(Val::Str("Male".to_string()));
    b.push(Val::Str("Female".to_string()));
    let mut d = int_col("d", &[0, 0]);
    let op = LessBuilder::new()
        .build(vec![TypeName::DBString, TypeName::DBString])
        .unwrap();
    op.apply(Vec::from([&a, &b]), &mut d).unwrap();
    assert_eq!(int_vals(&d), vec![1, 0]);
}

#[test]
fn plus_wraps_at_extremes() {
    let a = int_col("a", &[i64::MAX, i64::MIN, i64::MAX]);
    let b = int_col("b", &[1, -1, i64::MAX]);
    let mut d = int_col("d", &vec![0i64; 3]);
    let op = PlusBuilder::new().build(vec![TypeName::DBInt, TypeName::DBInt]).unwrap();
    op.apply(Vec::from([&a, &b]), &mut d).unwrap();
    assert_eq!(int_vals(&d), vec![i64::MIN, i64::MAX, -2]);
}
