use hellodb::types::{TypeName, Val, DBInt};
use hellodb::storage::{ColumnDataStorage, make_storage, is_storage_of};
use hellodb::columns::{Column, ColumnHeader};

fn int_at(c: &ColumnDataStorage, i: usize) -> i64 {
    match c.value_at(i) {
        Val::Int(x) => x,
        other => panic!("expected an Int, got {:?}", other),
    }
}

fn float_at(c: &ColumnDataStorage, i: usize) -> u64 {
    match c.value_at(i) {
        Val::Float(x) => x,
        other => panic!("expected a Float, got {:?}", other),
    }
}

fn str_at(c: &ColumnDataStorage, i: usize) -> String {
    match c.value_at(i) {
        Val::Str(x) => x,
        other => panic!("expected a String, got {:?}", other),
    }
}

#[test]
fn unmut_col() {
    let c = make_storage(TypeName::DBInt);
    assert_eq!(c.len(), 0);
    assert!(is_storage_of(&c, TypeName::DBInt));
}

#[test]
fn mut_col() {
    let mut c = make_storage(TypeName::DBFloat);
    c.push(Val::Float(f64::to_bits(10.)));
    c.push(Val::Float(f64::to_bits(20.3)));
    c.push(Val::Float(f64::to_bits(30.4)));
    assert_eq!(c.len(), 3);
    assert_eq!(f64::from_bits(float_at(&c, 0)), 10.);
    assert_eq!(f64::from_bits(float_at(&c, 1)), 20.3);
    assert_eq!(f64::from_bits(float_at(&c, 2)), 30.4);
}

#[test]
fn make_storage_test() {
    let c = make_storage(TypeName::DBInt);
    assert!(is_storage_of(&c, TypeName::DBInt));

    let c = make_storage(TypeName::DBFloat);
    assert!(!is_storage_of(&c, TypeName::DBInt));

    assert!(is_storage_of(&c, TypeName::DBFloat));
}

#[test]
fn downcast_storage() {
    let mut c = make_storage(TypeName::DBInt);
    c.push(Val::Int(10));
    c.push(Val::Int(20));

    assert_eq!(int_at(&c, 0), 10);
    assert_eq!(int_at(&c, 1), 20);
}

#[test]
fn storage_for_storage_ptr() {
    let c = make_storage(TypeName::DBInt);
    assert!(is_storage_of(&c, TypeName::DBInt));
    assert_eq!(c.len(), 0);
}

#[test]
fn fit_limit_offset() {
    let mut c = make_storage(TypeName::DBInt);
    let mut test_data = Vec::<i64>::new();
    for i in 1..20 {
        c.push(Val::Int(i));
        test_data.push(i);
    }
    c.fit_offset_limit(0, None);
    assert_eq!(collect_ints(&c), test_data);

    c.fit_offset_limit(3, None);
    assert_eq!(collect_ints(&c), test_data[3..]);

    c.fit_offset_limit(2, Some(10));
    assert_eq!(collect_ints(&c), test_data[5..15]);

    c.fit_offset_limit(0, Some(3));
    assert_eq!(collect_ints(&c), test_data[5..8]);
}

fn collect_ints(c: &ColumnDataStorage) -> Vec<i64> {
    let mut out = Vec::new();
    for i in 0..c.len() {
        out.push(int_at(c, i));
    }
    out
}

fn collect_strs(c: &ColumnDataStorage) -> Vec<String> {
    let mut out = Vec::new();
    for i in 0..c.len() {
        out.push(str_at(c, i));
    }
    out
}

#[test]
fn fit_limit_offset_string() {
    let mut c = make_storage(TypeName::DBString);
    let mut test_data = Vec::<String>::new();
    for i in 1..20 {
        c.push(Val::Str(i.to_string()));
        test_data.push(i.to_string());
    }
    c.fit_offset_limit(0, None);
    assert_eq!(collect_strs(&c), test_data);

    c.fit_offset_limit(3, None);
    assert_eq!(collect_strs(&c), test_data[3..]);

    c.fit_offset_limit(2, Some(10));
    assert_eq!(collect_strs(&c), test_data[5..15]);

    c.fit_offset_limit(0, Some(3));
    assert_eq!(collect_strs(&c), test_data[5..8]);
}

#[test]
fn pack_unpack() {
    let mut ca = make_storage(TypeName::DBInt);
    let mut cb = make_storage(TypeName::DBString);
    let mut cc = make_storage(TypeName::DBFloat);
    ca.push(Val::Int(1));
    cb.push(Val::Str("testttt".to_string()));
    cc.push(Val::Float(f64::to_bits(4.55)));

    let mut packed = Vec::<u8>::new();
    ca.pack_value_to(0, &mut packed).unwrap();
    cb.pack_value_to(0, &mut packed).unwrap();
    cc.pack_value_to(0, &mut packed).unwrap();

    ca.resize(2);
    cb.resize(2);
    cc.resize(2);

    let p1 = ca.unpack_value_from(1, &packed, 0).unwrap();
    let p2 = cb.unpack_value_from(1, &packed, p1).unwrap();
    let p3 = cc.unpack_value_from(1, &packed, p2).unwrap();
    assert_eq!(p3, packed.len());

    assert_eq!(int_at(&ca, 0), int_at(&ca, 1));
    assert_eq!(str_at(&cb, 0), str_at(&cb, 1));
    assert_eq!(float_at(&cc, 0), float_at(&cc, 1));
}

#[test]
fn new_column() {
    let mut c = Column::new(ColumnHeader::new("test", TypeName::DBInt));
    c.push(Val::Int(10));
    c.push(Val::Int(20));
    assert_eq!(c.dtype(), TypeName::DBInt);
    assert_eq!(int_at(c.data_ref(), 0), 10);
    assert_eq!(int_at(c.data_ref(), 1), 20);
}

#[test]
fn data_iter() {
    let mut c = Column::new(ColumnHeader::new("test", TypeName::DBInt));
    c.push(Val::Int(10));
    c.push(Val::Int(20));

    let res = collect_ints(c.data_ref());
    assert_eq!(res, Vec::<i64>::from([10, 20]));
}

#[test]
fn data_mut_iter() {
    let mut c = Column::new(ColumnHeader::new("test", TypeName::DBInt));
    c.resize(10);
    let mut fresh = hellodb::storage::make_storage(TypeName::DBInt);
    for i in 0..10i64 {
        fresh.push(Val::Int(i));
    }
    c.set_data(fresh);

    for i in 0..10usize {
        assert_eq!(int_at(c.data_ref(), i), i as i64);
    }
}

#[test]
fn float_total_order() {
    let mut c = make_storage(TypeName::DBFloat);
    c.push(Val::Float(f64::to_bits(1.5)));
    c.push(Val::Float(f64::to_bits(-2.0)));
    c.push(Val::Float(f64::to_bits(0.0)));
    c.push(Val::Float(f64::to_bits(2.5)));
    // -2.0 < 0.0 < 1.5 < 2.5 under the total order on bit patterns
    assert_eq!(c.elems_cmp(1, 2), core::cmp::Ordering::Less);
    assert_eq!(c.elems_cmp(2, 0), core::cmp::Ordering::Less);
    assert_eq!(c.elems_cmp(0, 3), core::cmp::Ordering::Less);
    assert_eq!(c.elems_cmp(3, 1), core::cmp::Ordering::Greater);
    assert_eq!(c.elems_cmp(0, 0), core::cmp::Ordering::Equal);
}

#[test]
fn float_nan_sorts_last() {
    let mut c = make_storage(TypeName::DBFloat);
    c.push(Val::Float(f64::to_bits(f64::NAN)));
    c.push(Val::Float(f64::to_bits(f64::INFINITY)));
    c.push(Val::Float(f64::to_bits(-f64::NAN)));
    c.push(Val::Float(f64::to_bits(f64::NEG_INFINITY)));
    c.push(Val::Float(f64::to_bits(0.0)));
    // every NaN pattern sorts after both infinities, and NaNs are equal
    assert_eq!(c.elems_cmp(1, 0), core::cmp::Ordering::Less);
    assert_eq!(c.elems_cmp(3, 2), core::cmp::Ordering::Less);
    assert_eq!(c.elems_cmp(4, 0), core::cmp::Ordering::Less);
    assert_eq!(c.elems_cmp(2, 4), core::cmp::Ordering::Greater);
    assert_eq!(c.elems_cmp(0, 2), core::cmp::Ordering::Equal);
    assert_eq!(c.elems_cmp(3, 1), core::cmp::Ordering::Less);
}

#[test]
fn string_order() {
    let mut c = make_storage(TypeName::DBString);
    c.push(Val::Str("Female".to_string()));
    c.push(Val::Str("Male".to_string()));
    c.push(Val::Str("Fem".to_string()));
    assert_eq!(c.elems_cmp(0, 1), core::cmp::Ordering::Less);
    assert_eq!(c.elems_cmp(1, 0), core::cmp::Ordering::Greater);
    assert_eq!(c.elems_cmp(2, 0), core::cmp::Ordering::Less);
    assert_eq!(c.elems_cmp(1, 1), core::cmp::Ordering::Equal);
}

#[test]
fn to_string() {
    assert_eq!(TypeName::DBFloat.as_str(), "Float")
}

#[test]
fn base_types() {
    let t = DBInt {};
    assert_eq!(t.to_type_string(), "Int");
    assert_eq!(t.dtype(), TypeName::DBInt);
}
