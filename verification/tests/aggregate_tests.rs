use hellodb::types::{TypeName, Val};
use hellodb::columns::{Column, ColumnHeader};
use hellodb::functions::aggregate::{
    is_aggregate_function,
    aggregate_function_builder,
    AggrColumn,
    AnyAggrBuilder,
    SumAggrBuilder,
};

#[test]
fn aggregate_names() {
    assert!(is_aggregate_function("sum"));
    assert!(is_aggregate_function("SUM"));
    assert!(is_aggregate_function("Any"));
    assert!(!is_aggregate_function("min"));
    assert!(aggregate_function_builder("sum").is_some());
    assert!(aggregate_function_builder("count").is_none());
}

#[test]
fn sum_builder_types() {
    assert_eq!(
        SumAggrBuilder::new().result_type(vec![TypeName::DBInt]),
        Ok(TypeName::DBInt)
    );
    assert!(SumAggrBuilder::new().result_type(vec![TypeName::DBString]).is_err());
    assert!(SumAggrBuilder::new()
        .result_type(vec![TypeName::DBInt, TypeName::DBInt])
        .is_err());
}

#[test]
fn sum_gathers() {
    let mut col = match SumAggrBuilder::new().build(vec![TypeName::DBInt]).unwrap() {
        AggrColumn::Sum(c) => c,
        _ => panic!("expected a sum column"),
    };
    let mut src = Column::new(ColumnHeader::new("x", TypeName::DBInt));
    src.push(Val::Int(3));
    src.push(Val::Int(4));
    src.push(Val::Int(10));
    col.push_empty();
    col.append_value(vec![&src], 0, 0).unwrap();
    col.append_value(vec![&src], 1, 0).unwrap();
    col.push_empty();
    col.append_value(vec![&src], 2, 1).unwrap();
    let mut dest = Column::new(ColumnHeader::new("s", TypeName::DBInt));
    col.finalize_to_column(&mut dest);
    assert_eq!(dest.len(), 2);
    assert!(matches!(dest.value_at(0), Val::Int(7)));
    assert!(matches!(dest.value_at(1), Val::Int(10)));
}

#[test]
fn any_gathers() {
    let mut col = match AnyAggrBuilder::new().build(vec![TypeName::DBString]).unwrap() {
        AggrColumn::Any(c) => c,
        _ => panic!("expected an any column"),
    };
    let mut src = Column::new(ColumnHeader::new("x", TypeName::DBString));
    src.push(Val::Str("a".to_string()));
    src.push(Val::Str("b".to_string()));
    col.push_empty();
    col.append_value(vec![&src], 0, 0).unwrap();
    col.append_value(vec![&src], 1, 0).unwrap();
    let mut dest = Column::new(ColumnHeader::new("s", TypeName::DBString));
    col.finalize_to_column(&mut dest);
    assert_eq!(dest.len(), 1);
    match dest.value_at(0) {
        Val::Str(s) => assert_eq!(s, "b"),
        other => panic!("expected a String, got {:?}", other),
    }
}
