use hellodb::types::TypeName;
use hellodb::columns::ColumnHeader;
use hellodb::schema::{Schema, write_schema, read_schema};

#[test]
fn find_col() {
    let sch = Schema::new(vec![
        ColumnHeader::new("test", TypeName::DBString),
        ColumnHeader::new("f", TypeName::DBInt),
        ColumnHeader::new("ff", TypeName::DBFloat),
    ]);

    assert!(sch.find_col("kkk").is_none());
    let h = sch.find_col("f").unwrap();
    assert_eq!(h.name(), "f");
    assert_eq!(h.dtype(), TypeName::DBInt);
}

#[test]
fn rw_schema() {
    let sch = Schema::new(vec![
        ColumnHeader::new("test", TypeName::DBString),
        ColumnHeader::new("f", TypeName::DBInt),
        ColumnHeader::new("ff", TypeName::DBFloat),
    ]);
    let bytes = write_schema(&sch).unwrap();

    let rsch = read_schema(&bytes).unwrap();
    assert_eq!(rsch.len(), sch.len());
    for i in 0..sch.len() {
        assert_eq!(rsch.header_at(i).name(), sch.header_at(i).name());
        assert_eq!(rsch.header_at(i).dtype(), sch.header_at(i).dtype());
    }
}

#[test]
fn rw_schema_rejects_garbage() {
    let bytes: Vec<u8> = vec![9, 9, 9];
    assert!(read_schema(&bytes).is_err());
}
