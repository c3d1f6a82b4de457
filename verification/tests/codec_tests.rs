use hellodb::types::{TypeName, Val};
use hellodb::storage::make_storage;
use hellodb::codec::{make_col_writer, make_col_reader, ChunkReader, ChunkWriter};

fn ints(vals: &[i64]) -> hellodb::storage::ColumnDataStorage {
    let mut c = make_storage(TypeName::DBInt);
    for v in vals.iter() {
        c.push(Val::Int(*v));
    }
    c
}

fn strings(vals: &[&str]) -> hellodb::storage::ColumnDataStorage {
    let mut c = make_storage(TypeName::DBString);
    for v in vals.iter() {
        c.push(Val::Str(v.to_string()));
    }
    c
}

fn int_vals(c: &hellodb::storage::ColumnDataStorage) -> Vec<i64> {
    let mut out = Vec::new();
    for i in 0..c.len() {
        match c.value_at(i) {
            Val::Int(x) => out.push(x),
            other => panic!("expected an Int, got {:?}", other),
        }
    }
    out
}

fn str_vals(c: &hellodb::storage::ColumnDataStorage) -> Vec<String> {
    let mut out = Vec::new();
    for i in 0..c.len() {
        match c.value_at(i) {
            Val::Str(x) => out.push(x),
            other => panic!("expected a String, got {:?}", other),
        }
    }
    out
}

#[test]
fn write_read_chunk() {
    let mut writer = ChunkWriter::new(TypeName::DBInt);
    let data = ints(&[1, 2, 10, 258]);
    writer.write_col(&data).unwrap();
    assert!(writer.dest().len() > 4 * 3);
    assert!(writer.dest().len() < 4 * 3 + 4 * 16);

    let mut reader = ChunkReader::new(TypeName::DBInt, writer.into_inner());
    let mut res = make_storage(TypeName::DBInt);
    reader.read_col(&mut res).unwrap();
    assert_eq!(res.len(), data.len());
    assert_eq!(int_vals(&res), int_vals(&data));
}

#[test]
fn write_read_chunk_strings() {
    let mut writer = ChunkWriter::new(TypeName::DBString);
    let data = strings(&["1", "231", "a", "bbbbb"]);
    writer.write_col(&data).unwrap();

    let mut reader = ChunkReader::new(TypeName::DBString, writer.into_inner());
    let mut res = make_storage(TypeName::DBString);
    reader.read_col(&mut res).unwrap();
    assert_eq!(res.len(), data.len());
    assert_eq!(str_vals(&res), str_vals(&data));
}

#[test]
fn write_read_col_storage() {
    let c = ints(&[10, 20, 30, 40]);

    let mut writer = make_col_writer(TypeName::DBInt);
    writer.write_col(&c).unwrap();
    assert!(writer.dest().len() > 4 * 3);
    assert!(writer.dest().len() < 4 * 3 + 4 * 16);

    let mut reader = make_col_reader(TypeName::DBInt, writer.into_inner());
    let mut res = make_storage(TypeName::DBInt);
    reader.read_col(&mut res).unwrap();

    assert_eq!(res.len(), c.len());
    assert_eq!(int_vals(&res), int_vals(&c));
}

#[test]
fn write_read() {
    let c = ints(&[10, 20, 30, 40]);
    let mut writer = make_col_writer(TypeName::DBInt);
    writer.write_col(&c).unwrap();

    let mut reader = make_col_reader(TypeName::DBInt, writer.into_inner());
    let mut res = make_storage(TypeName::DBInt);
    reader.read_col(&mut res).unwrap();
    assert_eq!(res.len(), c.len());
    assert_eq!(int_vals(&res), int_vals(&c));
}

#[test]
fn multi_chunk_streaming() {
    let mut writer = make_col_writer(TypeName::DBInt);
    let c1 = ints(&[1, 2, 3]);
    let c2 = ints(&[4, 5]);
    let c3 = ints(&[6]);
    writer.write_col(&c1).unwrap();
    writer.write_col(&c2).unwrap();
    writer.write_col(&c3).unwrap();

    let mut reader = make_col_reader(TypeName::DBInt, writer.into_inner());
    let mut res = make_storage(TypeName::DBInt);
    reader.read_col(&mut res).unwrap();
    assert_eq!(int_vals(&res), vec![1, 2, 3]);
    reader.read_col(&mut res).unwrap();
    assert_eq!(int_vals(&res), vec![4, 5]);
    reader.read_col(&mut res).unwrap();
    assert_eq!(int_vals(&res), vec![6]);
    // a fourth read hits the clean end of the data
    assert!(reader.read_col(&mut res).is_err());
}
