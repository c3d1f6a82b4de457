use hellodb::types::{TypeName, Val};
use hellodb::columns::{Column, ColumnHeader};
use hellodb::storage::make_storage;
use hellodb::codec::make_col_writer;
use hellodb::schema::{Schema, Table, DB};
use hellodb::serialize::u32_to_byte;
use hellodb::blocks::{ColumnBlock, DontTouchSource, ExternalSource, FunctionSource};
use hellodb::functions::arithmetic::PlusBuilder;
use hellodb::functions::cmp::EqualBuilder;
use hellodb::execute::Plan;
use hellodb::execute::constructor::Constructor;
use hellodb::DBResult;
use sqlparser::dialect::GenericDialect;
use sqlparser::parser::Parser;

/// Runs the outside SQL parser and lowers the result over the database.
fn plan_for(db: &DB, sql: &str) -> DBResult<Plan> {
    let stmts = Parser::parse_sql(&GenericDialect {}, sql).map_err(|e| e.to_string())?;
    Plan::from_statements(db, stmts)
}

/// Builds an in-memory table `regs(id:Int, age:Int, gender:String,
/// value:Float)` with `size` rows written in blocks of six: id counts up
/// from 1, age counts down from size+1, gender alternates starting with
/// Male on the first row.
fn create_test_db(size: usize) -> DB {
    let schema = Schema::new(vec![
        ColumnHeader::new("id", TypeName::DBInt),
        ColumnHeader::new("age", TypeName::DBInt),
        ColumnHeader::new("gender", TypeName::DBString),
        ColumnHeader::new("value", TypeName::DBFloat),
    ]);
    let mut table = Table::new("mem/regs", "regs", schema);

    let genders = ["Female", "Male"];
    let block_size = 6usize;
    let mut rows = size;

    let mut sizes: Vec<u8> = Vec::new();
    let mut id_writer = make_col_writer(TypeName::DBInt);
    let mut age_writer = make_col_writer(TypeName::DBInt);
    let mut gender_writer = make_col_writer(TypeName::DBString);
    let mut value_writer = make_col_writer(TypeName::DBFloat);

    let mut id: i64 = 1;
    let mut age: i64 = size as i64 + 1;
    let mut gender_p = 1usize;
    while rows > 0 {
        let bsize = block_size.min(rows);
        rows -= bsize;
        u32_to_byte(bsize as u32, &mut sizes);

        let mut id_col = make_storage(TypeName::DBInt);
        let mut age_col = make_storage(TypeName::DBInt);
        let mut gender_col = make_storage(TypeName::DBString);
        let mut value_col = make_storage(TypeName::DBFloat);
        for i in 0..bsize {
            id_col.push(Val::Int(id));
            id += 1;
            age_col.push(Val::Int(age));
            age -= 1;
            gender_col.push(Val::Str(genders[gender_p % 2].to_string()));
            gender_p += 1;
            value_col.push(Val::Float(f64::to_bits(i as f64 / 2.)));
        }
        id_writer.write_col(&id_col).unwrap();
        age_writer.write_col(&age_col).unwrap();
        gender_writer.write_col(&gender_col).unwrap();
        value_writer.write_col(&value_col).unwrap();
    }
    table.set_sizes_bytes(sizes);
    table.set_col_bytes(0, id_writer.into_inner());
    table.set_col_bytes(1, age_writer.into_inner());
    table.set_col_bytes(2, gender_writer.into_inner());
    table.set_col_bytes(3, value_writer.into_inner());
    DB::new("mem", vec![table])
}

fn int_vals(c: &Column) -> Vec<i64> {
    let mut out = Vec::new();
    for i in 0..c.len() {
        match c.value_at(i) {
            Val::Int(x) => out.push(x),
            other => panic!("expected an Int, got {:?}", other),
        }
    }
    out
}

fn str_vals(c: &Column) -> Vec<String> {
    let mut out = Vec::new();
    for i in 0..c.len() {
        match c.value_at(i) {
            Val::Str(x) => out.push(x),
            other => panic!("expected a String, got {:?}", other),
        }
    }
    out
}

#[test]
fn limit() {
    let db = create_test_db(1000);
    let mut plan = plan_for(&db, "select * from regs limit 10").unwrap();
    plan.execute().unwrap();
    assert_eq!(plan.output().rows_len(), 10);

    let mut plan =
        plan_for(&db, "select * from regs where gender = 'Female' limit 10").unwrap();
    plan.execute().unwrap();
    assert_eq!(plan.output().rows_len(), 10);

    let mut plan = plan_for(&db, "select id from regs  limit 5 offset 5").unwrap();
    plan.execute().unwrap();
    let out = plan.output();
    assert_eq!(out.rows_len(), 5);
    assert_eq!(int_vals(out.col_at(0))[0], 6);
}

#[test]
fn order_by() {
    let db = create_test_db(10);
    let mut plan = plan_for(
        &db,
        "select id, gender, age from regs order by gender desc, age limit 5 offset 2 ",
    )
    .unwrap();
    plan.execute().unwrap();

    let out = plan.output();
    assert_eq!(out.rows_len(), 5);
    assert_eq!(int_vals(out.col_at(0)), vec![5i64, 3, 1, 10, 8]);
}

#[test]
fn order_by_unprojected_key() {
    // the sort key is carried into the output so the sort sees the rows
    // the WHERE kept; ages fall as ids rise
    let db = create_test_db(10);
    let mut plan = plan_for(&db, "select id from regs order by age desc limit 3").unwrap();
    plan.execute().unwrap();
    let out = plan.output();
    assert_eq!(out.rows_len(), 3);
    assert_eq!(int_vals(out.col_at(0)), vec![1i64, 2, 3]);
}

#[test]
fn order_by_filtered_rows() {
    // ORDER BY runs over the rows the WHERE kept, not the raw table
    let db = create_test_db(10);
    let mut plan = plan_for(
        &db,
        "select id from regs where gender = 'Female' order by age limit 2",
    )
    .unwrap();
    plan.execute().unwrap();
    let out = plan.output();
    // Female rows are the even ids, with ages rising as ids fall
    assert_eq!(int_vals(out.col_at(0)), vec![10i64, 8]);
}

fn make_plan_for(constr: &Constructor, sql: &str) -> DBResult<Plan> {
    let stmts = Parser::parse_sql(&GenericDialect {}, sql).map_err(|e| e.to_string())?;
    constr.make_plan(stmts)
}

#[test]
fn make_plan() {
    let db = create_test_db(100);
    let constr = Constructor::new(&db);

    assert!(make_plan_for(&constr, "ffasd").is_err());
    let test_query = "select id, age from undef";
    assert!(make_plan_for(&constr, test_query).is_err());

    let test_query = "select id, age from regs where wrong_field";
    assert!(make_plan_for(&constr, test_query).is_err());

    let test_query = "select id, age from regs where id + age";
    assert!(!make_plan_for(&constr, test_query).is_err());

    let test_query = "select id, age from regs where id + 100.5";
    assert!(make_plan_for(&constr, test_query).is_err());

    let test_query = "select id, age from regs where id + 100";
    assert!(!make_plan_for(&constr, test_query).is_err());

    let test_query = "select id from regs limit 100";
    assert!(!make_plan_for(&constr, test_query).is_err());
}

#[test]
fn empty_table() {
    let db = create_test_db(0);
    let mut plan = plan_for(&db, "select * from regs").unwrap();
    plan.execute().unwrap();
    assert_eq!(plan.output().rows_len(), 0);
}

#[test]
fn offset_window() {
    let db = create_test_db(1000);
    let mut plan = plan_for(&db, "select id from regs limit 5 offset 5").unwrap();
    plan.execute().unwrap();
    let out = plan.output();
    assert_eq!(int_vals(out.col_at(0)), vec![6i64, 7, 8, 9, 10]);
}

#[test]
fn filter_gender() {
    let db = create_test_db(1000);
    let mut plan =
        plan_for(&db, "select * from regs where gender = 'Female' limit 10").unwrap();
    plan.execute().unwrap();
    let out = plan.output();
    assert_eq!(out.rows_len(), 10);
    let gi = out.col_index_by_name("gender").unwrap();
    for g in str_vals(out.col_at(gi)) {
        assert_eq!(g, "Female");
    }
}

#[test]
fn projection_arithmetic() {
    let db = create_test_db(10);
    let mut plan =
        plan_for(&db, "select id + 100 from regs where id + 100 < 105").unwrap();
    plan.execute().unwrap();
    let out = plan.output();
    assert_eq!(int_vals(out.col_at(0)), vec![101i64, 102, 103, 104]);
}

#[test]
fn and_not_filter() {
    let db = create_test_db(1000);
    let mut plan =
        plan_for(&db, "select * from regs where (age > 20) and not (age > 50)").unwrap();
    plan.execute().unwrap();
    let out = plan.output();
    let ai = out.col_index_by_name("age").unwrap();
    let ages = int_vals(out.col_at(ai));
    assert_eq!(ages.len(), 30);
    for a in ages {
        assert!(20 < a && a <= 50);
    }
}

#[test]
fn fun_src() {
    let mut block = ColumnBlock::new();
    let mut r = Column::new(ColumnHeader::new("r", TypeName::DBInt));
    let mut l = Column::new(ColumnHeader::new("l", TypeName::DBInt));
    let d = Column::new(ColumnHeader::new("d", TypeName::DBInt));
    for i in 0..10i64 {
        r.push(Val::Int((i + 1) * 10));
        l.push(Val::Int(i + 1));
    }

    let args = Vec::from([TypeName::DBInt, TypeName::DBInt]);
    block.add(r, DontTouchSource::new_ref());
    block.add(l, DontTouchSource::new_ref());
    let op = PlusBuilder::new().build(args).unwrap();
    block.add(d, FunctionSource::new_ref(vec![1, 0], op));
    // processing to the columns' current length keeps the DontTouch rows
    block.process(10).unwrap();
    let di = block.col_index_by_name("d").unwrap();
    for (i, v) in int_vals(block.col_at(di)).iter().enumerate() {
        assert_eq!(*v, (1 + i as i64) * 11);
    }
}

#[test]
fn srcs() {
    let mut a_writer = make_col_writer(TypeName::DBInt);
    let mut b_writer = make_col_writer(TypeName::DBInt);
    let mut c_writer = make_col_writer(TypeName::DBInt);

    let mk = |vals: &[i64]| {
        let mut c = make_storage(TypeName::DBInt);
        for v in vals.iter() {
            c.push(Val::Int(*v));
        }
        c
    };
    a_writer.write_col(&mk(&[1, 2, 3, 4])).unwrap();
    b_writer.write_col(&mk(&[10, 20, 30, 40])).unwrap();
    c_writer.write_col(&mk(&[11, 6, 33, 8])).unwrap();
    a_writer.write_col(&mk(&[5, 6, 7, 8])).unwrap();
    b_writer.write_col(&mk(&[50, 60, 70, 80])).unwrap();
    c_writer.write_col(&mk(&[11, 66, 33, 88])).unwrap();

    let mut block = ColumnBlock::new();
    let args = Vec::from([TypeName::DBInt, TypeName::DBInt]);

    block.add(
        Column::new(ColumnHeader::new("a", TypeName::DBInt)),
        ExternalSource::new_ref(a_writer.into_inner(), TypeName::DBInt),
    );
    block.add(
        Column::new(ColumnHeader::new("b", TypeName::DBInt)),
        ExternalSource::new_ref(b_writer.into_inner(), TypeName::DBInt),
    );
    block.add(
        Column::new(ColumnHeader::new("c", TypeName::DBInt)),
        ExternalSource::new_ref(c_writer.into_inner(), TypeName::DBInt),
    );
    block.add(
        Column::new(ColumnHeader::new("a + b", TypeName::DBInt)),
        FunctionSource::new_ref(vec![0, 1], PlusBuilder::new().build(args.clone()).unwrap()),
    );
    block.add(
        Column::new(ColumnHeader::new("a + b == c", TypeName::DBInt)),
        FunctionSource::new_ref(vec![2, 3], EqualBuilder::new().build(args.clone()).unwrap()),
    );

    block.process(4).unwrap();
    let ci = block.col_index_by_name("a + b == c").unwrap();
    assert_eq!(int_vals(block.col_at(ci)), vec![1, 0, 1, 0]);
    block.process(4).unwrap();
    assert_eq!(int_vals(block.col_at(ci)), vec![0, 1, 0, 1]);
}

#[test]
fn limit_short_circuit() {
    // blocks hold six rows each: five rows need only the first block
    let db = create_test_db(1000);
    let mut plan = plan_for(&db, "select id from regs limit 5").unwrap();
    plan.execute().unwrap();
    assert_eq!(plan.output().rows_len(), 5);
    assert_eq!(plan.blocks_read(), 2);
    let mut plan_all = plan_for(&db, "select id from regs").unwrap();
    plan_all.execute().unwrap();
    assert_eq!(plan_all.output().rows_len(), 1000);
    assert_eq!(plan_all.blocks_read(), 167);
}
