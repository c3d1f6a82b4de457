use hellodb::serialize::{
    i8_to_byte,
    i8_from_byte,
    i16_to_byte,
    i16_from_byte,
    string_to_byte,
    string_from_byte,
};

#[test]
fn vec_io_i8() {
    let v = Vec::<i8>::from([1, 2, 3, 4, 5]);
    let mut buff = Vec::<u8>::new();
    for x in v.iter() {
        i8_to_byte(*x, &mut buff);
    }
    assert_eq!(buff, Vec::<u8>::from([1, 2, 3, 4, 5]));
    let mut r = Vec::<i8>::new();
    let mut pos = 0usize;
    for _ in 0..v.len() {
        let (x, p) = i8_from_byte(&buff, pos).unwrap();
        r.push(x);
        pos = p;
    }
    assert_eq!(v, r);
}

#[test]
fn vec_io_i16() {
    let v = Vec::<i16>::from([1, 2, 3, 4, 5]);
    let mut buff = Vec::<u8>::new();
    for x in v.iter() {
        i16_to_byte(*x, &mut buff);
    }
    let mut r = Vec::<i16>::new();
    let mut pos = 0usize;
    for _ in 0..v.len() {
        let (x, p) = i16_from_byte(&buff, pos).unwrap();
        r.push(x);
        pos = p;
    }
    assert_eq!(v, r);
}

#[test]
fn single_io() {
    let v: i16 = 258;
    let mut buff = Vec::<u8>::new();
    i16_to_byte(v, &mut buff);
    let (r, _) = i16_from_byte(&buff, 0).unwrap();
    assert_eq!(v, r);
}

#[test]
fn string_vec_io() {
    let v = Vec::<String>::from([
        "1".to_string(),
        "231".to_string(),
        "a".to_string(),
        "bbbbb".to_string(),
    ]);
    let mut buff = Vec::<u8>::new();
    for s in v.iter() {
        string_to_byte(s.as_str(), &mut buff).unwrap();
    }
    let mut r = Vec::<String>::new();
    let mut pos = 0usize;
    for _ in 0..v.len() {
        let (s, p) = string_from_byte(&buff, pos).unwrap();
        r.push(s);
        pos = p;
    }
    assert_eq!(v, r);
}

#[test]
fn string_io() {
    let v = "Test Пи".to_string();
    let mut buff = Vec::<u8>::new();
    string_to_byte(v.as_str(), &mut buff).unwrap();
    let (r, _) = string_from_byte(&buff, 0).unwrap();
    assert_eq!(v, r);
}
