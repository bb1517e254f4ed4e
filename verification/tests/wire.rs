use leafish::protocol::wire::{read_i16, read_u8, read_var_int, write_i16, write_var_int};
use leafish::protocol::Error;

fn var_int(v: i32) -> Vec<u8> {
    let mut out = Vec::new();
    write_var_int(&mut out, v);
    out
}

#[test]
fn var_int_known_encodings() {
    assert_eq!(var_int(0), vec![0x00]);
    assert_eq!(var_int(1), vec![0x01]);
    assert_eq!(var_int(127), vec![0x7f]);
    assert_eq!(var_int(128), vec![0x80, 0x01]);
    assert_eq!(var_int(255), vec![0xff, 0x01]);
    assert_eq!(var_int(300), vec![0xac, 0x02]);
    assert_eq!(var_int(25565), vec![0xdd, 0xc7, 0x01]);
    assert_eq!(var_int(2097151), vec![0xff, 0xff, 0x7f]);
    assert_eq!(var_int(i32::MAX), vec![0xff, 0xff, 0xff, 0xff, 0x07]);
    assert_eq!(var_int(-1), vec![0xff, 0xff, 0xff, 0xff, 0x0f]);
    assert_eq!(var_int(i32::MIN), vec![0x80, 0x80, 0x80, 0x80, 0x08]);
}

#[test]
fn var_int_round_trips() {
    for v in [0, 1, -1, 127, 128, 300, 25565, i32::MAX, i32::MIN, -123456] {
        let mut bytes = vec![9];
        write_var_int(&mut bytes, v);
        let len = bytes.len() - 1;
        bytes.push(0x55);
        assert_eq!(read_var_int(&bytes, 1), Ok((v, len)));
    }
}

#[test]
fn var_int_errors() {
    assert_eq!(read_var_int(&[], 0), Err(Error::UnexpectedEof));
    assert_eq!(read_var_int(&[0x80, 0x80], 0), Err(Error::UnexpectedEof));
    assert_eq!(read_var_int(&[1, 0x80], 2), Err(Error::UnexpectedEof));
    assert_eq!(
        read_var_int(&[0x80, 0x80, 0x80, 0x80, 0x80], 0),
        Err(Error::VarIntTooBig)
    );
    assert_eq!(
        read_var_int(&[0xff, 0xff, 0xff, 0xff, 0xff, 0x01], 0),
        Err(Error::VarIntTooBig)
    );
    assert_eq!(
        read_var_int(&[0xff, 0xff, 0xff, 0xff, 0x7f], 0),
        Ok((-1, 5))
    );
}

#[test]
fn i16_is_big_endian() {
    let mut out = vec![7];
    write_i16(&mut out, 0x0102);
    write_i16(&mut out, -1);
    write_i16(&mut out, -5000);
    write_i16(&mut out, i16::MIN);
    assert_eq!(out, vec![7, 1, 2, 0xff, 0xff, 0xec, 0x78, 0x80, 0x00]);
    assert_eq!(read_i16(&out, 1), Ok((0x0102, 2)));
    assert_eq!(read_i16(&out, 3), Ok((-1, 2)));
    assert_eq!(read_i16(&out, 5), Ok((-5000, 2)));
    assert_eq!(read_i16(&out, 7), Ok((i16::MIN, 2)));
    assert_eq!(read_i16(&out, 8), Err(Error::UnexpectedEof));
    assert_eq!(read_i16(&out, 9), Err(Error::UnexpectedEof));
}

#[test]
fn single_bytes() {
    assert_eq!(read_u8(&[4, 5], 1), Ok((5, 1)));
    assert_eq!(read_u8(&[4, 5], 2), Err(Error::UnexpectedEof));
}
