use leafish::item::{read_from, read_head, skip_legacy_tag, write_head, write_to, Head, Stack};
use leafish::protocol::Error;

// A small tag codec for the tests: a zero byte for no tag; otherwise the
// byte 10, a length byte and that many bytes of text.
fn read_tag(buf: &[u8]) -> Result<(Option<String>, usize), Error> {
    match buf.first() {
        None => Err(Error::UnexpectedEof),
        Some(0) => Ok((None, 1)),
        Some(_) => {
            let len = *buf.get(1).ok_or(Error::UnexpectedEof)? as usize;
            let text = buf.get(2..2 + len).ok_or(Error::UnexpectedEof)?;
            Ok((Some(String::from_utf8(text.to_vec()).unwrap()), 2 + len))
        }
    }
}

fn write_tag(tag: &Option<String>) -> Result<Vec<u8>, Error> {
    match tag {
        None => Ok(vec![0]),
        Some(text) => {
            let mut out = vec![10, text.len() as u8];
            out.extend_from_slice(text.as_bytes());
            Ok(out)
        }
    }
}

fn encode(slot: &Option<Stack<String>>, version: i32) -> Vec<u8> {
    let mut out = Vec::new();
    write_to(slot, &mut out, version, write_tag).unwrap();
    out
}

fn decode(buf: &[u8], version: i32) -> (Option<Stack<String>>, usize) {
    read_from(buf, version, read_tag).unwrap()
}

fn populated(damage: Option<isize>) -> Option<Stack<String>> {
    Some(Stack {
        id: 1,
        count: 5,
        damage,
        tag: None,
    })
}

#[test]
fn empty_slot_round_trips_at_every_era_boundary() {
    for version in [46, 47, 403, 404] {
        let bytes = encode(&None, version);
        let (slot, consumed) = decode(&bytes, version);
        assert!(slot.is_none());
        assert_eq!(consumed, bytes.len());
    }
}

#[test]
fn populated_stack_round_trips_at_every_era_boundary() {
    for version in [46, 47, 403, 404] {
        for damage in [Some(0), None] {
            let bytes = encode(&populated(damage), version);
            let (slot, consumed) = decode(&bytes, version);
            let stack = slot.unwrap();
            assert_eq!(consumed, bytes.len());
            assert_eq!(stack.id, 1);
            assert_eq!(stack.count, 5);
            assert_eq!(stack.tag, None);
            if version >= 404 {
                assert_eq!(stack.damage, None);
            } else {
                assert_eq!(stack.damage, Some(0));
            }
        }
    }
}

#[test]
fn modern_layout() {
    assert_eq!(encode(&None, 404), vec![0]);
    assert_eq!(encode(&populated(Some(7)), 404), vec![1, 1, 5, 0]);
    let big = Some(Stack {
        id: 300,
        count: 64,
        damage: None,
        tag: Some("hi".to_string()),
    });
    assert_eq!(
        encode(&big, 404),
        vec![1, 0xAC, 0x02, 64, 10, 2, b'h', b'i']
    );
    let (slot, consumed) = decode(&[1, 0xAC, 0x02, 64, 10, 2, b'h', b'i', 99], 404);
    let stack = slot.unwrap();
    assert_eq!(consumed, 8);
    assert_eq!(stack.id, 300);
    assert_eq!(stack.count, 64);
    assert_eq!(stack.damage, None);
    assert_eq!(stack.tag, Some("hi".to_string()));
}

#[test]
fn mid_layout() {
    assert_eq!(encode(&None, 47), vec![0xFF, 0xFF]);
    assert_eq!(encode(&populated(None), 403), vec![0, 1, 5, 0, 0, 0]);
    let worn = Some(Stack {
        id: 0x0102,
        count: 3,
        damage: Some(-2),
        tag: Some("x".to_string()),
    });
    assert_eq!(
        encode(&worn, 47),
        vec![1, 2, 3, 0xFF, 0xFE, 10, 1, b'x']
    );
    let (slot, consumed) = decode(&[1, 2, 3, 0xFF, 0xFE, 10, 1, b'x'], 47);
    let stack = slot.unwrap();
    assert_eq!(consumed, 8);
    assert_eq!(stack.id, 0x0102);
    assert_eq!(stack.count, 3);
    assert_eq!(stack.damage, Some(-2));
    assert_eq!(stack.tag, Some("x".to_string()));
}

#[test]
fn legacy_layout_skips_the_tag() {
    assert_eq!(encode(&None, 46), vec![0xFF, 0xFF]);
    assert_eq!(
        encode(&populated(Some(9)), 46),
        vec![0, 1, 5, 0, 9, 0xFF, 0xFF]
    );
    let (slot, consumed) = decode(&[0, 1, 5, 0, 9, 0, 3, 7, 7, 7, 42], 46);
    let stack = slot.unwrap();
    assert_eq!(consumed, 10);
    assert_eq!(stack.id, 1);
    assert_eq!(stack.count, 5);
    assert_eq!(stack.damage, Some(9));
    assert_eq!(stack.tag, None);
    assert_eq!(skip_legacy_tag(&[9, 0xFF, 0xFF, 1], 1), Ok(2));
    assert_eq!(skip_legacy_tag(&[0, 2, 1], 0), Err(Error::UnexpectedEof));
}

#[test]
fn legacy_era_refuses_to_write_a_tag() {
    let tagged = Some(Stack {
        id: 1,
        count: 1,
        damage: None,
        tag: Some("x".to_string()),
    });
    let mut out = vec![7];
    assert_eq!(
        write_to(&tagged, &mut out, 46, write_tag),
        Err(Error::LegacyTag)
    );
    assert_eq!(out, vec![7]);
}

#[test]
fn short_input_is_an_unexpected_end() {
    assert_eq!(
        read_from(&[], 404, read_tag).unwrap_err(),
        Error::UnexpectedEof
    );
    assert_eq!(
        read_from(&[1, 0x80], 404, read_tag).unwrap_err(),
        Error::UnexpectedEof
    );
    assert_eq!(
        read_from(&[1, 5], 404, read_tag).unwrap_err(),
        Error::UnexpectedEof
    );
    assert_eq!(
        read_from(&[1, 5, 1], 404, read_tag).unwrap_err(),
        Error::UnexpectedEof
    );
    assert_eq!(
        read_from(&[0], 47, read_tag).unwrap_err(),
        Error::UnexpectedEof
    );
    assert_eq!(
        read_from(&[0, 1, 5, 0], 47, read_tag).unwrap_err(),
        Error::UnexpectedEof
    );
    assert_eq!(
        read_from(&[0, 1, 5, 0, 0, 0], 46, read_tag).unwrap_err(),
        Error::UnexpectedEof
    );
}

#[test]
fn over_long_var_int_is_refused() {
    assert_eq!(
        read_from(&[1, 0x80, 0x80, 0x80, 0x80, 0x80, 0x01], 404, read_tag).unwrap_err(),
        Error::VarIntTooBig
    );
}

#[test]
fn minus_one_id_is_an_empty_slot() {
    let (slot, consumed) = decode(&[1, 0xFF, 0xFF, 0xFF, 0xFF, 0x0F, 9, 9], 404);
    assert!(slot.is_none());
    assert_eq!(consumed, 6);
    assert_eq!(read_head(&[0xFF, 0xFF, 3], 47), Ok(Head::Empty { consumed: 2 }));
}

#[test]
fn negative_count_is_not_refused() {
    let odd = Some(Stack::<String> {
        id: 2,
        count: -1,
        damage: None,
        tag: None,
    });
    let mut out = Vec::new();
    write_head(&odd, &mut out, 47);
    assert_eq!(out, vec![0, 2, 0xFF, 0, 0]);
    assert_eq!(
        read_head(&out, 47),
        Ok(Head::Item {
            id: 2,
            count: 255,
            damage: Some(0),
            consumed: 5
        })
    );
}

#[test]
fn tag_codec_failure_is_handed_on() {
    let failing = |_: &[u8]| -> Result<(Option<String>, usize), Error> {
        Err(Error::Failed("bad tag".to_string()))
    };
    assert_eq!(
        read_from(&[0, 1, 5, 0, 0, 1], 47, failing).unwrap_err(),
        Error::Failed("bad tag".to_string())
    );
    let greedy = |_: &[u8]| -> Result<(Option<String>, usize), Error> { Ok((None, 9)) };
    assert_eq!(
        read_from(&[0, 1, 5, 0, 0, 1], 47, greedy).unwrap_err(),
        Error::UnexpectedEof
    );
}

#[test]
fn default_stack_is_the_empty_sentinel() {
    let stack = Stack::<String>::default();
    assert_eq!(stack.id, -1);
    assert_eq!(stack.count, 0);
    assert_eq!(stack.damage, None);
    assert_eq!(stack.tag, None);
}
