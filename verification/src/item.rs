//! Item stacks and their wire format, which depends on the protocol version
//! that was agreed on for the connection.
//!
//! There are three eras. From version 404 on a presence byte comes first,
//! the id is a variable-length integer and the damage lives in the tag. From
//! 47 up to 403 the id is a big-endian 16-bit integer, `-1` for an empty
//! slot, and the damage is a field of its own. Before 47 the layout is the
//! same, but the tag is compressed and length-prefixed: it is recognized and
//! skipped, not decoded.
//!
//! The tag itself is read and written by the caller's tag codec, which is
//! handed in as a function.

use crate::protocol::error::Error;
use crate::protocol::wire::{
    i16_wire, lemma_i16_round_trip, lemma_var_int_end_bound, lemma_var_int_round_trip, parse_i16,
    parse_u8, parse_var_int, read_i16, read_u8, read_var_int, var_int_wire, write_i16,
    write_var_int,
};
use vstd::prelude::*;
use vstd::slice::slice_subrange;

verus! {

/// The first protocol version whose stacks carry a tag in the named-tag
/// format.
pub const NAMED_TAG_VERSION: i32 = 47;

/// The first protocol version whose stacks start with a presence byte.
pub const PRESENCE_BYTE_VERSION: i32 = 404;

/// What an inventory slot holds: an item, how many, and its extended data.
#[derive(Debug, Clone)]
pub struct Stack<T> {
    pub id: isize,
    pub count: isize,
    pub damage: Option<isize>,
    pub tag: Option<T>,
}

impl<T> Default for Stack<T> {
    fn default() -> (stack: Stack<T>)
        ensures
            stack == (Stack::<T> { id: -1isize, count: 0isize, damage: None, tag: None }),
    {
        Stack { id: -1, count: 0, damage: None, tag: None }
    }
}

/// The fixed fields at the front of an encoded slot, and how many bytes they
/// took.
#[derive(Debug, Clone, Copy, PartialEq, Eq)]
pub enum Head {
    /// The slot is empty; nothing follows.
    Empty { consumed: usize },
    /// The slot holds an item; its tag follows.
    Item { id: isize, count: isize, damage: Option<isize>, consumed: usize },
}

impl Head {
    /// How many bytes the head took.
    pub open spec fn consumed(self) -> usize {
        match self {
            Head::Empty { consumed } => consumed,
            Head::Item { consumed, .. } => consumed,
        }
    }
}

/// The head read from the front of `bytes`.
///
/// An id of `-1` means an empty slot in every era, and reading stops behind
/// it.
pub open spec fn parse_head(version: int, bytes: Seq<u8>) -> Result<Head, Error> {
    if version >= PRESENCE_BYTE_VERSION {
        match parse_u8(bytes) {
            Err(e) => Err(e),
            Ok((present, _)) => if present == 0 {
                Ok(Head::Empty { consumed: 1 })
            } else {
                match parse_var_int(bytes.skip(1)) {
                    Err(e) => Err(e),
                    Ok((id, n)) => if id == -1 {
                        Ok(Head::Empty { consumed: (1 + n) as usize })
                    } else {
                        match parse_u8(bytes.skip(1 + n)) {
                            Err(e) => Err(e),
                            Ok((count, _)) => Ok(
                                Head::Item {
                                    id: id as isize,
                                    count: count as isize,
                                    damage: None,
                                    consumed: (1 + n + 1) as usize,
                                },
                            ),
                        }
                    },
                }
            },
        }
    } else {
        match parse_i16(bytes) {
            Err(e) => Err(e),
            Ok((id, _)) => if id == -1 {
                Ok(Head::Empty { consumed: 2 })
            } else {
                match parse_u8(bytes.skip(2)) {
                    Err(e) => Err(e),
                    Ok((count, _)) => match parse_i16(bytes.skip(3)) {
                        Err(e) => Err(e),
                        Ok((damage, _)) => Ok(
                            Head::Item {
                                id: id as isize,
                                count: count as isize,
                                damage: Some(damage as isize),
                                consumed: 5,
                            },
                        ),
                    },
                }
            },
        }
    }
}

/// How many bytes the legacy tag at the front of `bytes` takes: a big-endian
/// 16-bit length and, where that is not negative, as many bytes as it says.
pub open spec fn parse_legacy_tag(bytes: Seq<u8>) -> Result<usize, Error> {
    match parse_i16(bytes) {
        Err(e) => Err(e),
        Ok((len, _)) => if len < 0 {
            Ok(2usize)
        } else if bytes.len() < 2 + len {
            Err(Error::UnexpectedEof)
        } else {
            Ok((2 + len) as usize)
        },
    }
}

/// The slot that the head of an item and the tag read behind it make, where
/// `avail` bytes stood behind the head: the error of the tag codec is handed
/// on, and a tag that claims more bytes than there were is a short read.
pub open spec fn with_tag<T>(
    head: Head,
    avail: nat,
    tag_read: Result<(Option<T>, usize), Error>,
) -> Result<(Option<Stack<T>>, usize), Error>
    recommends
        head is Item,
{
    match tag_read {
        Err(e) => Err(e),
        Ok((tag, n)) => if n > avail {
            Err(Error::UnexpectedEof)
        } else {
            Ok(
                (
                    Some(
                        Stack {
                            id: head->id,
                            count: head->count,
                            damage: head->damage,
                            tag,
                        },
                    ),
                    (head->Item_consumed + n) as usize,
                ),
            )
        },
    }
}

/// The slot that the head of an item and the legacy tag skipped behind it
/// make: the tag is dropped.
pub open spec fn with_legacy_tag<T>(head: Head, skipped: Result<usize, Error>) -> Result<
    (Option<Stack<T>>, usize),
    Error,
>
    recommends
        head is Item,
{
    match skipped {
        Err(e) => Err(e),
        Ok(n) => Ok(
            (
                Some(
                    Stack {
                        id: head->id,
                        count: head->count,
                        damage: head->damage,
                        tag: None,
                    },
                ),
                (head->Item_consumed + n) as usize,
            ),
        ),
    }
}

/// The bytes of the head of a slot. Fields wider than the format are cut to
/// its width; no value is refused.
pub open spec fn head_wire<T>(version: int, slot: Option<Stack<T>>) -> Seq<u8> {
    if version >= PRESENCE_BYTE_VERSION {
        match slot {
            None => seq![0u8],
            Some(stack) => seq![1u8] + var_int_wire(stack.id as i32) + seq![stack.count as u8],
        }
    } else {
        match slot {
            None => i16_wire(-1i16),
            Some(stack) => i16_wire(stack.id as i16) + seq![stack.count as u8] + i16_wire(
                (match stack.damage {
                    Some(damage) => damage,
                    None => 0,
                }) as i16,
            ),
        }
    }
}

/// The bytes that stand for "no tag" in the legacy era: the length `-1`.
pub open spec fn legacy_no_tag() -> Seq<u8> {
    i16_wire(-1i16)
}

/// A head takes no more bytes than there are.
pub proof fn lemma_head_within(version: int, bytes: Seq<u8>)
    ensures
        parse_head(version, bytes) matches Ok(head) ==> head.consumed() <= bytes.len(),
{
    if version >= PRESENCE_BYTE_VERSION && bytes.len() >= 1 {
        lemma_var_int_end_bound(bytes.skip(1), 0);
    }
}

/// Reads the head of a slot from the front of `buf`.
pub fn read_head(buf: &[u8], protocol_version: i32) -> (r: Result<Head, Error>)
    ensures
        r == parse_head(protocol_version as int, buf@),
        r matches Ok(head) ==> head.consumed() <= buf@.len(),
{
    proof {
        lemma_head_within(protocol_version as int, buf@);
    }
    assert(buf@.skip(0) =~= buf@);
    if protocol_version >= PRESENCE_BYTE_VERSION {
        let present = match read_u8(buf, 0) {
            Ok((b, _)) => b,
            Err(e) => {
                return Err(e);
            },
        };
        if present == 0 {
            return Ok(Head::Empty { consumed: 1 });
        }
        let (id, n) = match read_var_int(buf, 1) {
            Ok(read) => read,
            Err(e) => {
                return Err(e);
            },
        };
        if id == -1 {
            return Ok(Head::Empty { consumed: 1 + n });
        }
        let count = match read_u8(buf, 1 + n) {
            Ok((b, _)) => b,
            Err(e) => {
                return Err(e);
            },
        };
        Ok(Head::Item { id: id as isize, count: count as isize, damage: None, consumed: 1 + n + 1 })
    } else {
        let id = match read_i16(buf, 0) {
            Ok((id, _)) => id,
            Err(e) => {
                return Err(e);
            },
        };
        if id == -1 {
            return Ok(Head::Empty { consumed: 2 });
        }
        let count = match read_u8(buf, 2) {
            Ok((b, _)) => b,
            Err(e) => {
                return Err(e);
            },
        };
        let damage = match read_i16(buf, 3) {
            Ok((damage, _)) => damage,
            Err(e) => {
                return Err(e);
            },
        };
        Ok(
            Head::Item {
                id: id as isize,
                count: count as isize,
                damage: Some(damage as isize),
                consumed: 5,
            },
        )
    }
}

/// Skips the legacy tag at `pos` and says how many bytes it took.
pub fn skip_legacy_tag(buf: &[u8], pos: usize) -> (r: Result<usize, Error>)
    requires
        pos <= buf@.len(),
    ensures
        r == parse_legacy_tag(buf@.skip(pos as int)),
{
    let len = match read_i16(buf, pos) {
        Ok((len, _)) => len,
        Err(e) => {
            return Err(e);
        },
    };
    if len < 0 {
        Ok(2)
    } else if buf.len() - pos - 2 < len as usize {
        Err(Error::UnexpectedEof)
    } else {
        Ok(2 + len as usize)
    }
}

/// Puts the tag that was read behind the head of an item into the slot.
pub fn finish_item<T>(head: Head, avail: usize, tag_read: Result<(Option<T>, usize), Error>) -> (r:
    Result<(Option<Stack<T>>, usize), Error>)
    requires
        head is Item,
        head->Item_consumed + avail <= usize::MAX,
    ensures
        r == with_tag(head, avail as nat, tag_read),
{
    match head {
        Head::Item { id, count, damage, consumed } => match tag_read {
            Err(e) => Err(e),
            Ok((tag, n)) => if n > avail {
                Err(Error::UnexpectedEof)
            } else {
                Ok((Some(Stack { id, count, damage, tag }), consumed + n))
            },
        },
        Head::Empty { consumed } => Ok((None, consumed)),
    }
}

/// Reads a slot from the front of `buf` and says how many bytes it took.
///
/// `read_tag` is the tag codec: it is given the bytes behind the head and
/// returns the tag and the number of bytes the tag took. It is called only
/// for an item of version 47 or later.
pub fn read_from<T, F>(buf: &[u8], protocol_version: i32, read_tag: F) -> (r: Result<
    (Option<Stack<T>>, usize),
    Error,
>) where F: FnOnce(&[u8]) -> Result<(Option<T>, usize), Error>
    requires
        forall|rest: &[u8]| read_tag.requires((rest,)),
    ensures
        match parse_head(protocol_version as int, buf@) {
            Err(e) => r == Err::<(Option<Stack<T>>, usize), Error>(e),
            Ok(Head::Empty { consumed }) => r == Ok::<(Option<Stack<T>>, usize), Error>(
                (None, consumed),
            ),
            Ok(head) => if protocol_version >= NAMED_TAG_VERSION {
                exists|rest: &[u8], tag_read: Result<(Option<T>, usize), Error>|
                    {
                        &&& rest@ == buf@.skip(head->Item_consumed as int)
                        &&& #[trigger] read_tag.ensures((rest,), tag_read)
                        &&& r == with_tag(head, rest@.len(), tag_read)
                    }
            } else {
                r == with_legacy_tag::<T>(
                    head,
                    parse_legacy_tag(buf@.skip(head->Item_consumed as int)),
                )
            },
        },
{
    let head = match read_head(buf, protocol_version) {
        Ok(head) => head,
        Err(e) => {
            return Err(e);
        },
    };
    match head {
        Head::Empty { consumed } => Ok((None, consumed)),
        Head::Item { id, count, damage, consumed } => {
            if protocol_version >= NAMED_TAG_VERSION {
                let rest = slice_subrange(buf, consumed, buf.len());
                assert(rest@ =~= buf@.skip(consumed as int));
                let tag_read = read_tag(rest);
                finish_item(head, rest.len(), tag_read)
            } else {
                match skip_legacy_tag(buf, consumed) {
                    Ok(n) => Ok((Some(Stack { id, count, damage, tag: None }), consumed + n)),
                    Err(e) => Err(e),
                }
            }
        },
    }
}

/// Appends the head of a slot.
pub fn write_head<T>(slot: &Option<Stack<T>>, out: &mut Vec<u8>, protocol_version: i32)
    ensures
        final(out)@ == old(out)@ + head_wire(protocol_version as int, *slot),
{
    if protocol_version >= PRESENCE_BYTE_VERSION {
        match slot {
            Some(stack) => {
                out.push(1);
                write_var_int(out, #[verifier::truncate] (stack.id as i32));
                out.push(#[verifier::truncate] (stack.count as u8));
            },
            None => {
                out.push(0);
            },
        }
    } else {
        match slot {
            Some(stack) => {
                write_i16(out, #[verifier::truncate] (stack.id as i16));
                out.push(#[verifier::truncate] (stack.count as u8));
                let damage: isize = match stack.damage {
                    Some(damage) => damage,
                    None => 0,
                };
                write_i16(out, #[verifier::truncate] (damage as i16));
            },
            None => {
                write_i16(out, -1);
            },
        }
    }
    assert(out@ =~= old(out)@ + head_wire(protocol_version as int, *slot));
}

/// Appends a slot.
///
/// `write_tag` is the tag codec: it is given the tag and returns its bytes,
/// those of "no tag" too. It is called only for an item of version 47 or
/// later, and where it fails nothing is appended. Before version 47 an item
/// without a tag gets the legacy "no tag" length, and one with a tag is
/// refused.
pub fn write_to<T, F>(
    slot: &Option<Stack<T>>,
    out: &mut Vec<u8>,
    protocol_version: i32,
    write_tag: F,
) -> (r: Result<(), Error>) where F: FnOnce(&Option<T>) -> Result<Vec<u8>, Error>
    requires
        forall|tag: &Option<T>| write_tag.requires((tag,)),
    ensures
        match *slot {
            None => r == Ok::<(), Error>(()) && final(out)@ == old(out)@ + head_wire(
                protocol_version as int,
                *slot,
            ),
            Some(stack) => if protocol_version >= NAMED_TAG_VERSION {
                exists|written: Result<Vec<u8>, Error>|
                    {
                        &&& #[trigger] write_tag.ensures((&stack.tag,), written)
                        &&& match written {
                            Ok(bytes) => r == Ok::<(), Error>(()) && final(out)@ == old(out)@
                                + head_wire(protocol_version as int, *slot) + bytes@,
                            Err(e) => r == Err::<(), Error>(e) && final(out)@ == old(out)@,
                        }
                    }
            } else if stack.tag is Some {
                r == Err::<(), Error>(Error::LegacyTag) && final(out)@ == old(out)@
            } else {
                r == Ok::<(), Error>(()) && final(out)@ == old(out)@ + head_wire(
                    protocol_version as int,
                    *slot,
                ) + legacy_no_tag()
            },
        },
{
    match slot {
        None => {
            write_head(slot, out, protocol_version);
            Ok(())
        },
        Some(stack) => {
            if protocol_version >= NAMED_TAG_VERSION {
                match write_tag(&stack.tag) {
                    Ok(bytes) => {
                        write_head(slot, out, protocol_version);
                        out.extend_from_slice(bytes.as_slice());
                        Ok(())
                    },
                    Err(e) => Err(e),
                }
            } else if stack.tag.is_some() {
                Err(Error::LegacyTag)
            } else {
                write_head(slot, out, protocol_version);
                write_i16(out, -1);
                Ok(())
            }
        },
    }
}

/// Whether every field of a stack fits the wire format of a version, so
/// that writing cuts nothing off, and the id is not the one that marks an
/// empty slot.
pub open spec fn fits<T>(version: int, stack: Stack<T>) -> bool {
    &&& stack.id != -1
    &&& 0 <= stack.count <= 255
    &&& if version >= PRESENCE_BYTE_VERSION {
        i32::MIN <= stack.id <= i32::MAX
    } else {
        &&& i16::MIN <= stack.id <= i16::MAX
        &&& stack.damage matches Some(damage) ==> i16::MIN <= damage <= i16::MAX
    }
}

/// The damage that a version's format keeps: none from version 404 on, and
/// before that the damage, or zero where none was set.
pub open spec fn kept_damage(version: int, damage: Option<isize>) -> Option<isize> {
    if version >= PRESENCE_BYTE_VERSION {
        None
    } else {
        match damage {
            Some(damage) => Some(damage),
            None => Some(0),
        }
    }
}

/// An empty slot reads back as an empty slot in every version, whatever
/// follows it.
pub proof fn lemma_empty_round_trip<T>(version: int, rest: Seq<u8>)
    ensures
        parse_head(version, head_wire::<T>(version, None) + rest) == Ok::<Head, Error>(
            Head::Empty { consumed: head_wire::<T>(version, None).len() as usize },
        ),
{
    let wire = head_wire::<T>(version, None);
    if version >= PRESENCE_BYTE_VERSION {
        assert((wire + rest)[0] == 0);
    } else {
        lemma_i16_round_trip(-1i16, rest);
    }
}

/// The head of a stack that fits reads back as it was written, but for the
/// damage, of which the version's format keeps what `kept_damage` says.
pub proof fn lemma_head_round_trip<T>(version: int, stack: Stack<T>, rest: Seq<u8>)
    requires
        fits(version, stack),
    ensures
        head_wire(version, Some(stack)).len() <= 7,
        parse_head(version, head_wire(version, Some(stack)) + rest) == Ok::<Head, Error>(
            Head::Item {
                id: stack.id,
                count: stack.count,
                damage: kept_damage(version, stack.damage),
                consumed: head_wire(version, Some(stack)).len() as usize,
            },
        ),
{
    let wire = head_wire(version, Some(stack));
    let bytes = wire + rest;
    let count = seq![stack.count as u8];
    if version >= PRESENCE_BYTE_VERSION {
        let id = var_int_wire(stack.id as i32);
        lemma_var_int_round_trip(stack.id as i32, count + rest);
        assert(bytes[0] == 1);
        assert(bytes.skip(1) =~= id + (count + rest));
        assert(bytes.skip(1 + id.len() as int) =~= count + rest);
    } else {
        let damage: isize = match stack.damage {
            Some(damage) => damage,
            None => 0,
        };
        let id = i16_wire(stack.id as i16);
        lemma_i16_round_trip(stack.id as i16, count + i16_wire(damage as i16) + rest);
        lemma_i16_round_trip(damage as i16, rest);
        assert(bytes =~= id + (count + i16_wire(damage as i16) + rest));
        assert(bytes.skip(2) =~= count + i16_wire(damage as i16) + rest);
        assert(bytes.skip(3) =~= i16_wire(damage as i16) + rest);
    }
}

/// A stack that fits, written and read in the same version, comes back as
/// it was, with the damage that the version keeps.
///
/// From version 47 on this holds of every tag codec that, given the bytes it
/// wrote for the tag and what follows them, returns the tag and the number
/// of those bytes. Before version 47 it holds of a stack without a tag.
pub proof fn lemma_stack_round_trip<T>(
    version: int,
    stack: Stack<T>,
    tag_bytes: Seq<u8>,
    rest: Seq<u8>,
)
    requires
        fits(version, stack),
        version < NAMED_TAG_VERSION ==> stack.tag is None && tag_bytes == legacy_no_tag(),
        head_wire(version, Some(stack)).len() + tag_bytes.len() <= usize::MAX,
    ensures
        ({
            let head_len = head_wire(version, Some(stack)).len();
            let wire = head_wire(version, Some(stack)) + tag_bytes + rest;
            let back = Stack {
                id: stack.id,
                count: stack.count,
                damage: kept_damage(version, stack.damage),
                tag: stack.tag,
            };
            let all = Ok::<(Option<Stack<T>>, usize), Error>(
                (Some(back), (head_len + tag_bytes.len()) as usize),
            );
            &&& parse_head(version, wire) matches Ok(head)
            &&& head is Item
            &&& wire.skip(head->Item_consumed as int) == tag_bytes + rest
            &&& version >= NAMED_TAG_VERSION ==> with_tag(
                head,
                (tag_bytes + rest).len(),
                Ok((stack.tag, tag_bytes.len() as usize)),
            ) == all
            &&& version < NAMED_TAG_VERSION ==> with_legacy_tag::<T>(
                head,
                parse_legacy_tag(wire.skip(head->Item_consumed as int)),
            ) == all
        }),
{
    let head_bytes = head_wire(version, Some(stack));
    let wire = head_bytes + tag_bytes + rest;
    lemma_head_round_trip(version, stack, tag_bytes + rest);
    assert(wire =~= head_bytes + (tag_bytes + rest));
    assert(wire.skip(head_bytes.len() as int) =~= tag_bytes + rest);
    if version < NAMED_TAG_VERSION {
        lemma_i16_round_trip(-1i16, rest);
    }
}

} // verus!
