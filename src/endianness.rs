use vstd::prelude::*;

use crate::datagram::{le_u16, le_u32, le_u64};

verus! {

/// `v` with its two bytes in the opposite order.
pub open spec fn byte_swap_16(v: u16) -> u16 {
    ((v & 0x00ff) << 8) | ((v & 0xff00) >> 8)
}

/// `v` with its four bytes in the opposite order.
pub open spec fn byte_swap_32(v: u32) -> u32 {
    ((v & 0x000000ff) << 24) | ((v & 0x0000ff00) << 8) | ((v & 0x00ff0000) >> 8) | ((v
        & 0xff000000) >> 24)
}

/// `v` with its eight bytes in the opposite order.
pub open spec fn byte_swap_64(v: u64) -> u64 {
    ((v & 0x00000000000000ff) << 56) | ((v & 0x000000000000ff00) << 40) | ((v
        & 0x0000000000ff0000) << 24) | ((v & 0x00000000ff000000) << 8) | ((v
        & 0x000000ff00000000) >> 8) | ((v & 0x0000ff0000000000) >> 24) | ((v
        & 0x00ff000000000000) >> 40) | ((v & 0xff00000000000000) >> 56)
}

/// Relies on u16::to_ne_bytes: the bytes of 1 in the host's byte order, which
/// is either least or most significant byte first.
#[verifier::external_body]
fn native_bytes_of_one() -> (r: [u8; 2])
    ensures
        r@ == seq![1u8, 0u8] || r@ == seq![0u8, 1u8],
{
    1u16.to_ne_bytes()
}

/// Whether the host stores the most significant byte first.
fn host_is_big_endian() -> bool {
    let b: [u8; 2] = native_bytes_of_one();
    b[0] == 0
}

pub fn swap_bytes_16(v: u16) -> (r: u16)
    ensures
        r == byte_swap_16(v),
{
    ((v & 0x00ff) << 8) | ((v & 0xff00) >> 8)
}

pub fn swap_bytes_32(v: u32) -> (r: u32)
    ensures
        r == byte_swap_32(v),
{
    ((v & 0x000000ff) << 24) | ((v & 0x0000ff00) << 8) | ((v & 0x00ff0000) >> 8) | ((v
        & 0xff000000) >> 24)
}

pub fn swap_bytes_64(v: u64) -> (r: u64)
    ensures
        r == byte_swap_64(v),
{
    ((v & 0x00000000000000ff) << 56) | ((v & 0x000000000000ff00) << 40) | ((v
        & 0x0000000000ff0000) << 24) | ((v & 0x00000000ff000000) << 8) | ((v
        & 0x000000ff00000000) >> 8) | ((v & 0x0000ff0000000000) >> 24) | ((v
        & 0x00ff000000000000) >> 40) | ((v & 0xff00000000000000) >> 56)
}

/// Converts between the byte order of a host, big-endian or not, and
/// little-endian order: a byte swap on a big-endian host, the identity otherwise.
pub fn swap_le_16_for(host_big_endian: bool, v: u16) -> (r: u16)
    ensures
        r == if host_big_endian {
            byte_swap_16(v)
        } else {
            v
        },
{
    if host_big_endian {
        swap_bytes_16(v)
    } else {
        v
    }
}

/// Converts between this host's byte order and little-endian order.
pub fn swap_le_16(v: u16) -> (r: u16)
    ensures
        r == v || r == byte_swap_16(v),
{
    swap_le_16_for(host_is_big_endian(), v)
}

/// Converts between the byte order of a host, big-endian or not, and
/// little-endian order: a byte swap on a big-endian host, the identity otherwise.
pub fn swap_le_32_for(host_big_endian: bool, v: u32) -> (r: u32)
    ensures
        r == if host_big_endian {
            byte_swap_32(v)
        } else {
            v
        },
{
    if host_big_endian {
        swap_bytes_32(v)
    } else {
        v
    }
}

/// Converts between this host's byte order and little-endian order.
pub fn swap_le_32(v: u32) -> (r: u32)
    ensures
        r == v || r == byte_swap_32(v),
{
    swap_le_32_for(host_is_big_endian(), v)
}

/// Converts between the byte order of a host, big-endian or not, and
/// little-endian order: a byte swap on a big-endian host, the identity otherwise.
pub fn swap_le_64_for(host_big_endian: bool, v: u64) -> (r: u64)
    ensures
        r == if host_big_endian {
            byte_swap_64(v)
        } else {
            v
        },
{
    if host_big_endian {
        swap_bytes_64(v)
    } else {
        v
    }
}

/// Converts between this host's byte order and little-endian order.
pub fn swap_le_64(v: u64) -> (r: u64)
    ensures
        r == v || r == byte_swap_64(v),
{
    swap_le_64_for(host_is_big_endian(), v)
}

/// A byte swap reverses the wire bytes of a value, and undoes itself.
pub proof fn lemma_byte_swap_reverses(a: u16, b: u32, c: u64)
    ensures
        le_u16(byte_swap_16(a)) == le_u16(a).reverse(),
        le_u32(byte_swap_32(b)) == le_u32(b).reverse(),
        le_u64(byte_swap_64(c)) == le_u64(c).reverse(),
        byte_swap_16(byte_swap_16(a)) == a,
        byte_swap_32(byte_swap_32(b)) == b,
        byte_swap_64(byte_swap_64(c)) == c,
{
    assert(byte_swap_16(byte_swap_16(a)) == a) by (bit_vector);
    assert(byte_swap_32(byte_swap_32(b)) == b) by (bit_vector);
    assert(byte_swap_64(byte_swap_64(c)) == c) by (bit_vector);
    let x = byte_swap_16(a);
    assert(x as u8 == (a >> 8) as u8 && (x >> 8) as u8 == a as u8) by (bit_vector)
        requires
            x == byte_swap_16(a),
    ;
    assert(le_u16(x) =~= le_u16(a).reverse());
    let y = byte_swap_32(b);
    assert(y as u8 == (b >> 24) as u8 && (y >> 8) as u8 == (b >> 16) as u8 && (y >> 16) as u8 == (
    b >> 8) as u8 && (y >> 24) as u8 == b as u8) by (bit_vector)
        requires
            y == byte_swap_32(b),
    ;
    assert(le_u32(y) =~= le_u32(b).reverse());
    let z = byte_swap_64(c);
    assert(z as u8 == (c >> 56) as u8 && (z >> 8) as u8 == (c >> 48) as u8 && (z >> 16) as u8 == (
    c >> 40) as u8 && (z >> 24) as u8 == (c >> 32) as u8 && (z >> 32) as u8 == (c >> 24) as u8 && (
    z >> 40) as u8 == (c >> 16) as u8 && (z >> 48) as u8 == (c >> 8) as u8 && (z >> 56) as u8
        == c as u8) by (bit_vector)
        requires
            z == byte_swap_64(c),
    ;
    assert(le_u64(z) =~= le_u64(c).reverse());
}

} // verus!
