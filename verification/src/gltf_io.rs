//! Byte layouts used when writing glTF buffers.

use vstd::prelude::*;

verus! {

/// The glTF component type of unsigned 16-bit indices.
pub const UNSIGNED_SHORT: u32 = 5123;

/// The glTF component type of unsigned 32-bit indices.
pub const UNSIGNED_INT: u32 = 5125;

/// The two little-endian bytes of `x`.
pub open spec fn le_bytes_u16(x: u16) -> Seq<u8> {
    seq![(x % 256) as u8, (x / 256) as u8]
}

/// The four little-endian bytes of `x`.
pub open spec fn le_bytes_u32(x: u32) -> Seq<u8> {
    seq![(x % 256) as u8, ((x / 256) % 256) as u8, ((x / 65536) % 256) as u8, (x / 16777216) as u8]
}

/// The first `k` indices as little-endian bytes: two each (cut to 16 bits) when
/// `short`, four each otherwise.
pub open spec fn index_bytes(indices: Seq<u32>, k: int, short: bool) -> Seq<u8>
    decreases k,
{
    if k <= 0 {
        Seq::empty()
    } else {
        index_bytes(indices, k - 1, short) + if short {
            le_bytes_u16(indices[k - 1] as u16)
        } else {
            le_bytes_u32(indices[k - 1])
        }
    }
}

/// The index buffer of a mesh with `vertex_count` vertices and its component
/// type: 16-bit indices when the vertices can be numbered in 16 bits, else 32-bit.
pub fn encode_indices(indices: &[u32], vertex_count: usize) -> (r: Result<(Vec<u8>, u32), String>)
    ensures
        r matches Ok(out) && ({
            let short = vertex_count <= u16::MAX;
            &&& out.0@ == index_bytes(indices@, indices@.len() as int, short)
            &&& out.1 == if short { UNSIGNED_SHORT } else { UNSIGNED_INT }
        }),
{
    let short = vertex_count <= 0xffff;
    let mut bytes: Vec<u8> = Vec::new();
    let mut k: usize = 0;
    while k < indices.len()
        invariant
            0 <= k <= indices@.len(),
            short == (vertex_count <= u16::MAX),
            bytes@ == index_bytes(indices@, k as int, short),
        decreases indices@.len() - k,
    {
        let ghost before = bytes@;
        if short {
            #[verifier::truncate]
            let x = indices[k] as u16;
            bytes.push((x % 256) as u8);
            bytes.push((x / 256) as u8);
            assert(bytes@ =~= before + le_bytes_u16(x));
        } else {
            let x = indices[k];
            bytes.push((x % 256) as u8);
            bytes.push(((x / 256) % 256) as u8);
            bytes.push(((x / 65536) % 256) as u8);
            bytes.push((x / 16777216) as u8);
            assert(bytes@ =~= before + le_bytes_u32(x));
        }
        k = k + 1;
    }
    let code = if short { UNSIGNED_SHORT } else { UNSIGNED_INT };
    Ok((bytes, code))
}

/// Pads a buffer with zero bytes to a multiple of four bytes.
pub fn align_to_four(buffer: &mut Vec<u8>)
    ensures
        final(buffer)@.len() % 4 == 0,
        final(buffer)@.len() < old(buffer)@.len() + 4,
        final(buffer)@.take(old(buffer)@.len() as int) == old(buffer)@,
        forall|i: int| old(buffer)@.len() <= i < final(buffer)@.len() ==> #[trigger] final(buffer)@[i] == 0,
        old(buffer)@.len() % 4 == 0 ==> final(buffer)@ == old(buffer)@,
{
    let padding = (4 - (buffer.len() % 4)) % 4;
    let ghost start = buffer@;
    let mut k: usize = 0;
    while k < padding
        invariant
            0 <= k <= padding,
            padding == (4 - (start.len() % 4)) % 4,
            buffer@.len() == start.len() + k,
            buffer@.take(start.len() as int) == start,
            forall|i: int| start.len() <= i < buffer@.len() ==> #[trigger] buffer@[i] == 0,
        decreases padding - k,
    {
        buffer.push(0);
        k = k + 1;
        assert(buffer@.take(start.len() as int) =~= start);
    }
    proof {
        if start.len() % 4 == 0 {
            assert(buffer@ =~= start);
        }
    }
}

} // verus!
