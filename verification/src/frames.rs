//! The shape of a processed frame: a PNG's dimensions read from its header.
use vstd::prelude::*;

verus! {

/// A big-endian 32-bit value from four bytes.
pub open spec fn big_endian(b: Seq<u8>, at: int) -> int {
    b[at] * 16777216 + b[at + 1] * 65536 + b[at + 2] * 256 + b[at + 3]
}

/// At least 24 bytes, the first of which carry the PNG signature and an
/// `IHDR` chunk.
pub open spec fn png_header(h: Seq<u8>) -> bool {
    &&& h.len() >= 24
    &&& h.subrange(0, 8) == seq![0x89u8, 0x50u8, 0x4Eu8, 0x47u8, 0x0Du8, 0x0Au8, 0x1Au8, 0x0Au8]
    &&& h.subrange(12, 16) == seq![0x49u8, 0x48u8, 0x44u8, 0x52u8]
}

fn be_u32(h: &[u8], at: usize) -> (r: u32)
    requires
        at + 4 <= h@.len(),
    ensures
        r == big_endian(h@, at as int),
{
    (h[at] as u32) * 16777216 + (h[at + 1] as u32) * 65536 + (h[at + 2] as u32) * 256 + (h[at + 3] as u32)
}

/// The width and height a PNG's first 24 bytes declare, or `None` when
/// there are fewer bytes, they are not a PNG header, or they declare an
/// empty image.
pub fn png_header_dimensions(header: &[u8]) -> (r: Option<(u32, u32)>)
    ensures
        r == if png_header(header@) && big_endian(header@, 16) > 0 && big_endian(header@, 20) > 0 {
            Some((big_endian(header@, 16) as u32, big_endian(header@, 20) as u32))
        } else {
            None
        },
{
    let signature: [u8; 8] = [0x89, 0x50, 0x4E, 0x47, 0x0D, 0x0A, 0x1A, 0x0A];
    let chunk: [u8; 4] = [0x49, 0x48, 0x44, 0x52];
    if header.len() < 24 {
        return None;
    }
    let mut ok = true;
    let mut i: usize = 0;
    while i < 8
        invariant
            i <= 8,
            header@.len() >= 24,
            signature@ == seq![0x89u8, 0x50u8, 0x4Eu8, 0x47u8, 0x0Du8, 0x0Au8, 0x1Au8, 0x0Au8],
            ok <==> forall|j: int| 0 <= j < i ==> header@[j] == signature@[j],
        decreases 8 - i,
    {
        if header[i] != signature[i] {
            ok = false;
        }
        i = i + 1;
    }
    let mut j: usize = 0;
    while j < 4
        invariant
            j <= 4,
            header@.len() >= 24,
            chunk@ == seq![0x49u8, 0x48u8, 0x44u8, 0x52u8],
            ok <==> (forall|k: int| 0 <= k < 8 ==> header@[k] == signature@[k]) && forall|k: int|
                0 <= k < j ==> header@[12 + k] == chunk@[k],
        decreases 4 - j,
    {
        if header[12 + j] != chunk[j] {
            ok = false;
        }
        j = j + 1;
    }
    proof {
        assert(ok <==> png_header(header@)) by {
            if ok {
                assert(header@.subrange(0, 8) =~= signature@);
                assert(header@.subrange(12, 16) =~= chunk@);
            } else if png_header(header@) {
                assert forall|k: int| 0 <= k < 8 implies header@[k] == signature@[k] by {
                    assert(header@.subrange(0, 8)[k] == header@[k]);
                }
                assert forall|k: int| 0 <= k < 4 implies header@[12 + k] == chunk@[k] by {
                    assert(header@.subrange(12, 16)[k] == header@[12 + k]);
                }
            }
        }
    }
    if !ok {
        return None;
    }
    let width = be_u32(header, 16);
    let height = be_u32(header, 20);
    if width == 0 || height == 0 {
        return None;
    }
    Some((width, height))
}

} // verus!
