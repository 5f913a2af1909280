use vstd::prelude::*;

use vstd::string::StringSliceAdditionalSpecFns;
use vstd::utf8::{encode_scalar, encode_utf8, encode_utf8_decode_utf8};

verus! {

/// The file extension of the images this library rewrites.
pub open spec fn png_extension() -> Seq<char> {
    seq!['p', 'n', 'g']
}

/// Whether a path's extension names a PNG image. The comparison is
/// case-sensitive: `png` is kept, `PNG` and `apng` are not.
pub fn is_png_extension(ext: &str) -> (r: bool)
    ensures
        r == (ext@ == png_extension()),
{
    let b = ext.as_bytes();
    let r = b.len() == 3 && b[0] == 0x70u8 && b[1] == 0x6eu8 && b[2] == 0x67u8;
    proof {
        // "png" in UTF-8
        let png_bytes = seq![0x70u8, 0x6eu8, 0x67u8];
        let cs = png_extension();
        assert(cs.drop_first() =~= seq!['n', 'g']);
        assert(cs.drop_first().drop_first() =~= seq!['g']);
        assert(cs.drop_first().drop_first().drop_first() =~= Seq::<char>::empty());
        assert(('p' as u32) == 0x70 && ('n' as u32) == 0x6e && ('g' as u32) == 0x67);
        assert(0x70u32 & 0x7f == 0x70 && 0x6eu32 & 0x7f == 0x6e && 0x67u32 & 0x7f == 0x67)
            by (bit_vector);
        assert(encode_scalar('p' as u32) =~= seq![0x70u8]);
        assert(encode_scalar('n' as u32) =~= seq![0x6eu8]);
        assert(encode_scalar('g' as u32) =~= seq![0x67u8]);
        assert(encode_utf8(cs) =~= png_bytes) by {
            reveal_with_fuel(encode_utf8, 4);
        }
        encode_utf8_decode_utf8(ext@);
        encode_utf8_decode_utf8(png_extension());
        if r {
            assert(b@ =~= png_bytes);
        }
        if ext@ == png_extension() {
            assert(b@ == png_bytes);
        }
    }
    r
}

} // verus!
