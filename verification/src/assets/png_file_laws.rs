//! How a PNG file is put together from its chunks.

use vstd::prelude::*;
use crate::assets::fault::PngFault;
use crate::assets::inflate::zlib_inflated;
use crate::assets::png::{
    be32, chunk_kind, chunks_from, decoded, header_of, no_chunks, pass_height, pass_width,
    pixels_of, ChunkKind, Chunks, Header, Pixels, SIGNATURE,
};

verus! {

/// Four bytes spell a name.
pub open spec fn names(bytes: Seq<u8>, a: char, b: char, c: char, d: char) -> bool {
    bytes.len() == 4 && bytes[0] == a as int && bytes[1] == b as int && bytes[2] == c as int
        && bytes[3] == d as int
}

/// The chunks that are understood, by their names.
pub proof fn law_chunk_names(name: Seq<u8>)
    requires
        name.len() == 4,
    ensures
        chunk_kind(name) == ChunkKind::Header <==> names(name, 'I', 'H', 'D', 'R'),
        chunk_kind(name) == ChunkKind::Palette <==> names(name, 'P', 'L', 'T', 'E'),
        chunk_kind(name) == ChunkKind::Transparency <==> names(name, 't', 'R', 'N', 'S'),
        chunk_kind(name) == ChunkKind::Data <==> names(name, 'I', 'D', 'A', 'T'),
        chunk_kind(name) == ChunkKind::End <==> names(name, 'I', 'E', 'N', 'D'),
        chunk_kind(name) == ChunkKind::Animation <==> names(name, 'a', 'c', 'T', 'L') || names(
            name,
            'f',
            'c',
            'T',
            'L',
        ) || names(name, 'f', 'd', 'A', 'T'),
{
    lemma_spelled(name, seq![0x49u8, 0x48u8, 0x44u8, 0x52u8]);
    lemma_spelled(name, seq![0x50u8, 0x4Cu8, 0x54u8, 0x45u8]);
    lemma_spelled(name, seq![0x74u8, 0x52u8, 0x4Eu8, 0x53u8]);
    lemma_spelled(name, seq![0x49u8, 0x44u8, 0x41u8, 0x54u8]);
    lemma_spelled(name, seq![0x49u8, 0x45u8, 0x4Eu8, 0x44u8]);
    lemma_spelled(name, seq![0x61u8, 0x63u8, 0x54u8, 0x4Cu8]);
    lemma_spelled(name, seq![0x66u8, 0x63u8, 0x54u8, 0x4Cu8]);
    lemma_spelled(name, seq![0x66u8, 0x64u8, 0x41u8, 0x54u8]);
}

proof fn lemma_spelled(name: Seq<u8>, word: Seq<u8>)
    requires
        name.len() == 4,
        word.len() == 4,
    ensures
        name == word <==> name[0] == word[0] && name[1] == word[1] && name[2] == word[2] && name[3]
            == word[3],
{
    if name[0] == word[0] && name[1] == word[1] && name[2] == word[2] && name[3] == word[3] {
        assert(name =~= word);
    }
}

/// A chunk is its length in four bytes, its name in four, its data and four bytes of a
/// checksum that is not looked at. A header, a palette or a transparency replaces the one
/// before it, image data go behind those before them, and the end chunk ends the file
/// whatever follows.
pub proof fn law_chunks(s: Seq<u8>, pos: int, acc: Chunks)
    requires
        0 <= pos,
        pos + 12 + be32(s, pos) <= s.len() <= usize::MAX,
    ensures
        ({
            let name = s.subrange(pos + 4, pos + 8);
            let data = s.subrange(pos + 8, pos + 8 + be32(s, pos));
            let next = pos + 12 + be32(s, pos);
            let r = chunks_from(s, pos, acc);
            &&& names(name, 'I', 'H', 'D', 'R') ==> match header_of(data) {
                Ok(h) => r == chunks_from(
                    s,
                    next,
                    Chunks { header: Some(h), palette: acc.palette, alpha: acc.alpha, data: acc.data },
                ),
                Err(fault) => r == Err::<Chunks, PngFault>(fault),
            }
            &&& names(name, 'P', 'L', 'T', 'E') ==> r == chunks_from(
                s,
                next,
                Chunks { header: acc.header, palette: data, alpha: acc.alpha, data: acc.data },
            )
            &&& names(name, 't', 'R', 'N', 'S') ==> r == chunks_from(
                s,
                next,
                Chunks { header: acc.header, palette: acc.palette, alpha: data, data: acc.data },
            )
            &&& names(name, 'I', 'D', 'A', 'T') ==> r == chunks_from(
                s,
                next,
                Chunks {
                    header: acc.header,
                    palette: acc.palette,
                    alpha: acc.alpha,
                    data: acc.data + data,
                },
            )
            &&& names(name, 'I', 'E', 'N', 'D') ==> r == Ok::<Chunks, PngFault>(acc)
            &&& names(name, 'a', 'c', 'T', 'L') ==> r is Err
            &&& names(name, 't', 'E', 'X', 't') ==> r == chunks_from(s, next, acc)
        }),
{
    law_chunk_names(s.subrange(pos + 4, pos + 8));
}

/// A file begins with its eight signature bytes; what its chunks hold is inflated, and the
/// picture made of it under the header.
pub proof fn law_files(s: Seq<u8>)
    ensures
        decoded(s) is Ok ==> s.len() >= 8 && s[0] == 137 && s[1] == 'P' as int && s[2] == 'N' as int
            && s[3] == 'G' as int && s[4] == 13 && s[5] == 10 && s[6] == 26 && s[7] == 10,
        s.len() >= 8 && s[0] == 137 && s[1] == 'P' as int && s[2] == 'N' as int && s[3]
            == 'G' as int && s[4] == 13 && s[5] == 10 && s[6] == 26 && s[7] == 10 ==> match chunks_from(
            s,
            8,
            Chunks { header: None, palette: seq![], alpha: seq![], data: seq![] },
        ) {
            Err(fault) => decoded(s) == Err::<Pixels, PngFault>(fault),
            Ok(chunks) => match chunks.header {
                None => decoded(s) is Err,
                Some(header) => match zlib_inflated(chunks.data) {
                    Err(_) => decoded(s) is Err,
                    Ok(raw) => chunks.data.len() > 0 ==> decoded(s) == pixels_of(
                        header,
                        raw,
                        chunks.palette,
                        chunks.alpha,
                    ),
                },
            },
        },
{
    let sig = SIGNATURE@;
    assert(sig.len() == 8);
    assert(sig[0] == 137 && sig[1] == 80 && sig[2] == 78 && sig[3] == 71 && sig[4] == 13 && sig[5]
        == 10 && sig[6] == 26 && sig[7] == 10);
    if s.len() >= 8 {
        let head = s.subrange(0, 8);
        assert(head[0] == s[0] && head[1] == s[1] && head[2] == s[2] && head[3] == s[3] && head[4]
            == s[4] && head[5] == s[5] && head[6] == s[6] && head[7] == s[7]);
        if s[0] == 137 && s[1] == 80 && s[2] == 78 && s[3] == 71 && s[4] == 13 && s[5] == 10 && s[6]
            == 26 && s[7] == 10 {
            assert(head =~= sig);
        }
    }
    assert(no_chunks() == (Chunks { header: None, palette: seq![], alpha: seq![], data: seq![] }));
}

/// How many columns and rows the seven passes of a picture have.
pub proof fn law_pass_sizes(header: Header)
    ensures
        ({
            let w = header.width as int;
            let h = header.height as int;
            &&& pass_width(header, 0) == (w + 7) / 8 && pass_height(header, 0) == (h + 7) / 8
            &&& pass_width(header, 1) == (w + 3) / 8 && pass_height(header, 1) == (h + 7) / 8
            &&& pass_width(header, 2) == (w + 3) / 4 && pass_height(header, 2) == (h + 3) / 8
            &&& pass_width(header, 3) == (w + 1) / 4 && pass_height(header, 3) == (h + 3) / 4
            &&& pass_width(header, 4) == (w + 1) / 2 && pass_height(header, 4) == (h + 1) / 4
            &&& pass_width(header, 5) == w / 2 && pass_height(header, 5) == (h + 1) / 2
            &&& pass_width(header, 6) == w && pass_height(header, 6) == h / 2
        }),
{
}

/// What a refused header is refused for: its length, its colour type, its size, its methods
/// and its depth, in this order.
pub proof fn law_refused_headers(data: Seq<u8>)
    requires
        data.len() >= 13,
    ensures
        ({
            let r = header_of(data);
            let (w, h) = (be32(data, 0), be32(data, 4));
            let colored = data[9] == 0 || data[9] == 2 || data[9] == 3 || data[9] == 4 || data[9]
                == 6;
            let sized = 1 <= w <= 16384 && 1 <= h <= 16384;
            let plain = data[10] == 0 && data[11] == 0 && data[12] <= 1;
            &&& !colored ==> r == Err::<Header, PngFault>(PngFault::ColorType(data[9]))
            &&& colored && (w == 0 || h == 0) ==> r == Err::<Header, PngFault>(
                PngFault::ZeroDimension,
            )
            &&& colored && w > 0 && h > 0 && !sized ==> r == Err::<Header, PngFault>(
                PngFault::TooBig { width: w as u32, height: h as u32 },
            )
            &&& colored && sized && data[10] != 0 ==> r == Err::<Header, PngFault>(
                PngFault::Compression(data[10]),
            )
            &&& colored && sized && data[10] == 0 && data[11] != 0 ==> r == Err::<Header, PngFault>(
                PngFault::FilterMethod(data[11]),
            )
            &&& colored && sized && data[10] == 0 && data[11] == 0 && data[12] > 1 ==> r == Err::<
                Header,
                PngFault,
            >(PngFault::Interlace(data[12]))
            &&& colored && sized && plain && (data[8] == 1 || data[8] == 2 || data[8] == 4) ==> r
                == Err::<Header, PngFault>(PngFault::UnsupportedDepth(data[8]))
            &&& colored && sized && plain && data[8] != 1 && data[8] != 2 && data[8] != 4 && data[8]
                != 8 && data[8] != 16 ==> r == Err::<Header, PngFault>(
                PngFault::InvalidDepth(data[8]),
            )
            &&& data[9] == 3 && sized && plain && data[8] == 16 ==> r == Err::<Header, PngFault>(
                PngFault::PaletteDepth,
            )
        }),
{
}

} // verus!
