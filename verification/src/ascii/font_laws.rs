//! What holds of the font as a whole: its rows fit its columns, only space is
//! blank, and no two characters look the same.

use vstd::prelude::*;
use crate::ascii::font5x7::{covers, font_ink, position, FONT, FONT_HEIGHT};

verus! {

/// The rows of a bitmap read as one number.
spec fn bitmap_number(rows: Seq<u8>) -> int {
    rows[6] + 32 * (rows[5] + 32 * (rows[4] + 32 * (rows[3] + 32 * (rows[2] + 32 * (rows[1] + 32
        * rows[0])))))
}

/// The glyph whose bitmap reads as `n`.
spec fn glyph_numbered(n: int) -> int {
    if n == 0x0 {
        0
    } else if n == 0x108421004 {
        1
    } else if n == 0x294000000 {
        2
    } else if n == 0x295f57d4a {
        3
    } else if n == 0x11f4717c4 {
        4
    } else if n == 0x674222173 {
        5
    } else if n == 0x32544564d {
        6
    } else if n == 0x108000000 {
        7
    } else if n == 0x88842082 {
        8
    } else if n == 0x208210888 {
        9
    } else if n == 0x9575480 {
        10
    } else if n == 0x84f9080 {
        11
    } else if n == 0x1888 {
        12
    } else if n == 0xf8000 {
        13
    } else if n == 0x18c {
        14
    } else if n == 0x44222110 {
        15
    } else if n == 0x3a33ae62e {
        16
    } else if n == 0x11842108e {
        17
    } else if n == 0x3a211111f {
        18
    } else if n == 0x7c441062e {
        19
    } else if n == 0x8ca97c42 {
        20
    } else if n == 0x7e1e0862e {
        21
    } else if n == 0x1910f462e {
        22
    } else if n == 0x7c2222108 {
        23
    } else if n == 0x3a317462e {
        24
    } else if n == 0x3a317844c {
        25
    } else if n == 0x18c03180 {
        26
    } else if n == 0x18c03088 {
        27
    } else if n == 0x88882082 {
        28
    } else if n == 0x1f07c00 {
        29
    } else if n == 0x208208888 {
        30
    } else if n == 0x3a2111004 {
        31
    } else if n == 0x3a216d6ae {
        32
    } else if n == 0x3a31fc631 {
        33
    } else if n == 0x7a31f463e {
        34
    } else if n == 0x3a308422e {
        35
    } else if n == 0x72518c65c {
        36
    } else if n == 0x7e10f421f {
        37
    } else if n == 0x7e10f4210 {
        38
    } else if n == 0x3a30bc62f {
        39
    } else if n == 0x4631fc631 {
        40
    } else if n == 0x38842108e {
        41
    } else if n == 0x1c4210a4c {
        42
    } else if n == 0x4654c5251 {
        43
    } else if n == 0x42108421f {
        44
    } else if n == 0x4775ac631 {
        45
    } else if n == 0x4739ace71 {
        46
    } else if n == 0x3a318c62e {
        47
    } else if n == 0x7a31f4210 {
        48
    } else if n == 0x3a318d66d {
        49
    } else if n == 0x7a31f5251 {
        50
    } else if n == 0x3e107043e {
        51
    } else if n == 0x7c8421084 {
        52
    } else if n == 0x46318c62e {
        53
    } else if n == 0x46318c544 {
        54
    } else if n == 0x4631ad771 {
        55
    } else if n == 0x462a22a31 {
        56
    } else if n == 0x462a21084 {
        57
    } else if n == 0x7c222221f {
        58
    } else if n == 0x39084210e {
        59
    } else if n == 0x410820841 {
        60
    } else if n == 0x38421084e {
        61
    } else if n == 0x115100000 {
        62
    } else if n == 0x1f {
        63
    } else if n == 0x208000000 {
        64
    } else if n == 0xe0be2f {
        65
    } else if n == 0x421e8c63e {
        66
    } else if n == 0xe8422e {
        67
    } else if n == 0x42f8c62f {
        68
    } else if n == 0xe8fe0e {
        69
    } else if n == 0x1928e2108 {
        70
    } else if n == 0x1f18bc2e {
        71
    } else if n == 0x421e8c631 {
        72
    } else if n == 0x100c2108e {
        73
    } else if n == 0x80610a4c {
        74
    } else if n == 0x4212a6292 {
        75
    } else if n == 0x30842108e {
        76
    } else if n == 0x1aad631 {
        77
    } else if n == 0x1e8c631 {
        78
    } else if n == 0xe8c62e {
        79
    } else if n == 0x3d18fa10 {
        80
    } else if n == 0x1f18bc21 {
        81
    } else if n == 0xe8c210 {
        82
    } else if n == 0xf8383e {
        83
    } else if n == 0x211c42126 {
        84
    } else if n == 0x118c62f {
        85
    } else if n == 0x118c544 {
        86
    } else if n == 0x118d6aa {
        87
    } else if n == 0x1151151 {
        88
    } else if n == 0x2318bc2e {
        89
    } else if n == 0x1f1111f {
        90
    } else if n == 0x188441086 {
        91
    } else if n == 0x108421084 {
        92
    } else if n == 0x30841108c {
        93
    } else if n == 0x9ac800 {
        94
    } else {
        95
    }
}

proof fn lemma_glyphs_from_0(i: int)
    requires
        0 <= i < 12,
    ensures
        glyph_is_sound(i),
{
    if i == 0 {
        assert(FONT@[0]@ =~= seq![0u8, 0u8, 0u8, 0u8, 0u8, 0u8, 0u8]);
    } else if i == 1 {
        assert(FONT@[1]@ =~= seq![4u8, 4u8, 4u8, 4u8, 4u8, 0u8, 4u8]);
    } else if i == 2 {
        assert(FONT@[2]@ =~= seq![10u8, 10u8, 0u8, 0u8, 0u8, 0u8, 0u8]);
    } else if i == 3 {
        assert(FONT@[3]@ =~= seq![10u8, 10u8, 31u8, 10u8, 31u8, 10u8, 10u8]);
    } else if i == 4 {
        assert(FONT@[4]@ =~= seq![4u8, 15u8, 20u8, 14u8, 5u8, 30u8, 4u8]);
    } else if i == 5 {
        assert(FONT@[5]@ =~= seq![25u8, 26u8, 2u8, 4u8, 8u8, 11u8, 19u8]);
    } else if i == 6 {
        assert(FONT@[6]@ =~= seq![12u8, 18u8, 20u8, 8u8, 21u8, 18u8, 13u8]);
    } else if i == 7 {
        assert(FONT@[7]@ =~= seq![4u8, 4u8, 0u8, 0u8, 0u8, 0u8, 0u8]);
    } else if i == 8 {
        assert(FONT@[8]@ =~= seq![2u8, 4u8, 8u8, 8u8, 8u8, 4u8, 2u8]);
    } else if i == 9 {
        assert(FONT@[9]@ =~= seq![8u8, 4u8, 2u8, 2u8, 2u8, 4u8, 8u8]);
    } else if i == 10 {
        assert(FONT@[10]@ =~= seq![0u8, 4u8, 21u8, 14u8, 21u8, 4u8, 0u8]);
    } else if i == 11 {
        assert(FONT@[11]@ =~= seq![0u8, 4u8, 4u8, 31u8, 4u8, 4u8, 0u8]);
    }
}

proof fn lemma_glyphs_from_12(i: int)
    requires
        12 <= i < 24,
    ensures
        glyph_is_sound(i),
{
    if i == 12 {
        assert(FONT@[12]@ =~= seq![0u8, 0u8, 0u8, 0u8, 6u8, 4u8, 8u8]);
    } else if i == 13 {
        assert(FONT@[13]@ =~= seq![0u8, 0u8, 0u8, 31u8, 0u8, 0u8, 0u8]);
    } else if i == 14 {
        assert(FONT@[14]@ =~= seq![0u8, 0u8, 0u8, 0u8, 0u8, 12u8, 12u8]);
    } else if i == 15 {
        assert(FONT@[15]@ =~= seq![1u8, 2u8, 2u8, 4u8, 8u8, 8u8, 16u8]);
    } else if i == 16 {
        assert(FONT@[16]@ =~= seq![14u8, 17u8, 19u8, 21u8, 25u8, 17u8, 14u8]);
    } else if i == 17 {
        assert(FONT@[17]@ =~= seq![4u8, 12u8, 4u8, 4u8, 4u8, 4u8, 14u8]);
    } else if i == 18 {
        assert(FONT@[18]@ =~= seq![14u8, 17u8, 1u8, 2u8, 4u8, 8u8, 31u8]);
    } else if i == 19 {
        assert(FONT@[19]@ =~= seq![31u8, 2u8, 4u8, 2u8, 1u8, 17u8, 14u8]);
    } else if i == 20 {
        assert(FONT@[20]@ =~= seq![2u8, 6u8, 10u8, 18u8, 31u8, 2u8, 2u8]);
    } else if i == 21 {
        assert(FONT@[21]@ =~= seq![31u8, 16u8, 30u8, 1u8, 1u8, 17u8, 14u8]);
    } else if i == 22 {
        assert(FONT@[22]@ =~= seq![6u8, 8u8, 16u8, 30u8, 17u8, 17u8, 14u8]);
    } else if i == 23 {
        assert(FONT@[23]@ =~= seq![31u8, 1u8, 2u8, 4u8, 8u8, 8u8, 8u8]);
    }
}

proof fn lemma_glyphs_from_24(i: int)
    requires
        24 <= i < 36,
    ensures
        glyph_is_sound(i),
{
    if i == 24 {
        assert(FONT@[24]@ =~= seq![14u8, 17u8, 17u8, 14u8, 17u8, 17u8, 14u8]);
    } else if i == 25 {
        assert(FONT@[25]@ =~= seq![14u8, 17u8, 17u8, 15u8, 1u8, 2u8, 12u8]);
    } else if i == 26 {
        assert(FONT@[26]@ =~= seq![0u8, 12u8, 12u8, 0u8, 12u8, 12u8, 0u8]);
    } else if i == 27 {
        assert(FONT@[27]@ =~= seq![0u8, 12u8, 12u8, 0u8, 12u8, 4u8, 8u8]);
    } else if i == 28 {
        assert(FONT@[28]@ =~= seq![2u8, 4u8, 8u8, 16u8, 8u8, 4u8, 2u8]);
    } else if i == 29 {
        assert(FONT@[29]@ =~= seq![0u8, 0u8, 31u8, 0u8, 31u8, 0u8, 0u8]);
    } else if i == 30 {
        assert(FONT@[30]@ =~= seq![8u8, 4u8, 2u8, 1u8, 2u8, 4u8, 8u8]);
    } else if i == 31 {
        assert(FONT@[31]@ =~= seq![14u8, 17u8, 1u8, 2u8, 4u8, 0u8, 4u8]);
    } else if i == 32 {
        assert(FONT@[32]@ =~= seq![14u8, 17u8, 1u8, 13u8, 21u8, 21u8, 14u8]);
    } else if i == 33 {
        assert(FONT@[33]@ =~= seq![14u8, 17u8, 17u8, 31u8, 17u8, 17u8, 17u8]);
    } else if i == 34 {
        assert(FONT@[34]@ =~= seq![30u8, 17u8, 17u8, 30u8, 17u8, 17u8, 30u8]);
    } else if i == 35 {
        assert(FONT@[35]@ =~= seq![14u8, 17u8, 16u8, 16u8, 16u8, 17u8, 14u8]);
    }
}

proof fn lemma_glyphs_from_36(i: int)
    requires
        36 <= i < 48,
    ensures
        glyph_is_sound(i),
{
    if i == 36 {
        assert(FONT@[36]@ =~= seq![28u8, 18u8, 17u8, 17u8, 17u8, 18u8, 28u8]);
    } else if i == 37 {
        assert(FONT@[37]@ =~= seq![31u8, 16u8, 16u8, 30u8, 16u8, 16u8, 31u8]);
    } else if i == 38 {
        assert(FONT@[38]@ =~= seq![31u8, 16u8, 16u8, 30u8, 16u8, 16u8, 16u8]);
    } else if i == 39 {
        assert(FONT@[39]@ =~= seq![14u8, 17u8, 16u8, 23u8, 17u8, 17u8, 15u8]);
    } else if i == 40 {
        assert(FONT@[40]@ =~= seq![17u8, 17u8, 17u8, 31u8, 17u8, 17u8, 17u8]);
    } else if i == 41 {
        assert(FONT@[41]@ =~= seq![14u8, 4u8, 4u8, 4u8, 4u8, 4u8, 14u8]);
    } else if i == 42 {
        assert(FONT@[42]@ =~= seq![7u8, 2u8, 2u8, 2u8, 2u8, 18u8, 12u8]);
    } else if i == 43 {
        assert(FONT@[43]@ =~= seq![17u8, 18u8, 20u8, 24u8, 20u8, 18u8, 17u8]);
    } else if i == 44 {
        assert(FONT@[44]@ =~= seq![16u8, 16u8, 16u8, 16u8, 16u8, 16u8, 31u8]);
    } else if i == 45 {
        assert(FONT@[45]@ =~= seq![17u8, 27u8, 21u8, 21u8, 17u8, 17u8, 17u8]);
    } else if i == 46 {
        assert(FONT@[46]@ =~= seq![17u8, 25u8, 25u8, 21u8, 19u8, 19u8, 17u8]);
    } else if i == 47 {
        assert(FONT@[47]@ =~= seq![14u8, 17u8, 17u8, 17u8, 17u8, 17u8, 14u8]);
    }
}

proof fn lemma_glyphs_from_48(i: int)
    requires
        48 <= i < 60,
    ensures
        glyph_is_sound(i),
{
    if i == 48 {
        assert(FONT@[48]@ =~= seq![30u8, 17u8, 17u8, 30u8, 16u8, 16u8, 16u8]);
    } else if i == 49 {
        assert(FONT@[49]@ =~= seq![14u8, 17u8, 17u8, 17u8, 21u8, 19u8, 13u8]);
    } else if i == 50 {
        assert(FONT@[50]@ =~= seq![30u8, 17u8, 17u8, 30u8, 20u8, 18u8, 17u8]);
    } else if i == 51 {
        assert(FONT@[51]@ =~= seq![15u8, 16u8, 16u8, 14u8, 1u8, 1u8, 30u8]);
    } else if i == 52 {
        assert(FONT@[52]@ =~= seq![31u8, 4u8, 4u8, 4u8, 4u8, 4u8, 4u8]);
    } else if i == 53 {
        assert(FONT@[53]@ =~= seq![17u8, 17u8, 17u8, 17u8, 17u8, 17u8, 14u8]);
    } else if i == 54 {
        assert(FONT@[54]@ =~= seq![17u8, 17u8, 17u8, 17u8, 17u8, 10u8, 4u8]);
    } else if i == 55 {
        assert(FONT@[55]@ =~= seq![17u8, 17u8, 17u8, 21u8, 21u8, 27u8, 17u8]);
    } else if i == 56 {
        assert(FONT@[56]@ =~= seq![17u8, 17u8, 10u8, 4u8, 10u8, 17u8, 17u8]);
    } else if i == 57 {
        assert(FONT@[57]@ =~= seq![17u8, 17u8, 10u8, 4u8, 4u8, 4u8, 4u8]);
    } else if i == 58 {
        assert(FONT@[58]@ =~= seq![31u8, 1u8, 2u8, 4u8, 8u8, 16u8, 31u8]);
    } else if i == 59 {
        assert(FONT@[59]@ =~= seq![14u8, 8u8, 8u8, 8u8, 8u8, 8u8, 14u8]);
    }
}

proof fn lemma_glyphs_from_60(i: int)
    requires
        60 <= i < 72,
    ensures
        glyph_is_sound(i),
{
    if i == 60 {
        assert(FONT@[60]@ =~= seq![16u8, 8u8, 8u8, 4u8, 2u8, 2u8, 1u8]);
    } else if i == 61 {
        assert(FONT@[61]@ =~= seq![14u8, 2u8, 2u8, 2u8, 2u8, 2u8, 14u8]);
    } else if i == 62 {
        assert(FONT@[62]@ =~= seq![4u8, 10u8, 17u8, 0u8, 0u8, 0u8, 0u8]);
    } else if i == 63 {
        assert(FONT@[63]@ =~= seq![0u8, 0u8, 0u8, 0u8, 0u8, 0u8, 31u8]);
    } else if i == 64 {
        assert(FONT@[64]@ =~= seq![8u8, 4u8, 0u8, 0u8, 0u8, 0u8, 0u8]);
    } else if i == 65 {
        assert(FONT@[65]@ =~= seq![0u8, 0u8, 14u8, 1u8, 15u8, 17u8, 15u8]);
    } else if i == 66 {
        assert(FONT@[66]@ =~= seq![16u8, 16u8, 30u8, 17u8, 17u8, 17u8, 30u8]);
    } else if i == 67 {
        assert(FONT@[67]@ =~= seq![0u8, 0u8, 14u8, 16u8, 16u8, 17u8, 14u8]);
    } else if i == 68 {
        assert(FONT@[68]@ =~= seq![1u8, 1u8, 15u8, 17u8, 17u8, 17u8, 15u8]);
    } else if i == 69 {
        assert(FONT@[69]@ =~= seq![0u8, 0u8, 14u8, 17u8, 31u8, 16u8, 14u8]);
    } else if i == 70 {
        assert(FONT@[70]@ =~= seq![6u8, 9u8, 8u8, 28u8, 8u8, 8u8, 8u8]);
    } else if i == 71 {
        assert(FONT@[71]@ =~= seq![0u8, 15u8, 17u8, 17u8, 15u8, 1u8, 14u8]);
    }
}

proof fn lemma_glyphs_from_72(i: int)
    requires
        72 <= i < 84,
    ensures
        glyph_is_sound(i),
{
    if i == 72 {
        assert(FONT@[72]@ =~= seq![16u8, 16u8, 30u8, 17u8, 17u8, 17u8, 17u8]);
    } else if i == 73 {
        assert(FONT@[73]@ =~= seq![4u8, 0u8, 12u8, 4u8, 4u8, 4u8, 14u8]);
    } else if i == 74 {
        assert(FONT@[74]@ =~= seq![2u8, 0u8, 6u8, 2u8, 2u8, 18u8, 12u8]);
    } else if i == 75 {
        assert(FONT@[75]@ =~= seq![16u8, 16u8, 18u8, 20u8, 24u8, 20u8, 18u8]);
    } else if i == 76 {
        assert(FONT@[76]@ =~= seq![12u8, 4u8, 4u8, 4u8, 4u8, 4u8, 14u8]);
    } else if i == 77 {
        assert(FONT@[77]@ =~= seq![0u8, 0u8, 26u8, 21u8, 21u8, 17u8, 17u8]);
    } else if i == 78 {
        assert(FONT@[78]@ =~= seq![0u8, 0u8, 30u8, 17u8, 17u8, 17u8, 17u8]);
    } else if i == 79 {
        assert(FONT@[79]@ =~= seq![0u8, 0u8, 14u8, 17u8, 17u8, 17u8, 14u8]);
    } else if i == 80 {
        assert(FONT@[80]@ =~= seq![0u8, 30u8, 17u8, 17u8, 30u8, 16u8, 16u8]);
    } else if i == 81 {
        assert(FONT@[81]@ =~= seq![0u8, 15u8, 17u8, 17u8, 15u8, 1u8, 1u8]);
    } else if i == 82 {
        assert(FONT@[82]@ =~= seq![0u8, 0u8, 14u8, 17u8, 16u8, 16u8, 16u8]);
    } else if i == 83 {
        assert(FONT@[83]@ =~= seq![0u8, 0u8, 15u8, 16u8, 14u8, 1u8, 30u8]);
    }
}

proof fn lemma_glyphs_from_84(i: int)
    requires
        84 <= i < 95,
    ensures
        glyph_is_sound(i),
{
    if i == 84 {
        assert(FONT@[84]@ =~= seq![8u8, 8u8, 28u8, 8u8, 8u8, 9u8, 6u8]);
    } else if i == 85 {
        assert(FONT@[85]@ =~= seq![0u8, 0u8, 17u8, 17u8, 17u8, 17u8, 15u8]);
    } else if i == 86 {
        assert(FONT@[86]@ =~= seq![0u8, 0u8, 17u8, 17u8, 17u8, 10u8, 4u8]);
    } else if i == 87 {
        assert(FONT@[87]@ =~= seq![0u8, 0u8, 17u8, 17u8, 21u8, 21u8, 10u8]);
    } else if i == 88 {
        assert(FONT@[88]@ =~= seq![0u8, 0u8, 17u8, 10u8, 4u8, 10u8, 17u8]);
    } else if i == 89 {
        assert(FONT@[89]@ =~= seq![0u8, 17u8, 17u8, 17u8, 15u8, 1u8, 14u8]);
    } else if i == 90 {
        assert(FONT@[90]@ =~= seq![0u8, 0u8, 31u8, 2u8, 4u8, 8u8, 31u8]);
    } else if i == 91 {
        assert(FONT@[91]@ =~= seq![6u8, 4u8, 4u8, 8u8, 4u8, 4u8, 6u8]);
    } else if i == 92 {
        assert(FONT@[92]@ =~= seq![4u8, 4u8, 4u8, 4u8, 4u8, 4u8, 4u8]);
    } else if i == 93 {
        assert(FONT@[93]@ =~= seq![12u8, 4u8, 4u8, 2u8, 4u8, 4u8, 12u8]);
    } else if i == 94 {
        assert(FONT@[94]@ =~= seq![0u8, 0u8, 9u8, 21u8, 18u8, 0u8, 0u8]);
    }
}

/// The rows of glyph `i` have five bits, its bitmap is its own, and it is blank
/// only if it is the first.
spec fn glyph_is_sound(i: int) -> bool {
    &&& forall|y: int| 0 <= y < 7 ==> (#[trigger] FONT@[i]@[y]) < 32
    &&& glyph_numbered(bitmap_number(FONT@[i]@)) == i
    &&& bitmap_number(FONT@[i]@) == 0 <==> i == 0
}

proof fn lemma_glyphs(i: int)
    requires
        0 <= i < 95,
    ensures
        glyph_is_sound(i),
{
    if i < 12 {
        lemma_glyphs_from_0(i);
    } else if i < 24 {
        lemma_glyphs_from_12(i);
    } else if i < 36 {
        lemma_glyphs_from_24(i);
    } else if i < 48 {
        lemma_glyphs_from_36(i);
    } else if i < 60 {
        lemma_glyphs_from_48(i);
    } else if i < 72 {
        lemma_glyphs_from_60(i);
    } else if i < 84 {
        lemma_glyphs_from_72(i);
    } else {
        lemma_glyphs_from_84(i);
    }
}

/// Every row fits the five columns of the font.
pub proof fn law_rows_fit_the_font(c: char, y: int)
    requires
        covers(c),
        0 <= y < FONT_HEIGHT,
    ensures
        FONT@[position(c)]@[y] <= 0b11111,
{
    lemma_glyphs(position(c));
}

/// Space is the one character without ink.
pub proof fn law_only_space_is_blank(c: char)
    requires
        covers(c),
    ensures
        (forall|y: int| 0 <= y < FONT_HEIGHT ==> #[trigger] FONT@[position(c)]@[y] == 0) <==> c
            == ' ',
{
    lemma_glyphs(position(c));
    let rows = FONT@[position(c)]@;
    assert(c == ' ' <==> position(c) == 0);
    if c == ' ' {
        assert(bitmap_number(rows) == 0);
        assert(rows[0] == 0 && rows[1] == 0 && rows[2] == 0 && rows[3] == 0 && rows[4] == 0
            && rows[5] == 0 && rows[6] == 0);
    } else if forall|y: int| 0 <= y < FONT_HEIGHT ==> #[trigger] FONT@[position(c)]@[y] == 0 {
        assert(rows[0] == 0 && rows[1] == 0 && rows[2] == 0 && rows[3] == 0 && rows[4] == 0
            && rows[5] == 0 && rows[6] == 0);
        assert(bitmap_number(rows) == 0);
    }
}

/// No two characters share a bitmap.
pub proof fn law_bitmaps_are_distinct(a: char, b: char)
    requires
        covers(a),
        covers(b),
    ensures
        FONT@[position(a)]@ == FONT@[position(b)]@ ==> a == b,
{
    lemma_glyphs(position(a));
    lemma_glyphs(position(b));
}

/// A letter's pixels are the bits of its rows: five columns from the second on, the
/// leftmost of them the highest bit, in the upper seven rows.
pub proof fn law_letters_are_drawn_from_their_rows(index: int, x: int, y: int)
    ensures
        ({
            let row = FONT@[index]@[y];
            &&& font_ink(index, 1, y) <==> 0 <= y < 7 && row / 16 % 2 == 1
            &&& font_ink(index, 2, y) <==> 0 <= y < 7 && row / 8 % 2 == 1
            &&& font_ink(index, 3, y) <==> 0 <= y < 7 && row / 4 % 2 == 1
            &&& font_ink(index, 4, y) <==> 0 <= y < 7 && row / 2 % 2 == 1
            &&& font_ink(index, 5, y) <==> 0 <= y < 7 && row % 2 == 1
            &&& x < 1 || x > 5 ==> !font_ink(index, x, y)
        }),
{
    let row = FONT@[index]@[y];
    assert((row & (1u8 << 4u8) != 0) <==> row / 16 % 2 == 1) by (bit_vector);
    assert((row & (1u8 << 3u8) != 0) <==> row / 8 % 2 == 1) by (bit_vector);
    assert((row & (1u8 << 2u8) != 0) <==> row / 4 % 2 == 1) by (bit_vector);
    assert((row & (1u8 << 1u8) != 0) <==> row / 2 % 2 == 1) by (bit_vector);
    assert((row & (1u8 << 0u8) != 0) <==> row % 2 == 1) by (bit_vector);
}

} // verus!
