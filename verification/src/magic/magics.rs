//! The magic constants of the sliding pieces, one set for each square.

use vstd::prelude::*;
use crate::magic::magic_generation::Magic;
use crate::types::bitboard::BitBoard;
use crate::types::square::Square;

verus! {

/// The relevant-blocker mask of a rook on each square.
pub const ROOK_MAGIC_MASKS: [u64; 64] = [
    0x101010101017e, 0x202020202027c, 0x404040404047a, 0x8080808080876,
    0x1010101010106e, 0x2020202020205e, 0x4040404040403e, 0x8080808080807e,
    0x1010101017e00, 0x2020202027c00, 0x4040404047a00, 0x8080808087600,
    0x10101010106e00, 0x20202020205e00, 0x40404040403e00, 0x80808080807e00,
    0x10101017e0100, 0x20202027c0200, 0x40404047a0400, 0x8080808760800,
    0x101010106e1000, 0x202020205e2000, 0x404040403e4000, 0x808080807e8000,
    0x101017e010100, 0x202027c020200, 0x404047a040400, 0x8080876080800,
    0x1010106e101000, 0x2020205e202000, 0x4040403e404000, 0x8080807e808000,
    0x1017e01010100, 0x2027c02020200, 0x4047a04040400, 0x8087608080800,
    0x10106e10101000, 0x20205e20202000, 0x40403e40404000, 0x80807e80808000,
    0x17e0101010100, 0x27c0202020200, 0x47a0404040400, 0x8760808080800,
    0x106e1010101000, 0x205e2020202000, 0x403e4040404000, 0x807e8080808000,
    0x7e010101010100, 0x7c020202020200, 0x7a040404040400, 0x76080808080800,
    0x6e101010101000, 0x5e202020202000, 0x3e404040404000, 0x7e808080808000,
    0x7e01010101010100, 0x7c02020202020200, 0x7a04040404040400, 0x7608080808080800,
    0x6e10101010101000, 0x5e20202020202000, 0x3e40404040404000, 0x7e80808080808000,
];

/// The magic multiplier of a rook on each square.
pub const ROOK_MAGIC_NUMBERS: [u64; 64] = [
    0x108000c00080aa10, 0x4000300041200a, 0x200220028804090, 0x280100080040800,
    0x4180028048001400, 0x80050200140080, 0x2c00020401219008, 0x91001c4082002100,
    0x890800080204004, 0x4000c00040201002, 0x801002001014230, 0xa010808010000800,
    0x102800800440080, 0x820048100d0200, 0x3011004100041200, 0x20000825c0201,
    0x418024800840008c, 0x20008040008021, 0x220c420022028030, 0x9010004008040040,
    0x1010010080024, 0x8402808004004200, 0x1000040005881042, 0x20004028043,
    0x400080002882, 0x2643c00440201001, 0x8500080802000, 0x4090100100020,
    0x5008008080240009, 0x4000480020080, 0x85000300020014, 0x868011200028044,
    0xb040401082800020, 0x120100842400062, 0x480a200041001500, 0x100809000804800,
    0x1001005000800, 0x200142a001018, 0x20800100800200, 0x2000a88042003104,
    0x1a00800040008020, 0xc410052000484000, 0x1011e20080320042, 0x82200a00120040,
    0x2018010008450010, 0x8416008004008012, 0x1000100108040042, 0x2b000840830012,
    0x48fffe99fecfaa00, 0x48fffe99fecfaa00, 0x497fffadff9c2e00, 0x613fffddffce9200,
    0xffffffe9ffe7ce00, 0xfffffff5fff3e600, 0x0003ff95e5e6a4c0, 0x510ffff5f63c96a0,
    0xebffffb9ff9fc526, 0x61fffeddfeedaeae, 0x53bfffedffdeb1a2, 0x127fffb9ffdfb5f6,
    0x411fffddffdbf4d6, 0x1015000812640081, 0x0003ffef27eebe74, 0x7645fffecbfea79e,
];

/// The shift of a rook's magic on each square.
pub const ROOK_MAGIC_SHIFTS: [u8; 64] = [
    52, 53, 53, 53, 53, 53, 53, 52,
    53, 54, 54, 54, 54, 54, 54, 53,
    53, 54, 54, 54, 54, 54, 54, 53,
    53, 54, 54, 54, 54, 54, 54, 53,
    53, 54, 54, 54, 54, 54, 54, 53,
    53, 54, 54, 54, 54, 54, 54, 53,
    54, 55, 55, 55, 55, 55, 55, 54,
    53, 54, 54, 54, 54, 53, 54, 53,
];

/// The relevant-blocker mask of a bishop on each square.
pub const BISHOP_MAGIC_MASKS: [u64; 64] = [
    0x40201008040200, 0x402010080400, 0x4020100a00, 0x40221400,
    0x2442800, 0x204085000, 0x20408102000, 0x2040810204000,
    0x20100804020000, 0x40201008040000, 0x4020100a0000, 0x4022140000,
    0x244280000, 0x20408500000, 0x2040810200000, 0x4081020400000,
    0x10080402000200, 0x20100804000400, 0x4020100a000a00, 0x402214001400,
    0x24428002800, 0x2040850005000, 0x4081020002000, 0x8102040004000,
    0x8040200020400, 0x10080400040800, 0x20100a000a1000, 0x40221400142200,
    0x2442800284400, 0x4085000500800, 0x8102000201000, 0x10204000402000,
    0x4020002040800, 0x8040004081000, 0x100a000a102000, 0x22140014224000,
    0x44280028440200, 0x8500050080400, 0x10200020100800, 0x20400040201000,
    0x2000204081000, 0x4000408102000, 0xa000a10204000, 0x14001422400000,
    0x28002844020000, 0x50005008040200, 0x20002010080400, 0x40004020100800,
    0x20408102000, 0x40810204000, 0xa1020400000, 0x142240000000,
    0x284402000000, 0x500804020000, 0x201008040200, 0x402010080400,
    0x2040810204000, 0x4081020400000, 0xa102040000000, 0x14224000000000,
    0x28440200000000, 0x50080402000000, 0x20100804020000, 0x40201008040200,
];

/// The magic multiplier of a bishop on each square.
pub const BISHOP_MAGIC_NUMBERS: [u64; 64] = [
    0xffedf9fd7cfcffff, 0xfc0962854a77f576, 0x800c410401004000, 0x904404008331105e,
    0x100a021110080c04, 0x1011032010000c00, 0xfc0a66c64a7ef576, 0x7ffdfdfcbd79ffff,
    0xfc0846a64a34fff6, 0xfc087a874a3cf7f6, 0x800041802004000, 0x90141400803100,
    0x60211004000, 0xc8010148400022, 0xfc0864ae59b4ff76, 0x3c0860af4b35ff76,
    0x73c01af56cf4cffb, 0x41a01cfad64aaffc, 0x2408103000222020, 0x18403a801421208,
    0x820400a01000, 0x2000c0a880504000, 0x7c0c028f5b34ff76, 0xfc0a028e5ab4df76,
    0x18440008109040, 0x802184011012800, 0x28040002440180, 0x407080003004100,
    0x208840080802020, 0x1240820109010080, 0xa000822020881402, 0x6012020120208a26,
    0x801c0440ce204240, 0x8504101200094600, 0x2080220101981801, 0x2020200800250104,
    0x6068020400201010, 0x612008600010800, 0x8828081310818280, 0x904040140018044,
    0xdcefd9b54bfcc09f, 0xf95ffa765afd602b, 0x141188001000, 0x2010028420210400,
    0x824700200608200, 0x91100104400200, 0x43ff9a5cf4ca0c01, 0x4bffcd8e7c587601,
    0xfc0ff2865334f576, 0xfc0bf6ce5924f576, 0x120a01040400, 0x3200145220882008,
    0x2080024008222242, 0x506083021021044, 0xc3ffb7dc36ca8c89, 0xc3ff8a54f4ca2c89,
    0xfffffcfcfd79edff, 0xfc0863fccb147576, 0x400002080482208, 0x8100000420208802,
    0x24000200a0425400, 0x100001080a280200, 0xfc087e8e4bb2f736, 0x43ff9e4ef4ca2c89,
];

/// The shift of a bishop's magic on each square.
pub const BISHOP_MAGIC_SHIFTS: [u8; 64] = [
    59, 60, 59, 59, 59, 59, 60, 59,
    60, 60, 59, 59, 59, 59, 60, 60,
    60, 60, 57, 57, 57, 57, 60, 60,
    59, 59, 57, 55, 55, 57, 59, 59,
    59, 59, 57, 55, 55, 57, 59, 59,
    60, 60, 57, 57, 57, 57, 60, 60,
    60, 60, 59, 59, 59, 59, 60, 60,
    59, 60, 59, 59, 59, 59, 60, 59,
];

/// The magic of a rook on `square`.
pub open spec fn spec_rook_magic(square: int) -> Magic
    recommends
        0 <= square < 64,
{
    Magic {
        mask: BitBoard(ROOK_MAGIC_MASKS[square]),
        magic: ROOK_MAGIC_NUMBERS[square],
        shift: ROOK_MAGIC_SHIFTS[square],
    }
}

/// The magic of a bishop on `square`.
pub open spec fn spec_bishop_magic(square: int) -> Magic
    recommends
        0 <= square < 64,
{
    Magic {
        mask: BitBoard(BISHOP_MAGIC_MASKS[square]),
        magic: BISHOP_MAGIC_NUMBERS[square],
        shift: BISHOP_MAGIC_SHIFTS[square],
    }
}

/// The magic of the slider kind `bishop` (a bishop if true, else a rook)
/// on `square`.
pub open spec fn spec_magic(bishop: bool, square: int) -> Magic {
    if bishop {
        spec_bishop_magic(square)
    } else {
        spec_rook_magic(square)
    }
}

/// The magic of a rook on `square`.
pub fn rook_magic(square: &Square) -> (m: Magic)
    requires
        square.on_board(),
    ensures
        m == spec_rook_magic(square.0 as int),
{
    let i = square.as_usize();
    Magic::new(BitBoard::new(ROOK_MAGIC_MASKS[i]), ROOK_MAGIC_NUMBERS[i], ROOK_MAGIC_SHIFTS[i])
}

/// The magic of a bishop on `square`.
pub fn bishop_magic(square: &Square) -> (m: Magic)
    requires
        square.on_board(),
    ensures
        m == spec_bishop_magic(square.0 as int),
{
    let i = square.as_usize();
    Magic::new(
        BitBoard::new(BISHOP_MAGIC_MASKS[i]),
        BISHOP_MAGIC_NUMBERS[i],
        BISHOP_MAGIC_SHIFTS[i],
    )
}

} // verus!
