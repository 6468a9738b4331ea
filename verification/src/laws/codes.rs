//! The fixed codes as functions of the index, in the form that the
//! bit-vector prover takes, and what it proves of them: no code starts
//! another.

use crate::tables::{CH_BITS_ASC, CH_CODE_ASC, DIST_BITS, DIST_CODE, LEN_BITS, LEN_CODE};
use vstd::prelude::*;

verus! {

/// Bit length of the code of length bucket `i`.
pub open spec fn len_bits_of(i: u32) -> u32 {
    match i {
        0 => 0x3,
        1 => 0x2,
        2 => 0x3,
        3 => 0x3,
        4 => 0x4,
        5 => 0x4,
        6 => 0x4,
        7 => 0x5,
        8 => 0x5,
        9 => 0x5,
        10 => 0x5,
        11 => 0x6,
        12 => 0x6,
        13 => 0x6,
        14 => 0x7,
        _ => 0x7,
    }
}

/// Code of length bucket `i`.
pub open spec fn len_code_of(i: u32) -> u32 {
    match i {
        0 => 0x5,
        1 => 0x3,
        2 => 0x1,
        3 => 0x6,
        4 => 0xa,
        5 => 0x2,
        6 => 0xc,
        7 => 0x14,
        8 => 0x4,
        9 => 0x18,
        10 => 0x8,
        11 => 0x30,
        12 => 0x10,
        13 => 0x20,
        14 => 0x40,
        _ => 0x0,
    }
}

/// Bit length of the code of the high part `i` of a distance.
pub open spec fn dist_bits_of(i: u32) -> u32 {
    match i {
        0 => 0x2,
        1 => 0x4,
        2 => 0x4,
        3 => 0x5,
        4 => 0x5,
        5 => 0x5,
        6 => 0x5,
        7 => 0x6,
        8 => 0x6,
        9 => 0x6,
        10 => 0x6,
        11 => 0x6,
        12 => 0x6,
        13 => 0x6,
        14 => 0x6,
        15 => 0x6,
        16 => 0x6,
        17 => 0x6,
        18 => 0x6,
        19 => 0x6,
        20 => 0x6,
        21 => 0x6,
        22 => 0x7,
        23 => 0x7,
        24 => 0x7,
        25 => 0x7,
        26 => 0x7,
        27 => 0x7,
        28 => 0x7,
        29 => 0x7,
        30 => 0x7,
        31 => 0x7,
        32 => 0x7,
        33 => 0x7,
        34 => 0x7,
        35 => 0x7,
        36 => 0x7,
        37 => 0x7,
        38 => 0x7,
        39 => 0x7,
        40 => 0x7,
        41 => 0x7,
        42 => 0x7,
        43 => 0x7,
        44 => 0x7,
        45 => 0x7,
        46 => 0x7,
        47 => 0x7,
        48 => 0x8,
        49 => 0x8,
        50 => 0x8,
        51 => 0x8,
        52 => 0x8,
        53 => 0x8,
        54 => 0x8,
        55 => 0x8,
        56 => 0x8,
        57 => 0x8,
        58 => 0x8,
        59 => 0x8,
        60 => 0x8,
        61 => 0x8,
        62 => 0x8,
        _ => 0x8,
    }
}

/// Code of the high part `i` of a distance.
pub open spec fn dist_code_of(i: u32) -> u32 {
    match i {
        0 => 0x3,
        1 => 0xd,
        2 => 0x5,
        3 => 0x19,
        4 => 0x9,
        5 => 0x11,
        6 => 0x1,
        7 => 0x3e,
        8 => 0x1e,
        9 => 0x2e,
        10 => 0xe,
        11 => 0x36,
        12 => 0x16,
        13 => 0x26,
        14 => 0x6,
        15 => 0x3a,
        16 => 0x1a,
        17 => 0x2a,
        18 => 0xa,
        19 => 0x32,
        20 => 0x12,
        21 => 0x22,
        22 => 0x42,
        23 => 0x2,
        24 => 0x7c,
        25 => 0x3c,
        26 => 0x5c,
        27 => 0x1c,
        28 => 0x6c,
        29 => 0x2c,
        30 => 0x4c,
        31 => 0xc,
        32 => 0x74,
        33 => 0x34,
        34 => 0x54,
        35 => 0x14,
        36 => 0x64,
        37 => 0x24,
        38 => 0x44,
        39 => 0x4,
        40 => 0x78,
        41 => 0x38,
        42 => 0x58,
        43 => 0x18,
        44 => 0x68,
        45 => 0x28,
        46 => 0x48,
        47 => 0x8,
        48 => 0xf0,
        49 => 0x70,
        50 => 0xb0,
        51 => 0x30,
        52 => 0xd0,
        53 => 0x50,
        54 => 0x90,
        55 => 0x10,
        56 => 0xe0,
        57 => 0x60,
        58 => 0xa0,
        59 => 0x20,
        60 => 0xc0,
        61 => 0x40,
        62 => 0x80,
        _ => 0x0,
    }
}

/// Bit length of the ASCII code of byte value `i`.
pub open spec fn ascii_bits_of(i: u32) -> u32 {
    match i {
        0 => 0xb,
        1 => 0xc,
        2 => 0xc,
        3 => 0xc,
        4 => 0xc,
        5 => 0xc,
        6 => 0xc,
        7 => 0xc,
        8 => 0xc,
        9 => 0x8,
        10 => 0x7,
        11 => 0xc,
        12 => 0xc,
        13 => 0x7,
        14 => 0xc,
        15 => 0xc,
        16 => 0xc,
        17 => 0xc,
        18 => 0xc,
        19 => 0xc,
        20 => 0xc,
        21 => 0xc,
        22 => 0xc,
        23 => 0xc,
        24 => 0xc,
        25 => 0xc,
        26 => 0xd,
        27 => 0xc,
        28 => 0xc,
        29 => 0xc,
        30 => 0xc,
        31 => 0xc,
        32 => 0x4,
        33 => 0xa,
        34 => 0x8,
        35 => 0xc,
        36 => 0xa,
        37 => 0xc,
        38 => 0xa,
        39 => 0x8,
        40 => 0x7,
        41 => 0x7,
        42 => 0x8,
        43 => 0x9,
        44 => 0x7,
        45 => 0x6,
        46 => 0x7,
        47 => 0x8,
        48 => 0x7,
        49 => 0x6,
        50 => 0x7,
        51 => 0x7,
        52 => 0x7,
        53 => 0x7,
        54 => 0x8,
        55 => 0x7,
        56 => 0x7,
        57 => 0x8,
        58 => 0x8,
        59 => 0xc,
        60 => 0xb,
        61 => 0x7,
        62 => 0x9,
        63 => 0xb,
        64 => 0xc,
        65 => 0x6,
        66 => 0x7,
        67 => 0x6,
        68 => 0x6,
        69 => 0x5,
        70 => 0x7,
        71 => 0x8,
        72 => 0x8,
        73 => 0x6,
        74 => 0xb,
        75 => 0x9,
        76 => 0x6,
        77 => 0x7,
        78 => 0x6,
        79 => 0x6,
        80 => 0x7,
        81 => 0xb,
        82 => 0x6,
        83 => 0x6,
        84 => 0x6,
        85 => 0x7,
        86 => 0x9,
        87 => 0x8,
        88 => 0x9,
        89 => 0x9,
        90 => 0xb,
        91 => 0x8,
        92 => 0xb,
        93 => 0x9,
        94 => 0xc,
        95 => 0x8,
        96 => 0xc,
        97 => 0x5,
        98 => 0x6,
        99 => 0x6,
        100 => 0x6,
        101 => 0x5,
        102 => 0x6,
        103 => 0x6,
        104 => 0x6,
        105 => 0x5,
        106 => 0xb,
        107 => 0x7,
        108 => 0x5,
        109 => 0x6,
        110 => 0x5,
        111 => 0x5,
        112 => 0x6,
        113 => 0xa,
        114 => 0x5,
        115 => 0x5,
        116 => 0x5,
        117 => 0x5,
        118 => 0x8,
        119 => 0x7,
        120 => 0x8,
        121 => 0x8,
        122 => 0xa,
        123 => 0xb,
        124 => 0xb,
        125 => 0xc,
        126 => 0xc,
        127 => 0xc,
        128 => 0xd,
        129 => 0xd,
        130 => 0xd,
        131 => 0xd,
        132 => 0xd,
        133 => 0xd,
        134 => 0xd,
        135 => 0xd,
        136 => 0xd,
        137 => 0xd,
        138 => 0xd,
        139 => 0xd,
        140 => 0xd,
        141 => 0xd,
        142 => 0xd,
        143 => 0xd,
        144 => 0xd,
        145 => 0xd,
        146 => 0xd,
        147 => 0xd,
        148 => 0xd,
        149 => 0xd,
        150 => 0xd,
        151 => 0xd,
        152 => 0xd,
        153 => 0xd,
        154 => 0xd,
        155 => 0xd,
        156 => 0xd,
        157 => 0xd,
        158 => 0xd,
        159 => 0xd,
        160 => 0xd,
        161 => 0xd,
        162 => 0xd,
        163 => 0xd,
        164 => 0xd,
        165 => 0xd,
        166 => 0xd,
        167 => 0xd,
        168 => 0xd,
        169 => 0xd,
        170 => 0xd,
        171 => 0xd,
        172 => 0xd,
        173 => 0xd,
        174 => 0xd,
        175 => 0xd,
        176 => 0xc,
        177 => 0xc,
        178 => 0xc,
        179 => 0xc,
        180 => 0xc,
        181 => 0xc,
        182 => 0xc,
        183 => 0xc,
        184 => 0xc,
        185 => 0xc,
        186 => 0xc,
        187 => 0xc,
        188 => 0xc,
        189 => 0xc,
        190 => 0xc,
        191 => 0xc,
        192 => 0xc,
        193 => 0xc,
        194 => 0xc,
        195 => 0xc,
        196 => 0xc,
        197 => 0xc,
        198 => 0xc,
        199 => 0xc,
        200 => 0xc,
        201 => 0xc,
        202 => 0xc,
        203 => 0xc,
        204 => 0xc,
        205 => 0xc,
        206 => 0xc,
        207 => 0xc,
        208 => 0xc,
        209 => 0xc,
        210 => 0xc,
        211 => 0xc,
        212 => 0xc,
        213 => 0xc,
        214 => 0xc,
        215 => 0xc,
        216 => 0xc,
        217 => 0xc,
        218 => 0xc,
        219 => 0xc,
        220 => 0xc,
        221 => 0xc,
        222 => 0xc,
        223 => 0xc,
        224 => 0xd,
        225 => 0xc,
        226 => 0xd,
        227 => 0xd,
        228 => 0xd,
        229 => 0xc,
        230 => 0xd,
        231 => 0xd,
        232 => 0xd,
        233 => 0xc,
        234 => 0xd,
        235 => 0xd,
        236 => 0xd,
        237 => 0xd,
        238 => 0xc,
        239 => 0xd,
        240 => 0xd,
        241 => 0xd,
        242 => 0xc,
        243 => 0xc,
        244 => 0xc,
        245 => 0xd,
        246 => 0xd,
        247 => 0xd,
        248 => 0xd,
        249 => 0xd,
        250 => 0xd,
        251 => 0xd,
        252 => 0xd,
        253 => 0xd,
        254 => 0xd,
        _ => 0xd,
    }
}

/// ASCII code of byte value `i`.
pub open spec fn ascii_code_of(i: u32) -> u32 {
    match i {
        0 => 0x490,
        1 => 0xfe0,
        2 => 0x7e0,
        3 => 0xbe0,
        4 => 0x3e0,
        5 => 0xde0,
        6 => 0x5e0,
        7 => 0x9e0,
        8 => 0x1e0,
        9 => 0xb8,
        10 => 0x62,
        11 => 0xee0,
        12 => 0x6e0,
        13 => 0x22,
        14 => 0xae0,
        15 => 0x2e0,
        16 => 0xce0,
        17 => 0x4e0,
        18 => 0x8e0,
        19 => 0xe0,
        20 => 0xf60,
        21 => 0x760,
        22 => 0xb60,
        23 => 0x360,
        24 => 0xd60,
        25 => 0x560,
        26 => 0x1240,
        27 => 0x960,
        28 => 0x160,
        29 => 0xe60,
        30 => 0x660,
        31 => 0xa60,
        32 => 0xf,
        33 => 0x250,
        34 => 0x38,
        35 => 0x260,
        36 => 0x50,
        37 => 0xc60,
        38 => 0x390,
        39 => 0xd8,
        40 => 0x42,
        41 => 0x2,
        42 => 0x58,
        43 => 0x1b0,
        44 => 0x7c,
        45 => 0x29,
        46 => 0x3c,
        47 => 0x98,
        48 => 0x5c,
        49 => 0x9,
        50 => 0x1c,
        51 => 0x6c,
        52 => 0x2c,
        53 => 0x4c,
        54 => 0x18,
        55 => 0xc,
        56 => 0x74,
        57 => 0xe8,
        58 => 0x68,
        59 => 0x460,
        60 => 0x90,
        61 => 0x34,
        62 => 0xb0,
        63 => 0x710,
        64 => 0x860,
        65 => 0x31,
        66 => 0x54,
        67 => 0x11,
        68 => 0x21,
        69 => 0x17,
        70 => 0x14,
        71 => 0xa8,
        72 => 0x28,
        73 => 0x1,
        74 => 0x310,
        75 => 0x130,
        76 => 0x3e,
        77 => 0x64,
        78 => 0x1e,
        79 => 0x2e,
        80 => 0x24,
        81 => 0x510,
        82 => 0xe,
        83 => 0x36,
        84 => 0x16,
        85 => 0x44,
        86 => 0x30,
        87 => 0xc8,
        88 => 0x1d0,
        89 => 0xd0,
        90 => 0x110,
        91 => 0x48,
        92 => 0x610,
        93 => 0x150,
        94 => 0x60,
        95 => 0x88,
        96 => 0xfa0,
        97 => 0x7,
        98 => 0x26,
        99 => 0x6,
        100 => 0x3a,
        101 => 0x1b,
        102 => 0x1a,
        103 => 0x2a,
        104 => 0xa,
        105 => 0xb,
        106 => 0x210,
        107 => 0x4,
        108 => 0x13,
        109 => 0x32,
        110 => 0x3,
        111 => 0x1d,
        112 => 0x12,
        113 => 0x190,
        114 => 0xd,
        115 => 0x15,
        116 => 0x5,
        117 => 0x19,
        118 => 0x8,
        119 => 0x78,
        120 => 0xf0,
        121 => 0x70,
        122 => 0x290,
        123 => 0x410,
        124 => 0x10,
        125 => 0x7a0,
        126 => 0xba0,
        127 => 0x3a0,
        128 => 0x240,
        129 => 0x1c40,
        130 => 0xc40,
        131 => 0x1440,
        132 => 0x440,
        133 => 0x1840,
        134 => 0x840,
        135 => 0x1040,
        136 => 0x40,
        137 => 0x1f80,
        138 => 0xf80,
        139 => 0x1780,
        140 => 0x780,
        141 => 0x1b80,
        142 => 0xb80,
        143 => 0x1380,
        144 => 0x380,
        145 => 0x1d80,
        146 => 0xd80,
        147 => 0x1580,
        148 => 0x580,
        149 => 0x1980,
        150 => 0x980,
        151 => 0x1180,
        152 => 0x180,
        153 => 0x1e80,
        154 => 0xe80,
        155 => 0x1680,
        156 => 0x680,
        157 => 0x1a80,
        158 => 0xa80,
        159 => 0x1280,
        160 => 0x280,
        161 => 0x1c80,
        162 => 0xc80,
        163 => 0x1480,
        164 => 0x480,
        165 => 0x1880,
        166 => 0x880,
        167 => 0x1080,
        168 => 0x80,
        169 => 0x1f00,
        170 => 0xf00,
        171 => 0x1700,
        172 => 0x700,
        173 => 0x1b00,
        174 => 0xb00,
        175 => 0x1300,
        176 => 0xda0,
        177 => 0x5a0,
        178 => 0x9a0,
        179 => 0x1a0,
        180 => 0xea0,
        181 => 0x6a0,
        182 => 0xaa0,
        183 => 0x2a0,
        184 => 0xca0,
        185 => 0x4a0,
        186 => 0x8a0,
        187 => 0xa0,
        188 => 0xf20,
        189 => 0x720,
        190 => 0xb20,
        191 => 0x320,
        192 => 0xd20,
        193 => 0x520,
        194 => 0x920,
        195 => 0x120,
        196 => 0xe20,
        197 => 0x620,
        198 => 0xa20,
        199 => 0x220,
        200 => 0xc20,
        201 => 0x420,
        202 => 0x820,
        203 => 0x20,
        204 => 0xfc0,
        205 => 0x7c0,
        206 => 0xbc0,
        207 => 0x3c0,
        208 => 0xdc0,
        209 => 0x5c0,
        210 => 0x9c0,
        211 => 0x1c0,
        212 => 0xec0,
        213 => 0x6c0,
        214 => 0xac0,
        215 => 0x2c0,
        216 => 0xcc0,
        217 => 0x4c0,
        218 => 0x8c0,
        219 => 0xc0,
        220 => 0xf40,
        221 => 0x740,
        222 => 0xb40,
        223 => 0x340,
        224 => 0x300,
        225 => 0xd40,
        226 => 0x1d00,
        227 => 0xd00,
        228 => 0x1500,
        229 => 0x540,
        230 => 0x500,
        231 => 0x1900,
        232 => 0x900,
        233 => 0x940,
        234 => 0x1100,
        235 => 0x100,
        236 => 0x1e00,
        237 => 0xe00,
        238 => 0x140,
        239 => 0x1600,
        240 => 0x600,
        241 => 0x1a00,
        242 => 0xe40,
        243 => 0x640,
        244 => 0xa40,
        245 => 0xa00,
        246 => 0x1200,
        247 => 0x200,
        248 => 0x1c00,
        249 => 0xc00,
        250 => 0x1400,
        251 => 0x400,
        252 => 0x1800,
        253 => 0x800,
        254 => 0x1000,
        _ => 0x0,
    }
}

/// The functions give the entries of the tables.
pub proof fn lemma_code_functions()
    ensures
        forall|i: u32|
            i < 16 ==> #[trigger] len_bits_of(i) == LEN_BITS[i as int] && len_code_of(i)
                == LEN_CODE[i as int],
        forall|i: u32|
            i < 64 ==> #[trigger] dist_bits_of(i) == DIST_BITS[i as int] && dist_code_of(i)
                == DIST_CODE[i as int],
        forall|i: u32|
            i < 256 ==> #[trigger] ascii_bits_of(i) == CH_BITS_ASC[i as int] && ascii_code_of(i)
                == CH_CODE_ASC[i as int],
{
}

/// The two codes agree on the bits that both have.
pub open spec fn codes_clash(code1: u32, bits1: u32, code2: u32, bits2: u32) -> bool {
    let shorter = if bits1 < bits2 {
        bits1
    } else {
        bits2
    };
    let mask = ((1u32 << shorter) - 1) as u32;
    code1 & mask == code2 & mask
}

/// No code of a length bucket starts the code of another.
pub proof fn lemma_length_codes_prefix_free(i: u32, j: u32)
    by (bit_vector)
    requires
        i < 16,
        j < 16,
        codes_clash(len_code_of(i), len_bits_of(i), len_code_of(j), len_bits_of(j)),
    ensures
        i == j,
{
}

/// No code of a high part of a distance starts the code of another.
pub proof fn lemma_distance_codes_prefix_free(i: u32, j: u32)
    by (bit_vector)
    requires
        i < 64,
        j < 64,
        codes_clash(dist_code_of(i), dist_bits_of(i), dist_code_of(j), dist_bits_of(j)),
    ensures
        i == j,
{
}

/// No ASCII code of a byte value starts the code of another.
#[verifier::rlimit(100)]
pub proof fn lemma_ascii_codes_prefix_free(i: u32, j: u32)
    by (bit_vector)
    requires
        i < 256,
        j < 256,
        codes_clash(ascii_code_of(i), ascii_bits_of(i), ascii_code_of(j), ascii_bits_of(j)),
    ensures
        i == j,
{
}

} // verus!
