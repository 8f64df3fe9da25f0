//! No two names of the machine's binary contract are the same.
//!
//! Each name tells its place in the table: names of one length differ in a
//! letter or two.

use crate::assembler::{lemma_abc, op_of, Insn};
use crate::counters::mnemonic;
use crate::treaty::{
    Constant, OP_ADD, OP_AT, OP_ATPUT, OP_BREAK, OP_CAPTURE, OP_CLASSOF, OP_DIV, OP_EQNUM, OP_GE,
    OP_GETBOX, OP_GETIVAR, OP_GT, OP_IDEQ, OP_JUMP, OP_JUMPFALSE, OP_JUMPTRUE, OP_LE, OP_LOADFALSE,
    OP_LOADINT, OP_LOADK, OP_LOADNIL, OP_LOADSELF, OP_LOADTRUE, OP_LT, OP_MKBOX, OP_MKCLOSURE,
    OP_MOD, OP_MOVE, OP_MUL, OP_NLR, OP_NOP, OP_NOT, OP_PRIM, OP_RET, OP_RETSELF, OP_SEND,
    OP_SENDSUPER, OP_SETBOX, OP_SETIVAR, OP_SIZE, OP_SUB,
};
use vstd::prelude::*;

verus! {

/// Where a name of 2 letters stands.
#[verifier::opaque]
pub open spec fn place_2(s: Seq<char>) -> int {
    if s[0] == 'A' {
        326
    } else if s[0] == 'L' && s[1] == 'T' {
        321
    } else if s[0] == 'L' {
        323
    } else if s[1] == 'T' {
        322
    } else {
        324
    }
}

/// Where a name of 3 letters stands.
#[verifier::opaque]
pub open spec fn place_3(s: Seq<char>) -> int {
    if s[2] == 'P' {
        291
    } else if s[2] == 'R' {
        309
    } else if s[2] == 'B' {
        317
    } else if s[2] == 'L' {
        318
    } else if s[2] == 'V' {
        319
    } else if s[0] == 'R' {
        307
    } else if s[0] == 'A' {
        316
    } else if s[0] == 'M' {
        320
    } else {
        330
    }
}

/// Where a name of 4 letters stands.
#[verifier::opaque]
pub open spec fn place_4(s: Seq<char>) -> int {
    if s[1] == 'O' {
        293
    } else if s[1] == 'E' {
        305
    } else if s[1] == 'R' {
        310
    } else if s[1] == 'U' {
        313
    } else if s[1] == 'I' {
        328
    } else {
        331
    }
}

/// Where a name of 5 letters stands.
#[verifier::opaque]
pub open spec fn place_5(s: Seq<char>) -> int {
    if s[0] == 'B' {
        292
    } else if s[0] == 'L' {
        294
    } else if s[0] == 'M' {
        304
    } else if s[0] == 'E' {
        325
    } else {
        327
    }
}

/// Where a name of 6 letters stands.
#[verifier::opaque]
pub open spec fn place_6(s: Seq<char>) -> int {
    if s[0] == 'G' {
        302
    } else {
        303
    }
}

/// Where a name of 7 letters stands.
#[verifier::opaque]
pub open spec fn place_7(s: Seq<char>) -> int {
    if s[4] == 'P' {
        2
    } else if s[4] == '_' {
        187
    } else if s[4] == 'I' {
        295
    } else if s[4] == 'N' {
        296
    } else if s[4] == 'E' {
        308
    } else if s[4] == 'U' {
        312
    } else if s[4] == 'S' {
        329
    } else if s[0] == 'G' {
        300
    } else {
        301
    }
}

/// Where a name of 8 letters stands.
#[verifier::opaque]
pub open spec fn place_8(s: Seq<char>) -> int {
    if s[0] == 'F' {
        23
    } else if s[0] == 'P' {
        185
    } else if s[0] == 'J' {
        314
    } else if s[4] == 'T' {
        297
    } else {
        299
    }
}

/// Where a name of 9 letters stands.
#[verifier::opaque]
pub open spec fn place_9(s: Seq<char>) -> int {
    if s[6] == 'X' {
        22
    } else if s[6] == 'E' {
        43
    } else if s[6] == 'A' {
        44
    } else if s[6] == 'B' {
        91
    } else if s[6] == 'R' {
        163
    } else if s[6] == 'I' {
        189
    } else if s[6] == 'G' {
        280
    } else if s[6] == 'P' {
        306
    } else if s[6] == 'U' {
        311
    } else if s[0] == 'L' {
        298
    } else {
        315
    }
}

/// Where a name of 10 letters stands.
#[verifier::opaque]
pub open spec fn place_10(s: Seq<char>) -> int {
    if s[8] == 'Y' {
        40
    } else if s[8] == 'E' {
        64
    } else if s[8] == 'A' {
        66
    } else if s[8] == 'U' {
        77
    } else if s[8] == 'P' {
        113
    } else if s[8] == 'F' {
        140
    } else if s[8] == 'S' {
        182
    } else if s[0] == 'P' {
        229
    } else if s[0] == 'T' {
        290
    } else if s[8] == 'L' && s[9] == 'T' {
        60
    } else if s[8] == 'L' {
        62
    } else if s[9] == 'T' {
        61
    } else {
        63
    }
}

/// Where a name of 11 letters stands.
#[verifier::opaque]
pub open spec fn place_11(s: Seq<char>) -> int {
    if s[8] == 'X' {
        30
    } else if s[8] == 'U' {
        32
    } else if s[8] == 'M' {
        59
    } else if s[8] == 'L' {
        78
    } else if s[8] == 'O' {
        80
    } else if s[8] == 'R' {
        87
    } else if s[8] == 'P' {
        188
    } else if s[5] == 'N' {
        0
    } else if s[5] == 'C' {
        15
    } else if s[5] == 'T' {
        16
    } else if s[5] == 'S' {
        167
    } else if s[5] == 'A' {
        168
    } else if s[5] == 'B' {
        254
    } else if s[6] == '_' {
        20
    } else if s[6] == 'F' {
        28
    } else if s[6] == 'O' {
        38
    } else if s[6] == 'L' {
        70
    } else if s[6] == 'C' {
        74
    } else if s[6] == 'S' {
        101
    } else if s[9] == 'E' {
        203
    } else if s[9] == 'L' && s[10] == 'T' {
        199
    } else if s[9] == 'L' {
        201
    } else if s[10] == 'T' {
        200
    } else {
        202
    }
}

/// Where a name of 12 letters stands.
#[verifier::opaque]
pub open spec fn place_12(s: Seq<char>) -> int {
    if s[4] == 'P' {
        1
    } else if s[4] == 'A' {
        35
    } else if s[4] == 'T' {
        41
    } else if s[4] == 'O' {
        132
    } else if s[4] == 'K' {
        135
    } else if s[4] == 'R' {
        145
    } else if s[4] == 'I' {
        169
    } else if s[4] == 'L' {
        283
    } else if s[8] == 'L' {
        25
    } else if s[8] == 'T' {
        27
    } else if s[8] == 'D' {
        31
    } else if s[8] == 'P' {
        55
    } else if s[8] == 'S' {
        68
    } else if s[8] == 'J' {
        72
    } else if s[8] == 'R' {
        82
    } else if s[8] == 'M' {
        84
    } else if s[9] == 'A' {
        193
    } else if s[9] == 'S' {
        194
    } else if s[9] == 'D' {
        196
    } else if s[9] == 'Q' {
        198
    } else if s[0] == 'H' {
        14
    } else if s[0] == 'G' {
        19
    } else if s[10] == 'U' {
        195
    } else {
        197
    }
}

/// Where a name of 13 letters stands.
#[verifier::opaque]
pub open spec fn place_13(s: Seq<char>) -> int {
    if s[10] == 'C' {
        33
    } else if s[10] == 'M' {
        57
    } else if s[10] == 'U' {
        71
    } else if s[10] == 'E' {
        95
    } else if s[10] == 'D' {
        127
    } else if s[10] == 'T' {
        162
    } else if s[10] == 'L' {
        170
    } else if s[10] == 'H' {
        257
    } else if s[0] == 'T' {
        3
    } else if s[0] == 'H' {
        8
    } else if s[0] == 'G' {
        18
    } else if s[0] == 'F' {
        26
    } else if s[0] == 'C' {
        99
    } else if s[0] == 'M' {
        144
    } else if s[11] == 'T' {
        4
    } else if s[11] == 'U' {
        56
    } else if s[11] == 'S' {
        69
    } else if s[11] == 'C' {
        111
    } else if s[11] == 'E' {
        217
    } else if s[11] == 'L' && s[12] == 'T' {
        213
    } else if s[11] == 'L' {
        215
    } else if s[12] == 'T' {
        214
    } else {
        216
    }
}

/// Where a name of 14 letters stands.
#[verifier::opaque]
pub open spec fn place_14(s: Seq<char>) -> int {
    if s[11] == 'V' {
        29
    } else if s[11] == 'C' {
        184
    } else if s[11] == 'Z' {
        186
    } else if s[11] == 'S' {
        210
    } else if s[11] == 'M' {
        211
    } else if s[11] == 'D' {
        212
    } else if s[11] == '_' {
        234
    } else if s[11] == 'E' {
        240
    } else if s[11] == 'O' {
        255
    } else if s[11] == 'T' {
        284
    } else if s[12] == 'T' {
        6
    } else if s[12] == 'S' {
        24
    } else if s[12] == 'U' {
        67
    } else if s[12] == 'O' {
        73
    } else if s[12] == 'L' {
        137
    } else if s[12] == 'D' {
        209
    } else if s[12] == 'Z' {
        244
    } else if s[0] == 'H' {
        7
    } else if s[0] == 'N' {
        126
    } else if s[0] == 'M' {
        151
    } else {
        238
    }
}

/// Where a name of 15 letters stands.
#[verifier::opaque]
pub open spec fn place_15(s: Seq<char>) -> int {
    if s[5] == 'L' {
        5
    } else if s[5] == 'O' {
        13
    } else if s[5] == 'U' {
        34
    } else if s[5] == 'I' {
        205
    } else if s[5] == 'N' {
        252
    } else if s[5] == 'T' {
        269
    } else if s[5] == 'R' {
        281
    } else if s[6] == 'M' {
        75
    } else if s[6] == 'C' {
        81
    } else if s[6] == 'N' {
        141
    } else if s[6] == 'T' {
        247
    } else if s[6] == 'O' {
        256
    } else if s[6] == 'R' {
        261
    } else if s[6] == 'A' {
        279
    } else if s[11] == '_' {
        58
    } else if s[11] == 'H' {
        96
    } else if s[11] == 'C' {
        131
    } else if s[11] == 'O' {
        136
    } else if s[11] == 'S' {
        219
    } else if s[9] == 'S' {
        10
    } else if s[9] == 'E' {
        88
    } else if s[9] == 'Y' {
        116
    } else if s[9] == 'T' {
        129
    } else if s[9] == 'L' {
        253
    } else if s[10] == 'C' {
        239
    } else {
        241
    }
}

/// Where a name of 16 letters stands.
#[verifier::opaque]
pub open spec fn place_16(s: Seq<char>) -> int {
    if s[7] == 'O' {
        9
    } else if s[7] == 'M' {
        12
    } else if s[7] == 'Y' {
        83
    } else if s[7] == 'B' {
        128
    } else if s[7] == 'C' {
        164
    } else if s[7] == 'S' {
        190
    } else if s[7] == 'A' {
        226
    } else if s[7] == 'L' {
        245
    } else if s[7] == 'D' {
        246
    } else if s[7] == 'G' {
        272
    } else if s[4] == 'I' {
        21
    } else if s[4] == 'N' {
        37
    } else if s[4] == 'E' {
        114
    } else if s[4] == 'D' {
        123
    } else if s[4] == 'O' {
        134
    } else if s[4] == 'K' {
        138
    } else if s[4] == 'A' {
        156
    } else if s[4] == 'M' {
        270
    } else if s[13] == 'A' {
        204
    } else if s[13] == 'X' {
        206
    } else {
        266
    }
}

/// Where a name of 17 letters stands.
#[verifier::opaque]
pub open spec fn place_17(s: Seq<char>) -> int {
    if s[9] == 'V' {
        45
    } else if s[9] == 'D' {
        65
    } else if s[9] == 'K' {
        102
    } else if s[9] == 'N' {
        130
    } else if s[9] == 'S' {
        153
    } else if s[9] == 'R' {
        172
    } else if s[9] == '_' {
        233
    } else if s[9] == 'L' {
        235
    } else if s[9] == 'H' {
        260
    } else if s[9] == 'C' {
        285
    } else if s[6] == 'O' {
        36
    } else if s[6] == 'F' {
        39
    } else if s[6] == 'S' {
        115
    } else if s[6] == 'M' {
        147
    } else if s[6] == 'T' {
        166
    } else if s[6] == 'L' {
        171
    } else if s[6] == 'N' {
        208
    } else if s[6] == 'I' {
        250
    } else if s[0] == 'G' {
        17
    } else if s[0] == 'E' {
        51
    } else if s[0] == 'C' {
        90
    } else {
        165
    }
}

/// Where a name of 18 letters stands.
#[verifier::opaque]
pub open spec fn place_18(s: Seq<char>) -> int {
    if s[17] == 'K' {
        47
    } else if s[17] == 'O' {
        133
    } else if s[17] == 'D' {
        139
    } else if s[17] == 'H' {
        183
    } else if s[17] == '0' {
        220
    } else if s[17] == '1' {
        221
    } else if s[17] == '2' {
        222
    } else if s[17] == '3' {
        223
    } else if s[17] == '4' {
        224
    } else if s[17] == 'N' {
        242
    } else if s[17] == 'P' {
        263
    } else if s[15] == 'O' {
        42
    } else if s[15] == 'G' {
        79
    } else if s[15] == 'U' {
        92
    } else if s[15] == 'L' {
        152
    } else if s[15] == '_' {
        249
    } else if s[15] == 'R' {
        265
    } else if s[15] == 'S' {
        271
    } else if s[15] == 'T' {
        289
    } else if s[8] == 'T' {
        146
    } else if s[8] == 'C' {
        173
    } else if s[8] == '_' {
        207
    } else if s[8] == 'F' {
        268
    } else if s[13] == 'C' {
        46
    } else {
        48
    }
}

/// Where a name of 19 letters stands.
#[verifier::opaque]
pub open spec fn place_19(s: Seq<char>) -> int {
    if s[17] == 'O' {
        11
    } else if s[17] == 'C' {
        94
    } else if s[17] == 'T' {
        143
    } else if s[17] == 'A' {
        160
    } else if s[17] == 'I' {
        227
    } else if s[17] == 'M' {
        231
    } else if s[17] == 'X' {
        237
    } else if s[17] == 'L' {
        259
    } else if s[17] == 'R' {
        262
    } else if s[1] == 'A' {
        49
    } else if s[1] == 'E' {
        104
    } else if s[1] == 'L' {
        159
    } else if s[1] == 'R' {
        258
    } else if s[1] == 'M' {
        278
    } else {
        286
    }
}

/// Where a name of 20 letters stands.
#[verifier::opaque]
pub open spec fn place_20(s: Seq<char>) -> int {
    if s[9] == 'C' {
        107
    } else if s[9] == 'R' {
        112
    } else if s[9] == 'U' {
        118
    } else if s[9] == 'S' {
        142
    } else if s[9] == 'O' {
        158
    } else if s[9] == 'Y' {
        174
    } else if s[9] == 'T' {
        218
    } else if s[9] == 'E' {
        230
    } else if s[9] == 'I' {
        264
    } else if s[17] == 'H' {
        93
    } else if s[17] == 'E' {
        120
    } else if s[17] == 'A' {
        121
    } else if s[17] == 'I' {
        155
    } else {
        191
    }
}

/// Where a name of 21 letters stands.
#[verifier::opaque]
pub open spec fn place_21(s: Seq<char>) -> int {
    if s[10] == 'U' {
        108
    } else if s[10] == 'T' {
        154
    } else if s[10] == 'P' {
        161
    } else if s[10] == 'J' {
        181
    } else if s[10] == '_' {
        225
    } else if s[10] == 'H' {
        228
    } else if s[10] == 'B' {
        273
    } else {
        276
    }
}

/// Where a name of 22 letters stands.
#[verifier::opaque]
pub open spec fn place_22(s: Seq<char>) -> int {
    if s[6] == 'U' {
        76
    } else if s[6] == 'S' {
        117
    } else if s[6] == 'O' {
        122
    } else if s[6] == 'L' {
        125
    } else if s[6] == '_' {
        148
    } else if s[6] == 'R' {
        232
    } else if s[6] == 'I' {
        243
    } else if s[5] == '_' {
        97
    } else if s[5] == 'R' {
        157
    } else if s[5] == 'P' {
        192
    } else if s[5] == 'S' {
        236
    } else {
        267
    }
}

/// Where a name of 23 letters stands.
#[verifier::opaque]
pub open spec fn place_23(s: Seq<char>) -> int {
    if s[0] == 'C' {
        100
    } else if s[0] == 'S' {
        180
    } else if s[0] == 'M' {
        282
    } else if s[0] == 'D' {
        287
    } else if s[21] == 'M' {
        248
    } else {
        251
    }
}

/// Where a name of 24 letters stands.
#[verifier::opaque]
pub open spec fn place_24(s: Seq<char>) -> int {
    if s[1] == 'L' {
        89
    } else if s[1] == 'E' {
        119
    } else {
        124
    }
}

/// Where a name of 25 letters stands.
#[verifier::opaque]
pub open spec fn place_25(s: Seq<char>) -> int {
    if s[0] == 'H' {
        50
    } else if s[0] == 'E' {
        54
    } else if s[0] == 'C' {
        98
    } else if s[0] == 'B' {
        106
    } else if s[0] == 'M' {
        150
    } else if s[0] == 'Y' {
        288
    } else if s[4] == 'O' {
        274
    } else {
        277
    }
}

/// Where a name of 26 letters stands.
#[verifier::opaque]
pub open spec fn place_26(s: Seq<char>) -> int {
    if s[20] == 'T' {
        52
    } else if s[20] == 'S' {
        53
    } else if s[20] == 'I' {
        105
    } else if s[20] == '_' {
        149
    } else {
        275
    }
}

/// Where a name of 27 letters stands.
#[verifier::opaque]
pub open spec fn place_27(s: Seq<char>) -> int {
    if s[8] == 'S' {
        177
    } else {
        179
    }
}

/// Where a name of 28 letters stands.
#[verifier::opaque]
pub open spec fn place_28(s: Seq<char>) -> int {
    if s[12] == 'P' {
        85
    } else if s[12] == 'N' {
        86
    } else if s[12] == 'R' {
        103
    } else if s[12] == 'L' {
        110
    } else {
        178
    }
}

/// Where a name of 29 letters stands.
#[verifier::opaque]
pub open spec fn place_29(s: Seq<char>) -> int {
    if s[0] == 'F' {
        109
    } else {
        175
    }
}

/// Where a name of 31 letters stands.
#[verifier::opaque]
pub open spec fn place_31(s: Seq<char>) -> int {
    176
}

/// Where a name stands in the table.
pub open spec fn place(s: Seq<char>) -> int {
    if s.len() == 2 {
        place_2(s)
    } else if s.len() == 3 {
        place_3(s)
    } else if s.len() == 4 {
        place_4(s)
    } else if s.len() == 5 {
        place_5(s)
    } else if s.len() == 6 {
        place_6(s)
    } else if s.len() == 7 {
        place_7(s)
    } else if s.len() == 8 {
        place_8(s)
    } else if s.len() == 9 {
        place_9(s)
    } else if s.len() == 10 {
        place_10(s)
    } else if s.len() == 11 {
        place_11(s)
    } else if s.len() == 12 {
        place_12(s)
    } else if s.len() == 13 {
        place_13(s)
    } else if s.len() == 14 {
        place_14(s)
    } else if s.len() == 15 {
        place_15(s)
    } else if s.len() == 16 {
        place_16(s)
    } else if s.len() == 17 {
        place_17(s)
    } else if s.len() == 18 {
        place_18(s)
    } else if s.len() == 19 {
        place_19(s)
    } else if s.len() == 20 {
        place_20(s)
    } else if s.len() == 21 {
        place_21(s)
    } else if s.len() == 22 {
        place_22(s)
    } else if s.len() == 23 {
        place_23(s)
    } else if s.len() == 24 {
        place_24(s)
    } else if s.len() == 25 {
        place_25(s)
    } else if s.len() == 26 {
        place_26(s)
    } else if s.len() == 27 {
        place_27(s)
    } else if s.len() == 28 {
        place_28(s)
    } else if s.len() == 29 {
        place_29(s)
    } else if s.len() == 31 {
        place_31(s)
    } else {
        -1
    }
}

/// Every constant of a table has the name that its place is told by.
pub open spec fn numbered(t: Seq<Constant>) -> bool {
    forall|i: int| 0 <= i < t.len() ==> place((#[trigger] t[i]).name) == i
}

/// No constant of a table is an opcode.
pub open spec fn without_opcodes(t: Seq<Constant>) -> bool {
    forall|i: int| 0 <= i < t.len() ==> (#[trigger] t[i]).group != "opcodes"@
}

/// The constant of an opcode.
pub open spec fn opcode_constant(op: u8) -> Constant {
    Constant { group: "opcodes"@, name: mnemonic(op)->0, value: op as u64 }
}

/// Every constant of a table from a place on is that of a known opcode.
pub open spec fn opcodes_from(t: Seq<Constant>, k: int) -> bool {
    forall|i: int|
        k <= i < t.len() ==> (#[trigger] t[i]).value < 256 && mnemonic(t[i].value as u8) is Some
            && t[i] == opcode_constant(t[i].value as u8)
}

proof fn lemma_tags_table(v: Seq<Constant>)
    requires
        numbered(v),
        v.len() == 0,
        without_opcodes(v),
    ensures
        numbered(crate::treaty::tags_table(v)),
        crate::treaty::tags_table(v).len() == 5,
        without_opcodes(crate::treaty::tags_table(v)),
{
    reveal(crate::treaty::tags_table);
    reveal_strlit("tags");
    reveal_strlit("opcodes");
    assert("tags"@.len() != "opcodes"@.len());
    reveal_strlit("TAG_INT_BIT");
    reveal_strlit("TAG_PTR_MASK");
    reveal_strlit("TAG_PTR");
    reveal_strlit("TAG_FLOAT_IMM");
    reveal_strlit("SMALLINT_BITS");
    reveal(place_7);
    reveal(place_11);
    reveal(place_12);
    reveal(place_13);
    let t = crate::treaty::tags_table(v);

}

proof fn lemma_header_table(v: Seq<Constant>)
    requires
        numbered(v),
        v.len() == 5,
        without_opcodes(v),
    ensures
        numbered(crate::treaty::header_table(v)),
        crate::treaty::header_table(v).len() == 22,
        without_opcodes(crate::treaty::header_table(v)),
{
    reveal(crate::treaty::header_table);
    reveal_strlit("header");
    reveal_strlit("opcodes");
    assert("header"@.len() != "opcodes"@.len());
    reveal_strlit("HDR_CLASS_SHIFT");
    reveal_strlit("HDR_CLASS_BITS");
    reveal_strlit("HDR_HASH_SHIFT");
    reveal_strlit("HDR_HASH_BITS");
    reveal_strlit("HDR_NSLOTS_SHIFT");
    reveal_strlit("HDR_NSLOTS_BITS");
    reveal_strlit("HDR_NSLOTS_OVERFLOW");
    reveal_strlit("HDR_FORMAT_SHIFT");
    reveal_strlit("HDR_FORMAT_BITS");
    reveal_strlit("HDR_GC_SHIFT");
    reveal_strlit("HDR_GC_BITS");
    reveal_strlit("GC_BIT_MARK");
    reveal_strlit("GC_BIT_REMEMBERED");
    reveal_strlit("GC_BIT_PINNED");
    reveal_strlit("GC_AGE_SHIFT");
    reveal_strlit("GC_AGE_BITS");
    reveal_strlit("GC_BIT_IMMUTABLE");
    reveal(place_11);
    reveal(place_12);
    reveal(place_13);
    reveal(place_14);
    reveal(place_15);
    reveal(place_16);
    reveal(place_17);
    reveal(place_19);
    let t = crate::treaty::header_table(v);
    assert forall|i: int| 0 <= i < t.len() implies place((#[trigger] t[i]).name) == i
        && t[i].group != "opcodes"@ by {
        if i < 5 {
            assert(t[i] == v[i]);
        }
    }
}

proof fn lemma_formats_table(v: Seq<Constant>)
    requires
        numbered(v),
        v.len() == 22,
        without_opcodes(v),
    ensures
        numbered(crate::treaty::formats_table(v)),
        crate::treaty::formats_table(v).len() == 25,
        without_opcodes(crate::treaty::formats_table(v)),
{
    reveal(crate::treaty::formats_table);
    reveal_strlit("formats");
    reveal_strlit("opcodes");
    assert("formats"@[0] != "opcodes"@[0]);
    reveal_strlit("FMT_FIXED");
    reveal_strlit("FMT_PTRS");
    reveal_strlit("FMT_BYTES_BASE");
    reveal(place_8);
    reveal(place_9);
    reveal(place_14);
    let t = crate::treaty::formats_table(v);
    assert forall|i: int| 0 <= i < t.len() implies place((#[trigger] t[i]).name) == i
        && t[i].group != "opcodes"@ by {
        if i < 22 {
            assert(t[i] == v[i]);
        }
    }
}

proof fn lemma_frame_table(v: Seq<Constant>)
    requires
        numbered(v),
        v.len() == 25,
        without_opcodes(v),
    ensures
        numbered(crate::treaty::frame_table(v)),
        crate::treaty::frame_table(v).len() == 38,
        without_opcodes(crate::treaty::frame_table(v)),
{
    reveal(crate::treaty::frame_table);
    reveal_strlit("frame");
    reveal_strlit("opcodes");
    assert("frame"@.len() != "opcodes"@.len());
    reveal_strlit("FRAME_CALLER");
    reveal_strlit("FRAME_RETINFO");
    reveal_strlit("FRAME_METHOD");
    reveal_strlit("FRAME_FLAGS");
    reveal_strlit("FRAME_RECEIVER");
    reveal_strlit("FRAME_FIXED");
    reveal_strlit("FLAG_HANDLER");
    reveal_strlit("FLAG_ENSURE");
    reveal_strlit("FLAG_BLOCKCTX");
    reveal_strlit("FLAG_UNWINDCONT");
    reveal_strlit("SERIAL_SHIFT");
    reveal_strlit("RETINFO_DEST_BITS");
    reveal_strlit("RETINFO_PC_SHIFT");
    reveal(place_11);
    reveal(place_12);
    reveal(place_13);
    reveal(place_14);
    reveal(place_15);
    reveal(place_16);
    reveal(place_17);
    let t = crate::treaty::frame_table(v);
    assert forall|i: int| 0 <= i < t.len() implies place((#[trigger] t[i]).name) == i
        && t[i].group != "opcodes"@ by {
        if i < 25 {
            assert(t[i] == v[i]);
        }
    }
}

proof fn lemma_stack_slots_table(v: Seq<Constant>)
    requires
        numbered(v),
        v.len() == 38,
        without_opcodes(v),
    ensures
        numbered(crate::treaty::stack_slots_table(v)),
        crate::treaty::stack_slots_table(v).len() == 40,
        without_opcodes(crate::treaty::stack_slots_table(v)),
{
    reveal(crate::treaty::stack_slots_table);
    reveal_strlit("stack_slots");
    reveal_strlit("opcodes");
    assert("stack_slots"@.len() != "opcodes"@.len());
    reveal_strlit("STACK_OWNER");
    reveal_strlit("STACK_FRAMES_BASE");
    reveal(place_11);
    reveal(place_17);
    let t = crate::treaty::stack_slots_table(v);
    assert forall|i: int| 0 <= i < t.len() implies place((#[trigger] t[i]).name) == i
        && t[i].group != "opcodes"@ by {
        if i < 38 {
            assert(t[i] == v[i]);
        }
    }
}

proof fn lemma_method_dictionary_slots_table(v: Seq<Constant>)
    requires
        numbered(v),
        v.len() == 40,
        without_opcodes(v),
    ensures
        numbered(crate::treaty::method_dictionary_slots_table(v)),
        crate::treaty::method_dictionary_slots_table(v).len() == 43,
        without_opcodes(crate::treaty::method_dictionary_slots_table(v)),
{
    reveal(crate::treaty::method_dictionary_slots_table);
    reveal_strlit("method_dictionary_slots");
    reveal_strlit("opcodes");
    assert("method_dictionary_slots"@.len() != "opcodes"@.len());
    reveal_strlit("MDICT_KEYS");
    reveal_strlit("MDICT_VALUES");
    reveal_strlit("MDICT_NUM_VM_SLOTS");
    reveal(place_10);
    reveal(place_12);
    reveal(place_18);
    let t = crate::treaty::method_dictionary_slots_table(v);
    assert forall|i: int| 0 <= i < t.len() implies place((#[trigger] t[i]).name) == i
        && t[i].group != "opcodes"@ by {
        if i < 40 {
            assert(t[i] == v[i]);
        }
    }
}

proof fn lemma_linked_list_slots_table(v: Seq<Constant>)
    requires
        numbered(v),
        v.len() == 43,
        without_opcodes(v),
    ensures
        numbered(crate::treaty::linked_list_slots_table(v)),
        crate::treaty::linked_list_slots_table(v).len() == 46,
        without_opcodes(crate::treaty::linked_list_slots_table(v)),
{
    reveal(crate::treaty::linked_list_slots_table);
    reveal_strlit("linked_list_slots");
    reveal_strlit("opcodes");
    assert("linked_list_slots"@.len() != "opcodes"@.len());
    reveal_strlit("LIST_HEAD");
    reveal_strlit("LIST_TAIL");
    reveal_strlit("LIST_NUM_VM_SLOTS");
    reveal(place_9);
    reveal(place_17);
    let t = crate::treaty::linked_list_slots_table(v);
    assert forall|i: int| 0 <= i < t.len() implies place((#[trigger] t[i]).name) == i
        && t[i].group != "opcodes"@ by {
        if i < 43 {
            assert(t[i] == v[i]);
        }
    }
}

proof fn lemma_handler_slots_table(v: Seq<Constant>)
    requires
        numbered(v),
        v.len() == 46,
        without_opcodes(v),
    ensures
        numbered(crate::treaty::handler_slots_table(v)),
        crate::treaty::handler_slots_table(v).len() == 55,
        without_opcodes(crate::treaty::handler_slots_table(v)),
{
    reveal(crate::treaty::handler_slots_table);
    reveal_strlit("handler_slots");
    reveal_strlit("opcodes");
    assert("handler_slots"@.len() != "opcodes"@.len());
    reveal_strlit("HANDLER_SLOT_CLASS");
    reveal_strlit("HANDLER_SLOT_BLOCK");
    reveal_strlit("HANDLER_SLOT_STATE");
    reveal_strlit("HANDLER_STATE_ARMED");
    reveal_strlit("HANDLER_STATE_IN_PROGRESS");
    reveal_strlit("ENSURE_SLOT_BLOCK");
    reveal_strlit("ENSURE_SLOT_PENDING_TARGET");
    reveal_strlit("ENSURE_SLOT_PENDING_SERIAL");
    reveal_strlit("ENSURE_SLOT_PENDING_VALUE");
    reveal(place_17);
    reveal(place_18);
    reveal(place_19);
    reveal(place_25);
    reveal(place_26);
    let t = crate::treaty::handler_slots_table(v);
    assert forall|i: int| 0 <= i < t.len() implies place((#[trigger] t[i]).name) == i
        && t[i].group != "opcodes"@ by {
        if i < 46 {
            assert(t[i] == v[i]);
        }
    }
}

proof fn lemma_specialized_selectors_table(v: Seq<Constant>)
    requires
        numbered(v),
        v.len() == 55,
        without_opcodes(v),
    ensures
        numbered(crate::treaty::specialized_selectors_table(v)),
        crate::treaty::specialized_selectors_table(v).len() == 72,
        without_opcodes(crate::treaty::specialized_selectors_table(v)),
{
    reveal(crate::treaty::specialized_selectors_table);
    reveal_strlit("specialized_selectors");
    reveal_strlit("opcodes");
    assert("specialized_selectors"@.len() != "opcodes"@.len());
    reveal_strlit("SPECSEL_PLUS");
    reveal_strlit("SPECSEL_MINUS");
    reveal_strlit("SPECSEL_TIMES");
    reveal_strlit("SPECSEL_INT_DIV");
    reveal_strlit("SPECSEL_MOD");
    reveal_strlit("SPECSEL_LT");
    reveal_strlit("SPECSEL_GT");
    reveal_strlit("SPECSEL_LE");
    reveal_strlit("SPECSEL_GE");
    reveal_strlit("SPECSEL_EQ");
    reveal_strlit("SPECSEL_IDENTICAL");
    reveal_strlit("SPECSEL_AT");
    reveal_strlit("SPECSEL_AT_PUT");
    reveal_strlit("SPECSEL_SIZE");
    reveal_strlit("SPECSEL_CLASS");
    reveal_strlit("SPECSEL_NOT");
    reveal_strlit("SPECSEL_COUNT");
    reveal(place_10);
    reveal(place_11);
    reveal(place_12);
    reveal(place_13);
    reveal(place_14);
    reveal(place_15);
    reveal(place_17);
    let t = crate::treaty::specialized_selectors_table(v);
    assert forall|i: int| 0 <= i < t.len() implies place((#[trigger] t[i]).name) == i
        && t[i].group != "opcodes"@ by {
        if i < 55 {
            assert(t[i] == v[i]);
        }
    }
}

proof fn lemma_classes_table_a(v: Seq<Constant>)
    requires
        numbered(v),
        v.len() == 72,
        without_opcodes(v),
    ensures
        numbered(crate::treaty::classes_table_a(v)),
        crate::treaty::classes_table_a(v).len() == 96,
        without_opcodes(crate::treaty::classes_table_a(v)),
{
    reveal(crate::treaty::classes_table_a);
    reveal_strlit("classes");
    reveal_strlit("opcodes");
    assert("classes"@[0] != "opcodes"@[0]);
    reveal_strlit("CLASS_OBJECT");
    reveal_strlit("CLASS_BEHAVIOR");
    reveal_strlit("CLASS_CLASS");
    reveal_strlit("CLASS_METACLASS");
    reveal_strlit("CLASS_UNDEFINED_OBJECT");
    reveal_strlit("CLASS_TRUE");
    reveal_strlit("CLASS_FALSE");
    reveal_strlit("CLASS_SMALLINTEGER");
    reveal_strlit("CLASS_FLOAT");
    reveal_strlit("CLASS_CHARACTER");
    reveal_strlit("CLASS_STRING");
    reveal_strlit("CLASS_BYTESTRING");
    reveal_strlit("CLASS_SYMBOL");
    reveal_strlit("CLASS_LARGE_POSITIVE_INTEGER");
    reveal_strlit("CLASS_LARGE_NEGATIVE_INTEGER");
    reveal_strlit("CLASS_ARRAY");
    reveal_strlit("CLASS_BYTEARRAY");
    reveal_strlit("CLASS_ORDERED_COLLECTION");
    reveal_strlit("CLASS_ASSOCIATION");
    reveal_strlit("CLASS_BOX");
    reveal_strlit("CLASS_BLOCKCLOSURE");
    reveal_strlit("CLASS_COMPILEDMETHOD");
    reveal_strlit("CLASS_COMPILEDBLOCK");
    reveal_strlit("CLASS_PROCESS");
    reveal(place_9);
    reveal(place_10);
    reveal(place_11);
    reveal(place_12);
    reveal(place_13);
    reveal(place_14);
    reveal(place_15);
    reveal(place_16);
    reveal(place_17);
    reveal(place_18);
    reveal(place_19);
    reveal(place_20);
    reveal(place_22);
    reveal(place_24);
    reveal(place_28);
    let t = crate::treaty::classes_table_a(v);
    assert forall|i: int| 0 <= i < t.len() implies place((#[trigger] t[i]).name) == i
        && t[i].group != "opcodes"@ by {
        if i < 72 {
            assert(t[i] == v[i]);
        }
    }
}

proof fn lemma_classes_table_b(v: Seq<Constant>)
    requires
        numbered(v),
        v.len() == 96,
        without_opcodes(v),
    ensures
        numbered(crate::treaty::classes_table_b(v)),
        crate::treaty::classes_table_b(v).len() == 104,
        without_opcodes(crate::treaty::classes_table_b(v)),
{
    reveal(crate::treaty::classes_table_b);
    reveal_strlit("classes");
    reveal_strlit("opcodes");
    assert("classes"@[0] != "opcodes"@[0]);
    reveal_strlit("CLASS_SEMAPHORE");
    reveal_strlit("CLASS_METHODDICTIONARY");
    reveal_strlit("CLASS_PROCESSOR_SCHEDULER");
    reveal_strlit("CLASS_MESSAGE");
    reveal_strlit("CLASS_SYSTEM_DICTIONARY");
    reveal_strlit("CLASS_STACK");
    reveal_strlit("CLASS_LINKED_LIST");
    reveal_strlit("FIRST_UNRESERVED_CLASS_INDEX");
    reveal(place_11);
    reveal(place_13);
    reveal(place_15);
    reveal(place_17);
    reveal(place_22);
    reveal(place_23);
    reveal(place_25);
    reveal(place_28);
    let t = crate::treaty::classes_table_b(v);
    assert forall|i: int| 0 <= i < t.len() implies place((#[trigger] t[i]).name) == i
        && t[i].group != "opcodes"@ by {
        if i < 96 {
            assert(t[i] == v[i]);
        }
    }
}

proof fn lemma_behavior_slots_table(v: Seq<Constant>)
    requires
        numbered(v),
        v.len() == 104,
        without_opcodes(v),
    ensures
        numbered(crate::treaty::behavior_slots_table(v)),
        crate::treaty::behavior_slots_table(v).len() == 111,
        without_opcodes(crate::treaty::behavior_slots_table(v)),
{
    reveal(crate::treaty::behavior_slots_table);
    reveal_strlit("behavior_slots");
    reveal_strlit("opcodes");
    assert("behavior_slots"@.len() != "opcodes"@.len());
    reveal_strlit("BEHAVIOR_SUPERCLASS");
    reveal_strlit("BEHAVIOR_METHOD_DICTIONARY");
    reveal_strlit("BEHAVIOR_FORMAT_AND_SLOTS");
    reveal_strlit("BEHAVIOR_CLASS_INDEX");
    reveal_strlit("BEHAVIOR_NUM_VM_SLOTS");
    reveal_strlit("FORMAT_AND_SLOTS_FORMAT_SHIFT");
    reveal_strlit("FORMAT_AND_SLOTS_NSLOTS_MASK");
    reveal(place_19);
    reveal(place_20);
    reveal(place_21);
    reveal(place_25);
    reveal(place_26);
    reveal(place_28);
    reveal(place_29);
    let t = crate::treaty::behavior_slots_table(v);
    assert forall|i: int| 0 <= i < t.len() implies place((#[trigger] t[i]).name) == i
        && t[i].group != "opcodes"@ by {
        if i < 104 {
            assert(t[i] == v[i]);
        }
    }
}

proof fn lemma_process_slots_table(v: Seq<Constant>)
    requires
        numbered(v),
        v.len() == 111,
        without_opcodes(v),
    ensures
        numbered(crate::treaty::process_slots_table(v)),
        crate::treaty::process_slots_table(v).len() == 119,
        without_opcodes(crate::treaty::process_slots_table(v)),
{
    reveal(crate::treaty::process_slots_table);
    reveal_strlit("process_slots");
    reveal_strlit("opcodes");
    assert("process_slots"@.len() != "opcodes"@.len());
    reveal_strlit("PROCESS_STACK");
    reveal_strlit("PROCESS_FRAME_OFFSET");
    reveal_strlit("PROCESS_PC");
    reveal_strlit("PROCESS_PRIORITY");
    reveal_strlit("PROCESS_NEXT_LINK");
    reveal_strlit("PROCESS_MY_LIST");
    reveal_strlit("PROCESS_SERIAL_COUNTER");
    reveal_strlit("PROCESS_NUM_VM_SLOTS");
    reveal(place_10);
    reveal(place_13);
    reveal(place_15);
    reveal(place_16);
    reveal(place_17);
    reveal(place_20);
    reveal(place_22);
    let t = crate::treaty::process_slots_table(v);
    assert forall|i: int| 0 <= i < t.len() implies place((#[trigger] t[i]).name) == i
        && t[i].group != "opcodes"@ by {
        if i < 111 {
            assert(t[i] == v[i]);
        }
    }
}

proof fn lemma_semaphore_slots_table(v: Seq<Constant>)
    requires
        numbered(v),
        v.len() == 119,
        without_opcodes(v),
    ensures
        numbered(crate::treaty::semaphore_slots_table(v)),
        crate::treaty::semaphore_slots_table(v).len() == 123,
        without_opcodes(crate::treaty::semaphore_slots_table(v)),
{
    reveal(crate::treaty::semaphore_slots_table);
    reveal_strlit("semaphore_slots");
    reveal_strlit("opcodes");
    assert("semaphore_slots"@.len() != "opcodes"@.len());
    reveal_strlit("SEMAPHORE_EXCESS_SIGNALS");
    reveal_strlit("SEMAPHORE_QUEUE_HEAD");
    reveal_strlit("SEMAPHORE_QUEUE_TAIL");
    reveal_strlit("SEMAPHORE_NUM_VM_SLOTS");
    reveal(place_20);
    reveal(place_22);
    reveal(place_24);
    let t = crate::treaty::semaphore_slots_table(v);
    assert forall|i: int| 0 <= i < t.len() implies place((#[trigger] t[i]).name) == i
        && t[i].group != "opcodes"@ by {
        if i < 119 {
            assert(t[i] == v[i]);
        }
    }
}

proof fn lemma_scheduler_slots_table(v: Seq<Constant>)
    requires
        numbered(v),
        v.len() == 123,
        without_opcodes(v),
    ensures
        numbered(crate::treaty::scheduler_slots_table(v)),
        crate::treaty::scheduler_slots_table(v).len() == 127,
        without_opcodes(crate::treaty::scheduler_slots_table(v)),
{
    reveal(crate::treaty::scheduler_slots_table);
    reveal_strlit("scheduler_slots");
    reveal_strlit("opcodes");
    assert("scheduler_slots"@.len() != "opcodes"@.len());
    reveal_strlit("SCHEDULER_QUEUES");
    reveal_strlit("SCHEDULER_ACTIVE_PROCESS");
    reveal_strlit("SCHEDULER_NUM_VM_SLOTS");
    reveal_strlit("NUM_PRIORITIES");
    reveal(place_14);
    reveal(place_16);
    reveal(place_22);
    reveal(place_24);
    let t = crate::treaty::scheduler_slots_table(v);
    assert forall|i: int| 0 <= i < t.len() implies place((#[trigger] t[i]).name) == i
        && t[i].group != "opcodes"@ by {
        if i < 123 {
            assert(t[i] == v[i]);
        }
    }
}

proof fn lemma_compiled_method_slots_table(v: Seq<Constant>)
    requires
        numbered(v),
        v.len() == 127,
        without_opcodes(v),
    ensures
        numbered(crate::treaty::compiled_method_slots_table(v)),
        crate::treaty::compiled_method_slots_table(v).len() == 135,
        without_opcodes(crate::treaty::compiled_method_slots_table(v)),
{
    reveal(crate::treaty::compiled_method_slots_table);
    reveal_strlit("compiled_method_slots");
    reveal_strlit("opcodes");
    assert("compiled_method_slots"@.len() != "opcodes"@.len());
    reveal_strlit("METHOD_HEADER");
    reveal_strlit("METHOD_BYTECODES");
    reveal_strlit("METHOD_LITERALS");
    reveal_strlit("METHOD_SEND_SITES");
    reveal_strlit("METHOD_SELECTOR");
    reveal_strlit("METHOD_CLASS");
    reveal_strlit("METHOD_SOURCE_INFO");
    reveal_strlit("METHOD_NUM_SLOTS");
    reveal(place_12);
    reveal(place_13);
    reveal(place_15);
    reveal(place_16);
    reveal(place_17);
    reveal(place_18);
    let t = crate::treaty::compiled_method_slots_table(v);
    assert forall|i: int| 0 <= i < t.len() implies place((#[trigger] t[i]).name) == i
        && t[i].group != "opcodes"@ by {
        if i < 127 {
            assert(t[i] == v[i]);
        }
    }
}

proof fn lemma_compiled_block_slots_table(v: Seq<Constant>)
    requires
        numbered(v),
        v.len() == 135,
        without_opcodes(v),
    ensures
        numbered(crate::treaty::compiled_block_slots_table(v)),
        crate::treaty::compiled_block_slots_table(v).len() == 142,
        without_opcodes(crate::treaty::compiled_block_slots_table(v)),
{
    reveal(crate::treaty::compiled_block_slots_table);
    reveal_strlit("compiled_block_slots");
    reveal_strlit("opcodes");
    assert("compiled_block_slots"@.len() != "opcodes"@.len());
    reveal_strlit("BLOCK_HEADER");
    reveal_strlit("BLOCK_BYTECODES");
    reveal_strlit("BLOCK_LITERALS");
    reveal_strlit("BLOCK_SEND_SITES");
    reveal_strlit("BLOCK_OUTER_METHOD");
    reveal_strlit("BLOCK_INFO");
    reveal_strlit("BLOCK_NUM_SLOTS");
    reveal(place_10);
    reveal(place_12);
    reveal(place_14);
    reveal(place_15);
    reveal(place_16);
    reveal(place_18);
    let t = crate::treaty::compiled_block_slots_table(v);
    assert forall|i: int| 0 <= i < t.len() implies place((#[trigger] t[i]).name) == i
        && t[i].group != "opcodes"@ by {
        if i < 135 {
            assert(t[i] == v[i]);
        }
    }
}

proof fn lemma_method_header_table(v: Seq<Constant>)
    requires
        numbered(v),
        v.len() == 142,
        without_opcodes(v),
    ensures
        numbered(crate::treaty::method_header_table(v)),
        crate::treaty::method_header_table(v).len() == 154,
        without_opcodes(crate::treaty::method_header_table(v)),
{
    reveal(crate::treaty::method_header_table);
    reveal_strlit("method_header");
    reveal_strlit("opcodes");
    assert("method_header"@.len() != "opcodes"@.len());
    reveal_strlit("MH_FRAME_SLOTS_SHIFT");
    reveal_strlit("MH_FRAME_SLOTS_BITS");
    reveal_strlit("MH_ARGC_SHIFT");
    reveal_strlit("MH_ARGC_BITS");
    reveal_strlit("MH_PRIMITIVE_SHIFT");
    reveal_strlit("MH_PRIMITIVE_BITS");
    reveal_strlit("MH_HAS_PRIMITIVE_SHIFT");
    reveal_strlit("MH_HANDLER_SLOT_BASE_SHIFT");
    reveal_strlit("MH_HANDLER_SLOT_BASE_BITS");
    reveal_strlit("MH_FLAGS_SHIFT");
    reveal_strlit("MH_FLAG_IS_HANDLER");
    reveal_strlit("MH_FLAG_IS_ENSURE");
    reveal(place_12);
    reveal(place_13);
    reveal(place_14);
    reveal(place_17);
    reveal(place_18);
    reveal(place_19);
    reveal(place_20);
    reveal(place_22);
    reveal(place_25);
    reveal(place_26);
    let t = crate::treaty::method_header_table(v);
    assert forall|i: int| 0 <= i < t.len() implies place((#[trigger] t[i]).name) == i
        && t[i].group != "opcodes"@ by {
        if i < 142 {
            assert(t[i] == v[i]);
        }
    }
}

proof fn lemma_block_info_table(v: Seq<Constant>)
    requires
        numbered(v),
        v.len() == 154,
        without_opcodes(v),
    ensures
        numbered(crate::treaty::block_info_table(v)),
        crate::treaty::block_info_table(v).len() == 157,
        without_opcodes(crate::treaty::block_info_table(v)),
{
    reveal(crate::treaty::block_info_table);
    reveal_strlit("block_info");
    reveal_strlit("opcodes");
    assert("block_info"@.len() != "opcodes"@.len());
    reveal_strlit("BI_NUM_CAPTURED_SHIFT");
    reveal_strlit("BI_NUM_CAPTURED_BITS");
    reveal_strlit("BI_HAS_NLR_SHIFT");
    reveal(place_16);
    reveal(place_20);
    reveal(place_21);
    let t = crate::treaty::block_info_table(v);
    assert forall|i: int| 0 <= i < t.len() implies place((#[trigger] t[i]).name) == i
        && t[i].group != "opcodes"@ by {
        if i < 154 {
            assert(t[i] == v[i]);
        }
    }
}

proof fn lemma_closure_slots_table(v: Seq<Constant>)
    requires
        numbered(v),
        v.len() == 157,
        without_opcodes(v),
    ensures
        numbered(crate::treaty::closure_slots_table(v)),
        crate::treaty::closure_slots_table(v).len() == 162,
        without_opcodes(crate::treaty::closure_slots_table(v)),
{
    reveal(crate::treaty::closure_slots_table);
    reveal_strlit("closure_slots");
    reveal_strlit("opcodes");
    assert("closure_slots"@.len() != "opcodes"@.len());
    reveal_strlit("CLOSURE_COMPILED_BLOCK");
    reveal_strlit("CLOSURE_HOME_PROCESS");
    reveal_strlit("CLOSURE_HOME_OFFSET");
    reveal_strlit("CLOSURE_HOME_SERIAL");
    reveal_strlit("CLOSURE_CAPTURED_BASE");
    reveal(place_19);
    reveal(place_20);
    reveal(place_21);
    reveal(place_22);
    let t = crate::treaty::closure_slots_table(v);
    assert forall|i: int| 0 <= i < t.len() implies place((#[trigger] t[i]).name) == i
        && t[i].group != "opcodes"@ by {
        if i < 157 {
            assert(t[i] == v[i]);
        }
    }
}

proof fn lemma_send_site_table(v: Seq<Constant>)
    requires
        numbered(v),
        v.len() == 162,
        without_opcodes(v),
    ensures
        numbered(crate::treaty::send_site_table(v)),
        crate::treaty::send_site_table(v).len() == 168,
        without_opcodes(crate::treaty::send_site_table(v)),
{
    reveal(crate::treaty::send_site_table);
    reveal_strlit("send_site");
    reveal_strlit("opcodes");
    assert("send_site"@.len() != "opcodes"@.len());
    reveal_strlit("SITE_SELECTOR");
    reveal_strlit("SITE_ARGC");
    reveal_strlit("SITE_CACHE_CLASS");
    reveal_strlit("SITE_CACHE_METHOD");
    reveal_strlit("SITE_STATIC_CLASS");
    reveal_strlit("SITE_STRIDE");
    reveal(place_9);
    reveal(place_11);
    reveal(place_13);
    reveal(place_16);
    reveal(place_17);
    let t = crate::treaty::send_site_table(v);
    assert forall|i: int| 0 <= i < t.len() implies place((#[trigger] t[i]).name) == i
        && t[i].group != "opcodes"@ by {
        if i < 162 {
            assert(t[i] == v[i]);
        }
    }
}

proof fn lemma_special_objects_table(v: Seq<Constant>)
    requires
        numbered(v),
        v.len() == 168,
        without_opcodes(v),
    ensures
        numbered(crate::treaty::special_objects_table(v)),
        crate::treaty::special_objects_table(v).len() == 182,
        without_opcodes(crate::treaty::special_objects_table(v)),
{
    reveal(crate::treaty::special_objects_table);
    reveal_strlit("special_objects");
    reveal_strlit("opcodes");
    assert("special_objects"@.len() != "opcodes"@.len());
    reveal_strlit("SPECIAL_NIL");
    reveal_strlit("SPECIAL_TRUE");
    reveal_strlit("SPECIAL_FALSE");
    reveal_strlit("SPECIAL_SMALLTALK");
    reveal_strlit("SPECIAL_PROCESSOR");
    reveal_strlit("SPECIAL_CLASS_LIST");
    reveal_strlit("SPECIAL_SYMBOL_TABLE");
    reveal_strlit("SPECIAL_SPECIALIZED_SELECTORS");
    reveal_strlit("SPECIAL_SEL_DOES_NOT_UNDERSTAND");
    reveal_strlit("SPECIAL_SEL_MUST_BE_BOOLEAN");
    reveal_strlit("SPECIAL_TERMINATE_TRAMPOLINE");
    reveal_strlit("SPECIAL_LOW_SPACE_SEMAPHORE");
    reveal_strlit("SPECIAL_TIMER_SEMAPHORE");
    reveal_strlit("SPECIAL_OBJECTS_COUNT");
    reveal(place_11);
    reveal(place_12);
    reveal(place_13);
    reveal(place_17);
    reveal(place_18);
    reveal(place_20);
    reveal(place_21);
    reveal(place_23);
    reveal(place_27);
    reveal(place_28);
    reveal(place_29);
    reveal(place_31);
    let t = crate::treaty::special_objects_table(v);
    assert forall|i: int| 0 <= i < t.len() implies place((#[trigger] t[i]).name) == i
        && t[i].group != "opcodes"@ by {
        if i < 168 {
            assert(t[i] == v[i]);
        }
    }
}

proof fn lemma_primitives_table_a(v: Seq<Constant>)
    requires
        numbered(v),
        v.len() == 182,
        without_opcodes(v),
    ensures
        numbered(crate::treaty::primitives_table_a(v)),
        crate::treaty::primitives_table_a(v).len() == 206,
        without_opcodes(crate::treaty::primitives_table_a(v)),
{
    reveal(crate::treaty::primitives_table_a);
    reveal_strlit("primitives");
    reveal_strlit("opcodes");
    assert("primitives"@.len() != "opcodes"@.len());
    reveal_strlit("PRIM_CLASS");
    reveal_strlit("PRIM_IDENTITY_HASH");
    reveal_strlit("PRIM_IDENTICAL");
    reveal_strlit("PRIM_NEW");
    reveal_strlit("PRIM_NEW_SIZED");
    reveal_strlit("PRIM_AT");
    reveal_strlit("PRIM_AT_PUT");
    reveal_strlit("PRIM_SIZE");
    reveal_strlit("PRIM_INST_VAR_AT");
    reveal_strlit("PRIM_INST_VAR_AT_PUT");
    reveal_strlit("PRIM_PERFORM_WITH_ARGS");
    reveal_strlit("PRIM_INT_ADD");
    reveal_strlit("PRIM_INT_SUB");
    reveal_strlit("PRIM_INT_MUL");
    reveal_strlit("PRIM_INT_DIV");
    reveal_strlit("PRIM_INT_MOD");
    reveal_strlit("PRIM_INT_QUO");
    reveal_strlit("PRIM_INT_LT");
    reveal_strlit("PRIM_INT_GT");
    reveal_strlit("PRIM_INT_LE");
    reveal_strlit("PRIM_INT_GE");
    reveal_strlit("PRIM_INT_EQ");
    reveal_strlit("PRIM_INT_BIT_AND");
    reveal_strlit("PRIM_INT_BIT_OR");
    reveal(place_7);
    reveal(place_8);
    reveal(place_9);
    reveal(place_10);
    reveal(place_11);
    reveal(place_12);
    reveal(place_14);
    reveal(place_15);
    reveal(place_16);
    reveal(place_18);
    reveal(place_20);
    reveal(place_22);
    let t = crate::treaty::primitives_table_a(v);
    assert forall|i: int| 0 <= i < t.len() implies place((#[trigger] t[i]).name) == i
        && t[i].group != "opcodes"@ by {
        if i < 182 {
            assert(t[i] == v[i]);
        }
    }
}

proof fn lemma_primitives_table_b(v: Seq<Constant>)
    requires
        numbered(v),
        v.len() == 206,
        without_opcodes(v),
    ensures
        numbered(crate::treaty::primitives_table_b(v)),
        crate::treaty::primitives_table_b(v).len() == 230,
        without_opcodes(crate::treaty::primitives_table_b(v)),
{
    reveal(crate::treaty::primitives_table_b);
    reveal_strlit("primitives");
    reveal_strlit("opcodes");
    assert("primitives"@.len() != "opcodes"@.len());
    reveal_strlit("PRIM_INT_BIT_XOR");
    reveal_strlit("PRIM_INT_BIT_SHIFT");
    reveal_strlit("PRIM_INT_AS_FLOAT");
    reveal_strlit("PRIM_FLOAT_ADD");
    reveal_strlit("PRIM_FLOAT_SUB");
    reveal_strlit("PRIM_FLOAT_MUL");
    reveal_strlit("PRIM_FLOAT_DIV");
    reveal_strlit("PRIM_FLOAT_LT");
    reveal_strlit("PRIM_FLOAT_GT");
    reveal_strlit("PRIM_FLOAT_LE");
    reveal_strlit("PRIM_FLOAT_GE");
    reveal_strlit("PRIM_FLOAT_EQ");
    reveal_strlit("PRIM_FLOAT_TRUNCATED");
    reveal_strlit("PRIM_FLOAT_SQRT");
    reveal_strlit("PRIM_BLOCK_VALUE_0");
    reveal_strlit("PRIM_BLOCK_VALUE_1");
    reveal_strlit("PRIM_BLOCK_VALUE_2");
    reveal_strlit("PRIM_BLOCK_VALUE_3");
    reveal_strlit("PRIM_BLOCK_VALUE_4");
    reveal_strlit("PRIM_BLOCK_VALUE_ARGS");
    reveal_strlit("PRIM_TRANSFER_TO");
    reveal_strlit("PRIM_SEMAPHORE_WAIT");
    reveal_strlit("PRIM_SEMAPHORE_SIGNAL");
    reveal_strlit("PRIM_YIELD");
    reveal(place_10);
    reveal(place_13);
    reveal(place_14);
    reveal(place_15);
    reveal(place_16);
    reveal(place_17);
    reveal(place_18);
    reveal(place_19);
    reveal(place_20);
    reveal(place_21);
    let t = crate::treaty::primitives_table_b(v);
    assert forall|i: int| 0 <= i < t.len() implies place((#[trigger] t[i]).name) == i
        && t[i].group != "opcodes"@ by {
        if i < 206 {
            assert(t[i] == v[i]);
        }
    }
}

proof fn lemma_primitives_table_c(v: Seq<Constant>)
    requires
        numbered(v),
        v.len() == 230,
        without_opcodes(v),
    ensures
        numbered(crate::treaty::primitives_table_c(v)),
        crate::treaty::primitives_table_c(v).len() == 254,
        without_opcodes(crate::treaty::primitives_table_c(v)),
{
    reveal(crate::treaty::primitives_table_c);
    reveal_strlit("primitives");
    reveal_strlit("opcodes");
    assert("primitives"@.len() != "opcodes"@.len());
    reveal_strlit("PRIM_PROCESS_SUSPEND");
    reveal_strlit("PRIM_PROCESS_RESUME");
    reveal_strlit("PRIM_PROCESS_TERMINATE");
    reveal_strlit("PRIM_FIND_HANDLER");
    reveal_strlit("PRIM_UNWIND_TO");
    reveal_strlit("PRIM_HANDLER_INFO");
    reveal_strlit("PRIM_SET_HANDLER_STATE");
    reveal_strlit("PRIM_SIGNAL_CONTEXT");
    reveal_strlit("PRIM_FILE_OPEN");
    reveal_strlit("PRIM_FILE_CLOSE");
    reveal_strlit("PRIM_FILE_READ");
    reveal_strlit("PRIM_FILE_WRITE");
    reveal_strlit("PRIM_FILE_POSITION");
    reveal_strlit("PRIM_FILE_SET_POSITION");
    reveal_strlit("PRIM_FILE_SIZE");
    reveal_strlit("PRIM_FILE_DELETE");
    reveal_strlit("PRIM_STDIO_WRITE");
    reveal_strlit("PRIM_STDIO_READ");
    reveal_strlit("PRIM_CLOCK_MONOTONIC_MS");
    reveal_strlit("PRIM_CLOCK_WALL_MS");
    reveal_strlit("PRIM_SIGNAL_AT_MS");
    reveal_strlit("PRIM_CLOCK_MONOTONIC_NS");
    reveal_strlit("PRIM_NEXT_EVENT");
    reveal_strlit("PRIM_PIXEL_BLIT");
    reveal(place_14);
    reveal(place_15);
    reveal(place_16);
    reveal(place_17);
    reveal(place_18);
    reveal(place_19);
    reveal(place_20);
    reveal(place_22);
    reveal(place_23);
    let t = crate::treaty::primitives_table_c(v);
    assert forall|i: int| 0 <= i < t.len() implies place((#[trigger] t[i]).name) == i
        && t[i].group != "opcodes"@ by {
        if i < 230 {
            assert(t[i] == v[i]);
        }
    }
}

proof fn lemma_primitives_table_d(v: Seq<Constant>)
    requires
        numbered(v),
        v.len() == 254,
        without_opcodes(v),
    ensures
        numbered(crate::treaty::primitives_table_d(v)),
        crate::treaty::primitives_table_d(v).len() == 270,
        without_opcodes(crate::treaty::primitives_table_d(v)),
{
    reveal(crate::treaty::primitives_table_d);
    reveal_strlit("primitives");
    reveal_strlit("opcodes");
    assert("primitives"@.len() != "opcodes"@.len());
    reveal_strlit("PRIM_BITBLT");
    reveal_strlit("PRIM_SAVE_FORM");
    reveal_strlit("PRIM_POST_EVENT");
    reveal_strlit("PRIM_SNAPSHOT");
    reveal_strlit("PRIM_REGISTER_CLASS");
    reveal_strlit("PRIM_METHOD_INSTALL");
    reveal_strlit("PRIM_FLUSH_CACHES");
    reveal_strlit("PRIM_FRAME_INFO");
    reveal_strlit("PRIM_PROFILER_START");
    reveal_strlit("PRIM_PROFILER_STOP");
    reveal_strlit("PRIM_PROFILER_REPORT");
    reveal_strlit("PRIM_PROFILER_TREE");
    reveal_strlit("PRIM_VM_COUNTERS");
    reveal_strlit("PRIM_VM_COUNTERS_RESET");
    reveal_strlit("PRIM_PROFILER_GATE");
    reveal_strlit("PRIM_TABLE_SIZE");
    reveal(place_11);
    reveal(place_13);
    reveal(place_14);
    reveal(place_15);
    reveal(place_16);
    reveal(place_17);
    reveal(place_18);
    reveal(place_19);
    reveal(place_20);
    reveal(place_22);
    let t = crate::treaty::primitives_table_d(v);
    assert forall|i: int| 0 <= i < t.len() implies place((#[trigger] t[i]).name) == i
        && t[i].group != "opcodes"@ by {
        if i < 254 {
            assert(t[i] == v[i]);
        }
    }
}

proof fn lemma_image_header_table(v: Seq<Constant>)
    requires
        numbered(v),
        v.len() == 270,
        without_opcodes(v),
    ensures
        numbered(crate::treaty::image_header_table(v)),
        crate::treaty::image_header_table(v).len() == 281,
        without_opcodes(crate::treaty::image_header_table(v)),
{
    reveal(crate::treaty::image_header_table);
    reveal_strlit("image_header");
    reveal_strlit("opcodes");
    assert("image_header"@.len() != "opcodes"@.len());
    reveal_strlit("IMG_MAGIC_OFFSET");
    reveal_strlit("IMG_VERSION_OFFSET");
    reveal_strlit("IMG_FLAGS_OFFSET");
    reveal_strlit("IMG_SAVED_BASE_OFFSET");
    reveal_strlit("IMG_OLD_SPACE_SIZE_OFFSET");
    reveal_strlit("IMG_SPECIAL_OBJECTS_OFFSET");
    reveal_strlit("IMG_CLASS_LIST_OFFSET");
    reveal_strlit("IMG_ACTIVE_PROCESS_OFFSET");
    reveal_strlit("IMG_RESERVED_OFFSET");
    reveal_strlit("IMG_HEADER_SIZE");
    reveal_strlit("IMG_MAGIC");
    reveal(place_9);
    reveal(place_15);
    reveal(place_16);
    reveal(place_18);
    reveal(place_19);
    reveal(place_21);
    reveal(place_25);
    reveal(place_26);
    let t = crate::treaty::image_header_table(v);
    assert forall|i: int| 0 <= i < t.len() implies place((#[trigger] t[i]).name) == i
        && t[i].group != "opcodes"@ by {
        if i < 270 {
            assert(t[i] == v[i]);
        }
    }
}

proof fn lemma_limits_table(v: Seq<Constant>)
    requires
        numbered(v),
        v.len() == 281,
        without_opcodes(v),
    ensures
        numbered(crate::treaty::limits_table(v)),
        crate::treaty::limits_table(v).len() == 291,
        without_opcodes(crate::treaty::limits_table(v)),
{
    reveal(crate::treaty::limits_table);
    reveal_strlit("limits");
    reveal_strlit("opcodes");
    assert("limits"@.len() != "opcodes"@.len());
    reveal_strlit("MAX_FRAME_SLOTS");
    reveal_strlit("MAX_METHOD_INSTRUCTIONS");
    reveal_strlit("MAX_LITERALS");
    reveal_strlit("MAX_SEND_SITES");
    reveal_strlit("LOOKUP_CACHE_SIZE");
    reveal_strlit("INITIAL_STACK_BYTES");
    reveal_strlit("DEFAULT_MAX_STACK_BYTES");
    reveal_strlit("YOUNG_SPACE_BYTES_DEFAULT");
    reveal_strlit("LARGE_OBJECT_BYTES");
    reveal_strlit("TENURE_AGE");
    reveal(place_10);
    reveal(place_12);
    reveal(place_14);
    reveal(place_15);
    reveal(place_17);
    reveal(place_18);
    reveal(place_19);
    reveal(place_23);
    reveal(place_25);
    let t = crate::treaty::limits_table(v);
    assert forall|i: int| 0 <= i < t.len() implies place((#[trigger] t[i]).name) == i
        && t[i].group != "opcodes"@ by {
        if i < 281 {
            assert(t[i] == v[i]);
        }
    }
}

proof fn lemma_opcodes_table_a(v: Seq<Constant>)
    requires
        numbered(v),
        v.len() == 291,
    ensures
        numbered(crate::treaty::opcodes_table_a(v)),
        crate::treaty::opcodes_table_a(v).len() == 315,
        forall|i: int| 0 <= i < 291 ==> (#[trigger] crate::treaty::opcodes_table_a(v)[i]) == v[i],
        opcodes_from(crate::treaty::opcodes_table_a(v), 291),
{
    reveal(crate::treaty::opcodes_table_a);
    reveal_strlit("NOP");
    reveal_strlit("BREAK");
    reveal_strlit("MOVE");
    reveal_strlit("LOADK");
    reveal_strlit("LOADINT");
    reveal_strlit("LOADNIL");
    reveal_strlit("LOADTRUE");
    reveal_strlit("LOADFALSE");
    reveal_strlit("LOADSELF");
    reveal_strlit("GETIVAR");
    reveal_strlit("SETIVAR");
    reveal_strlit("GETBOX");
    reveal_strlit("SETBOX");
    reveal_strlit("MKBOX");
    reveal_strlit("SEND");
    reveal_strlit("SENDSUPER");
    reveal_strlit("RET");
    reveal_strlit("RETSELF");
    reveal_strlit("NLR");
    reveal_strlit("PRIM");
    reveal_strlit("MKCLOSURE");
    reveal_strlit("CAPTURE");
    reveal_strlit("JUMP");
    reveal_strlit("JUMPTRUE");
    reveal(place_3);
    reveal(place_4);
    reveal(place_5);
    reveal(place_6);
    reveal(place_7);
    reveal(place_8);
    reveal(place_9);
    let t = crate::treaty::opcodes_table_a(v);
    assert forall|i: int| 0 <= i < t.len() implies place((#[trigger] t[i]).name) == i by {
        if i < 291 {
            assert(t[i] == v[i]);
        }
    }
}

proof fn lemma_opcodes_table_b(v: Seq<Constant>)
    requires
        numbered(v),
        v.len() == 315,
        opcodes_from(v, 291),
    ensures
        numbered(crate::treaty::opcodes_table_b(v)),
        crate::treaty::opcodes_table_b(v).len() == 332,
        forall|i: int| 0 <= i < 315 ==> (#[trigger] crate::treaty::opcodes_table_b(v)[i]) == v[i],
        opcodes_from(crate::treaty::opcodes_table_b(v), 291),
{
    reveal(crate::treaty::opcodes_table_b);
    reveal_strlit("JUMPFALSE");
    reveal_strlit("ADD");
    reveal_strlit("SUB");
    reveal_strlit("MUL");
    reveal_strlit("DIV");
    reveal_strlit("MOD");
    reveal_strlit("LT");
    reveal_strlit("GT");
    reveal_strlit("LE");
    reveal_strlit("GE");
    reveal_strlit("EQNUM");
    reveal_strlit("AT");
    reveal_strlit("ATPUT");
    reveal_strlit("SIZE");
    reveal_strlit("CLASSOF");
    reveal_strlit("NOT");
    reveal_strlit("IDEQ");
    reveal(place_2);
    reveal(place_3);
    reveal(place_4);
    reveal(place_5);
    reveal(place_7);
    reveal(place_9);
    let t = crate::treaty::opcodes_table_b(v);
    assert forall|i: int| 0 <= i < t.len() implies place((#[trigger] t[i]).name) == i by {
        if i < 315 {
            assert(t[i] == v[i]);
        }
    }
}

/// The constants before the opcodes.
pub open spec fn named_tables() -> Seq<Constant> {
    let t0 = crate::treaty::tags_table(Seq::<Constant>::empty());
    let t1 = crate::treaty::header_table(t0);
    let t2 = crate::treaty::formats_table(t1);
    let t3 = crate::treaty::frame_table(t2);
    let t4 = crate::treaty::stack_slots_table(t3);
    let t5 = crate::treaty::method_dictionary_slots_table(t4);
    let t6 = crate::treaty::linked_list_slots_table(t5);
    let t7 = crate::treaty::handler_slots_table(t6);
    let t8 = crate::treaty::specialized_selectors_table(t7);
    let t9 = crate::treaty::classes_table_a(t8);
    let t10 = crate::treaty::classes_table_b(t9);
    let t11 = crate::treaty::behavior_slots_table(t10);
    let t12 = crate::treaty::process_slots_table(t11);
    let t13 = crate::treaty::semaphore_slots_table(t12);
    let t14 = crate::treaty::scheduler_slots_table(t13);
    let t15 = crate::treaty::compiled_method_slots_table(t14);
    let t16 = crate::treaty::compiled_block_slots_table(t15);
    let t17 = crate::treaty::method_header_table(t16);
    let t18 = crate::treaty::block_info_table(t17);
    let t19 = crate::treaty::closure_slots_table(t18);
    let t20 = crate::treaty::send_site_table(t19);
    let t21 = crate::treaty::special_objects_table(t20);
    let t22 = crate::treaty::primitives_table_a(t21);
    let t23 = crate::treaty::primitives_table_b(t22);
    let t24 = crate::treaty::primitives_table_c(t23);
    let t25 = crate::treaty::primitives_table_d(t24);
    let t26 = crate::treaty::image_header_table(t25);
    let t27 = crate::treaty::limits_table(t26);
    t27
}

proof fn lemma_named_tables()
    ensures
        numbered(named_tables()),
        named_tables().len() == 291,
        without_opcodes(named_tables()),
        crate::treaty::treaty_table() == crate::treaty::opcodes_table_b(crate::treaty::opcodes_table_a(named_tables())),
{
    let t = Seq::<Constant>::empty();
    lemma_tags_table(t);
    let t = crate::treaty::tags_table(t);
    lemma_header_table(t);
    let t = crate::treaty::header_table(t);
    lemma_formats_table(t);
    let t = crate::treaty::formats_table(t);
    lemma_frame_table(t);
    let t = crate::treaty::frame_table(t);
    lemma_stack_slots_table(t);
    let t = crate::treaty::stack_slots_table(t);
    lemma_method_dictionary_slots_table(t);
    let t = crate::treaty::method_dictionary_slots_table(t);
    lemma_linked_list_slots_table(t);
    let t = crate::treaty::linked_list_slots_table(t);
    lemma_handler_slots_table(t);
    let t = crate::treaty::handler_slots_table(t);
    lemma_specialized_selectors_table(t);
    let t = crate::treaty::specialized_selectors_table(t);
    lemma_classes_table_a(t);
    let t = crate::treaty::classes_table_a(t);
    lemma_classes_table_b(t);
    let t = crate::treaty::classes_table_b(t);
    lemma_behavior_slots_table(t);
    let t = crate::treaty::behavior_slots_table(t);
    lemma_process_slots_table(t);
    let t = crate::treaty::process_slots_table(t);
    lemma_semaphore_slots_table(t);
    let t = crate::treaty::semaphore_slots_table(t);
    lemma_scheduler_slots_table(t);
    let t = crate::treaty::scheduler_slots_table(t);
    lemma_compiled_method_slots_table(t);
    let t = crate::treaty::compiled_method_slots_table(t);
    lemma_compiled_block_slots_table(t);
    let t = crate::treaty::compiled_block_slots_table(t);
    lemma_method_header_table(t);
    let t = crate::treaty::method_header_table(t);
    lemma_block_info_table(t);
    let t = crate::treaty::block_info_table(t);
    lemma_closure_slots_table(t);
    let t = crate::treaty::closure_slots_table(t);
    lemma_send_site_table(t);
    let t = crate::treaty::send_site_table(t);
    lemma_special_objects_table(t);
    let t = crate::treaty::special_objects_table(t);
    lemma_primitives_table_a(t);
    let t = crate::treaty::primitives_table_a(t);
    lemma_primitives_table_b(t);
    let t = crate::treaty::primitives_table_b(t);
    lemma_primitives_table_c(t);
    let t = crate::treaty::primitives_table_c(t);
    lemma_primitives_table_d(t);
    let t = crate::treaty::primitives_table_d(t);
    lemma_image_header_table(t);
    let t = crate::treaty::image_header_table(t);
    lemma_limits_table(t);
    let t = crate::treaty::limits_table(t);
}

/// The whole table is numbered, and its opcodes are the last of it.
proof fn lemma_table()
    ensures
        numbered(crate::treaty::treaty_table()),
        crate::treaty::treaty_table().len() == 332,
        forall|i: int| 0 <= i < 291 ==> (#[trigger] crate::treaty::treaty_table()[i]).group != "opcodes"@,
        opcodes_from(crate::treaty::treaty_table(), 291),
{
    lemma_named_tables();
    let v = named_tables();
    lemma_opcodes_table_a(v);
    lemma_opcodes_table_b(crate::treaty::opcodes_table_a(v));
    let t = crate::treaty::treaty_table();
    assert forall|i: int| 0 <= i < 291 implies (#[trigger] t[i]).group != "opcodes"@ by {
        assert(t[i] == crate::treaty::opcodes_table_a(v)[i] && crate::treaty::opcodes_table_a(v)[i] == v[i]);
    }
}

/// Every known opcode stands in the table.
proof fn lemma_opcode_found(op: u8)
    requires
        mnemonic(op) is Some,
    ensures
        exists|i: int|
            291 <= i < crate::treaty::treaty_table().len() && #[trigger] crate::treaty::treaty_table()[i] == opcode_constant(op),
{
    lemma_named_tables();
    let v = named_tables();
    let t = crate::treaty::treaty_table();
    let c = opcode_constant(op);
    lemma_opcodes_table_a(v);
    lemma_opcodes_table_b(crate::treaty::opcodes_table_a(v));
    reveal(crate::treaty::opcodes_table_a);
    reveal(crate::treaty::opcodes_table_b);
    if op == OP_NOP {
        assert(t[291] == c);
    } else if op == OP_BREAK {
        assert(t[292] == c);
    } else if op == OP_MOVE {
        assert(t[293] == c);
    } else if op == OP_LOADK {
        assert(t[294] == c);
    } else if op == OP_LOADINT {
        assert(t[295] == c);
    } else if op == OP_LOADNIL {
        assert(t[296] == c);
    } else if op == OP_LOADTRUE {
        assert(t[297] == c);
    } else if op == OP_LOADFALSE {
        assert(t[298] == c);
    } else if op == OP_LOADSELF {
        assert(t[299] == c);
    } else if op == OP_GETIVAR {
        assert(t[300] == c);
    } else if op == OP_SETIVAR {
        assert(t[301] == c);
    } else if op == OP_GETBOX {
        assert(t[302] == c);
    } else if op == OP_SETBOX {
        assert(t[303] == c);
    } else if op == OP_MKBOX {
        assert(t[304] == c);
    } else if op == OP_SEND {
        assert(t[305] == c);
    } else if op == OP_SENDSUPER {
        assert(t[306] == c);
    } else if op == OP_RET {
        assert(t[307] == c);
    } else if op == OP_RETSELF {
        assert(t[308] == c);
    } else if op == OP_NLR {
        assert(t[309] == c);
    } else if op == OP_PRIM {
        assert(t[310] == c);
    } else if op == OP_MKCLOSURE {
        assert(t[311] == c);
    } else if op == OP_CAPTURE {
        assert(t[312] == c);
    } else if op == OP_JUMP {
        assert(t[313] == c);
    } else if op == OP_JUMPTRUE {
        assert(t[314] == c);
    } else if op == OP_JUMPFALSE {
        assert(t[315] == c);
    } else if op == OP_ADD {
        assert(t[316] == c);
    } else if op == OP_SUB {
        assert(t[317] == c);
    } else if op == OP_MUL {
        assert(t[318] == c);
    } else if op == OP_DIV {
        assert(t[319] == c);
    } else if op == OP_MOD {
        assert(t[320] == c);
    } else if op == OP_LT {
        assert(t[321] == c);
    } else if op == OP_GT {
        assert(t[322] == c);
    } else if op == OP_LE {
        assert(t[323] == c);
    } else if op == OP_GE {
        assert(t[324] == c);
    } else if op == OP_EQNUM {
        assert(t[325] == c);
    } else if op == OP_AT {
        assert(t[326] == c);
    } else if op == OP_ATPUT {
        assert(t[327] == c);
    } else if op == OP_SIZE {
        assert(t[328] == c);
    } else if op == OP_CLASSOF {
        assert(t[329] == c);
    } else if op == OP_NOT {
        assert(t[330] == c);
    } else if op == OP_IDEQ {
        assert(t[331] == c);
    }
}

/// No two constants have the same name.
pub proof fn law_names_are_distinct(i: int, j: int)
    requires
        0 <= i < j < crate::treaty::treaty_table().len(),
    ensures
        crate::treaty::treaty_table()[i].name != crate::treaty::treaty_table()[j].name,
{
    lemma_table();
    assert(place(crate::treaty::treaty_table()[i].name) == i && place(crate::treaty::treaty_table()[j].name) == j);
}

/// The constants of the group of opcodes are the known opcodes under their mnemonics, each of
/// them and nothing else.
pub proof fn law_opcodes_are_named(name: Seq<char>, value: u64)
    ensures
        crate::treaty::treaty_table().contains(Constant { group: "opcodes"@, name, value }) <==> value < 256
            && mnemonic(value as u8) == Some(name),
{
    lemma_table();
    let t = crate::treaty::treaty_table();
    let c = Constant { group: "opcodes"@, name, value };
    if t.contains(c) {
        let i = choose|i: int| 0 <= i < t.len() && t[i] == c;
        assert(i >= 291);
        assert(t[i] == opcode_constant(value as u8));
    }
    if value < 256 && mnemonic(value as u8) == Some(name) {
        lemma_opcode_found(value as u8);
        assert(opcode_constant(value as u8) == c);
    }
}

/// A mnemonic tells its opcode.
pub proof fn law_mnemonics_are_distinct(p: u8, q: u8)
    requires
        mnemonic(p) is Some,
        mnemonic(p) == mnemonic(q),
    ensures
        p == q,
{
    lemma_opcode_found(p);
    lemma_opcode_found(q);
    let t = crate::treaty::treaty_table();
    let i = choose|i: int| 291 <= i < t.len() && #[trigger] t[i] == opcode_constant(p);
    let j = choose|j: int| 291 <= j < t.len() && #[trigger] t[j] == opcode_constant(q);
    lemma_table();
    assert(place(t[i].name) == i && place(t[j].name) == j);
}

/// An opcode has a mnemonic exactly when a word with that opcode decodes, the bare opcode among
/// them.
pub proof fn law_named_opcodes_decode(op: u8, w: u32)
    requires
        op_of(w) == op,
    ensures
        mnemonic(op) is Some <==> Insn::of_word(w) is Some,
        mnemonic(op) is Some <==> Insn::of_word(op as u32) is Some,
{
    lemma_abc(op, 0, 0, 0);
}

} // verus!
