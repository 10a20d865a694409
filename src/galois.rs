//! Arithmetic in GF(256): powers of the generator element and their inverse.
use crate::tables::MODULO_BYTE_WISE;
use vstd::prelude::*;

verus! {

/// Exponents beyond the group order 255 are folded back; 255 itself is kept.
pub open spec fn reduce_spec(e: int) -> int {
    if e > 255 {
        e % 255
    } else {
        e
    }
}

/// One multiplication by the generator: double, and reduce once the value leaves a byte.
pub open spec fn times_alpha(p: u32) -> u32 {
    let d = (p * 2) as u32;
    if d >= 255 {
        d ^ MODULO_BYTE_WISE
    } else {
        d
    }
}

/// 2^e in GF(256), for an exponent already reduced.
pub open spec fn exp_raw(e: nat) -> u32
    decreases e,
{
    if e == 0 {
        1
    } else {
        times_alpha(exp_raw((e - 1) as nat))
    }
}

/// The field element 2^e.
pub open spec fn gf_exp(e: int) -> u32 {
    exp_raw(reduce_spec(e) as nat)
}

/// The least exponent in [i, 255) whose power is t, or 0 when there is none.
pub open spec fn log_search(t: int, i: int) -> int
    decreases 255 - i,
{
    if i >= 255 {
        0
    } else if exp_raw(i as nat) as int == t {
        i
    } else {
        log_search(t, i + 1)
    }
}

/// Discrete logarithm: the least e in [0, 255) with 2^e == v (after folding v),
/// and 0 for a value that no power reaches (as 0).
pub open spec fn gf_log(v: int) -> int {
    log_search(reduce_spec(v), 0)
}

proof fn lemma_times_alpha_byte(p: u32)
    requires
        1 <= p < 256,
    ensures
        1 <= times_alpha(p) < 256,
{
    let d = (p * 2) as u32;
    assert(d < 512 && d >= 2 && d & 1 == 0) by {
        assert(d == p * 2);
        assert((p * 2) as u32 & 1 == 0) by (bit_vector)
            requires
                p < 256,
        ;
    }
    if d >= 255 {
        assert((d ^ 285u32) < 256 && (d ^ 285u32) >= 1) by (bit_vector)
            requires
                d < 512,
                d >= 255,
                d & 1 == 0,
        ;
    }
}

/// Every power of the generator is a nonzero byte.
pub proof fn lemma_exp_raw_byte(e: nat)
    ensures
        1 <= exp_raw(e) < 256,
    decreases e,
{
    if e > 0 {
        lemma_exp_raw_byte((e - 1) as nat);
        lemma_times_alpha_byte(exp_raw((e - 1) as nat));
    }
}

proof fn lemma_log_search_range(t: int, i: int)
    requires
        0 <= i,
    ensures
        0 <= log_search(t, i) < 255,
        i < 255 && log_search(t, i) != 0 ==> log_search(t, i) >= i,
    decreases 255 - i,
{
    if i < 255 && exp_raw(i as nat) as int != t {
        lemma_log_search_range(t, i + 1);
    }
}

/// The discrete logarithm lies in [0, 255).
pub proof fn lemma_gf_log_range(v: int)
    ensures
        0 <= gf_log(v) < 255,
{
    lemma_log_search_range(reduce_spec(v), 0);
}

/// Folds an exponent or field value: above 255 it becomes its residue modulo 255.
pub fn reduce_galois_operator(operator: &mut u32)
    ensures
        *final(operator) as int == reduce_spec(*old(operator) as int),
{
    if *operator >= 255 {
        if *operator > 255 {
            *operator = *operator % 255;
        }
    }
}

/// The field element 2^exponent, with exponent taken modulo the group order.
pub fn exponent_galois(exponent: u32) -> (r: u32)
    ensures
        r == gf_exp(exponent as int),
        1 <= r < 256,
{
    let mut e = exponent;
    reduce_galois_operator(&mut e);
    let mut value: u32 = 1;
    let mut i: u32 = 0;
    while i < e
        invariant
            e <= 255,
            i <= e,
            value == exp_raw(i as nat),
            e as int == reduce_spec(exponent as int),
        decreases e - i,
    {
        proof {
            lemma_exp_raw_byte(i as nat);
        }
        let d = value * 2;
        value = if d >= 255 {
            d ^ MODULO_BYTE_WISE
        } else {
            d
        };
        i = i + 1;
    }
    proof {
        lemma_exp_raw_byte(e as nat);
    }
    value
}

/// The discrete logarithm of a field value; 0 for the value 0.
pub fn reverse_exponent_galois(target: u32) -> (r: u32)
    ensures
        r as int == gf_log(target as int),
        r < 255,
{
    let mut t = target;
    reduce_galois_operator(&mut t);
    let mut value: u32 = 1;
    let mut i: u32 = 0;
    while i < 255
        invariant
            i <= 255,
            value == exp_raw(i as nat),
            t as int == reduce_spec(target as int),
            log_search(t as int, 0) == log_search(t as int, i as int),
        decreases 255 - i,
    {
        if value == t {
            proof {
                lemma_gf_log_range(target as int);
            }
            return i;
        }
        proof {
            lemma_exp_raw_byte(i as nat);
        }
        let d = value * 2;
        value = if d >= 255 {
            d ^ MODULO_BYTE_WISE
        } else {
            d
        };
        i = i + 1;
    }
    0
}

/// The discrete logarithm as a table over the nonzero field values.
pub open spec fn log_table(v: int) -> int {
    if v == 1 {
        0
    } else if v == 2 {
        1
    } else if v == 3 {
        25
    } else if v == 4 {
        2
    } else if v == 5 {
        50
    } else if v == 6 {
        26
    } else if v == 7 {
        198
    } else if v == 8 {
        3
    } else if v == 9 {
        223
    } else if v == 10 {
        51
    } else if v == 11 {
        238
    } else if v == 12 {
        27
    } else if v == 13 {
        104
    } else if v == 14 {
        199
    } else if v == 15 {
        75
    } else if v == 16 {
        4
    } else if v == 17 {
        100
    } else if v == 18 {
        224
    } else if v == 19 {
        14
    } else if v == 20 {
        52
    } else if v == 21 {
        141
    } else if v == 22 {
        239
    } else if v == 23 {
        129
    } else if v == 24 {
        28
    } else if v == 25 {
        193
    } else if v == 26 {
        105
    } else if v == 27 {
        248
    } else if v == 28 {
        200
    } else if v == 29 {
        8
    } else if v == 30 {
        76
    } else if v == 31 {
        113
    } else if v == 32 {
        5
    } else if v == 33 {
        138
    } else if v == 34 {
        101
    } else if v == 35 {
        47
    } else if v == 36 {
        225
    } else if v == 37 {
        36
    } else if v == 38 {
        15
    } else if v == 39 {
        33
    } else if v == 40 {
        53
    } else if v == 41 {
        147
    } else if v == 42 {
        142
    } else if v == 43 {
        218
    } else if v == 44 {
        240
    } else if v == 45 {
        18
    } else if v == 46 {
        130
    } else if v == 47 {
        69
    } else if v == 48 {
        29
    } else if v == 49 {
        181
    } else if v == 50 {
        194
    } else if v == 51 {
        125
    } else if v == 52 {
        106
    } else if v == 53 {
        39
    } else if v == 54 {
        249
    } else if v == 55 {
        185
    } else if v == 56 {
        201
    } else if v == 57 {
        154
    } else if v == 58 {
        9
    } else if v == 59 {
        120
    } else if v == 60 {
        77
    } else if v == 61 {
        228
    } else if v == 62 {
        114
    } else if v == 63 {
        166
    } else if v == 64 {
        6
    } else if v == 65 {
        191
    } else if v == 66 {
        139
    } else if v == 67 {
        98
    } else if v == 68 {
        102
    } else if v == 69 {
        221
    } else if v == 70 {
        48
    } else if v == 71 {
        253
    } else if v == 72 {
        226
    } else if v == 73 {
        152
    } else if v == 74 {
        37
    } else if v == 75 {
        179
    } else if v == 76 {
        16
    } else if v == 77 {
        145
    } else if v == 78 {
        34
    } else if v == 79 {
        136
    } else if v == 80 {
        54
    } else if v == 81 {
        208
    } else if v == 82 {
        148
    } else if v == 83 {
        206
    } else if v == 84 {
        143
    } else if v == 85 {
        150
    } else if v == 86 {
        219
    } else if v == 87 {
        189
    } else if v == 88 {
        241
    } else if v == 89 {
        210
    } else if v == 90 {
        19
    } else if v == 91 {
        92
    } else if v == 92 {
        131
    } else if v == 93 {
        56
    } else if v == 94 {
        70
    } else if v == 95 {
        64
    } else if v == 96 {
        30
    } else if v == 97 {
        66
    } else if v == 98 {
        182
    } else if v == 99 {
        163
    } else if v == 100 {
        195
    } else if v == 101 {
        72
    } else if v == 102 {
        126
    } else if v == 103 {
        110
    } else if v == 104 {
        107
    } else if v == 105 {
        58
    } else if v == 106 {
        40
    } else if v == 107 {
        84
    } else if v == 108 {
        250
    } else if v == 109 {
        133
    } else if v == 110 {
        186
    } else if v == 111 {
        61
    } else if v == 112 {
        202
    } else if v == 113 {
        94
    } else if v == 114 {
        155
    } else if v == 115 {
        159
    } else if v == 116 {
        10
    } else if v == 117 {
        21
    } else if v == 118 {
        121
    } else if v == 119 {
        43
    } else if v == 120 {
        78
    } else if v == 121 {
        212
    } else if v == 122 {
        229
    } else if v == 123 {
        172
    } else if v == 124 {
        115
    } else if v == 125 {
        243
    } else if v == 126 {
        167
    } else if v == 127 {
        87
    } else if v == 128 {
        7
    } else if v == 129 {
        112
    } else if v == 130 {
        192
    } else if v == 131 {
        247
    } else if v == 132 {
        140
    } else if v == 133 {
        128
    } else if v == 134 {
        99
    } else if v == 135 {
        13
    } else if v == 136 {
        103
    } else if v == 137 {
        74
    } else if v == 138 {
        222
    } else if v == 139 {
        237
    } else if v == 140 {
        49
    } else if v == 141 {
        197
    } else if v == 142 {
        254
    } else if v == 143 {
        24
    } else if v == 144 {
        227
    } else if v == 145 {
        165
    } else if v == 146 {
        153
    } else if v == 147 {
        119
    } else if v == 148 {
        38
    } else if v == 149 {
        184
    } else if v == 150 {
        180
    } else if v == 151 {
        124
    } else if v == 152 {
        17
    } else if v == 153 {
        68
    } else if v == 154 {
        146
    } else if v == 155 {
        217
    } else if v == 156 {
        35
    } else if v == 157 {
        32
    } else if v == 158 {
        137
    } else if v == 159 {
        46
    } else if v == 160 {
        55
    } else if v == 161 {
        63
    } else if v == 162 {
        209
    } else if v == 163 {
        91
    } else if v == 164 {
        149
    } else if v == 165 {
        188
    } else if v == 166 {
        207
    } else if v == 167 {
        205
    } else if v == 168 {
        144
    } else if v == 169 {
        135
    } else if v == 170 {
        151
    } else if v == 171 {
        178
    } else if v == 172 {
        220
    } else if v == 173 {
        252
    } else if v == 174 {
        190
    } else if v == 175 {
        97
    } else if v == 176 {
        242
    } else if v == 177 {
        86
    } else if v == 178 {
        211
    } else if v == 179 {
        171
    } else if v == 180 {
        20
    } else if v == 181 {
        42
    } else if v == 182 {
        93
    } else if v == 183 {
        158
    } else if v == 184 {
        132
    } else if v == 185 {
        60
    } else if v == 186 {
        57
    } else if v == 187 {
        83
    } else if v == 188 {
        71
    } else if v == 189 {
        109
    } else if v == 190 {
        65
    } else if v == 191 {
        162
    } else if v == 192 {
        31
    } else if v == 193 {
        45
    } else if v == 194 {
        67
    } else if v == 195 {
        216
    } else if v == 196 {
        183
    } else if v == 197 {
        123
    } else if v == 198 {
        164
    } else if v == 199 {
        118
    } else if v == 200 {
        196
    } else if v == 201 {
        23
    } else if v == 202 {
        73
    } else if v == 203 {
        236
    } else if v == 204 {
        127
    } else if v == 205 {
        12
    } else if v == 206 {
        111
    } else if v == 207 {
        246
    } else if v == 208 {
        108
    } else if v == 209 {
        161
    } else if v == 210 {
        59
    } else if v == 211 {
        82
    } else if v == 212 {
        41
    } else if v == 213 {
        157
    } else if v == 214 {
        85
    } else if v == 215 {
        170
    } else if v == 216 {
        251
    } else if v == 217 {
        96
    } else if v == 218 {
        134
    } else if v == 219 {
        177
    } else if v == 220 {
        187
    } else if v == 221 {
        204
    } else if v == 222 {
        62
    } else if v == 223 {
        90
    } else if v == 224 {
        203
    } else if v == 225 {
        89
    } else if v == 226 {
        95
    } else if v == 227 {
        176
    } else if v == 228 {
        156
    } else if v == 229 {
        169
    } else if v == 230 {
        160
    } else if v == 231 {
        81
    } else if v == 232 {
        11
    } else if v == 233 {
        245
    } else if v == 234 {
        22
    } else if v == 235 {
        235
    } else if v == 236 {
        122
    } else if v == 237 {
        117
    } else if v == 238 {
        44
    } else if v == 239 {
        215
    } else if v == 240 {
        79
    } else if v == 241 {
        174
    } else if v == 242 {
        213
    } else if v == 243 {
        233
    } else if v == 244 {
        230
    } else if v == 245 {
        231
    } else if v == 246 {
        173
    } else if v == 247 {
        232
    } else if v == 248 {
        116
    } else if v == 249 {
        214
    } else if v == 250 {
        244
    } else if v == 251 {
        234
    } else if v == 252 {
        168
    } else if v == 253 {
        80
    } else if v == 254 {
        88
    } else if v == 255 {
        175
    } else {
        0
    }
}

proof fn lemma_powers_0()
    ensures
        exp_raw(0) == 1,
        exp_raw(1) == 2,
        exp_raw(2) == 4,
        exp_raw(3) == 8,
        exp_raw(4) == 16,
        exp_raw(5) == 32,
        exp_raw(6) == 64,
        exp_raw(7) == 128,
        exp_raw(8) == 29,
        exp_raw(9) == 58,
        exp_raw(10) == 116,
        exp_raw(11) == 232,
        exp_raw(12) == 205,
        exp_raw(13) == 135,
        exp_raw(14) == 19,
        exp_raw(15) == 38,
        exp_raw(16) == 76,
        exp_raw(17) == 152,
        exp_raw(18) == 45,
        exp_raw(19) == 90,
        exp_raw(20) == 180,
        exp_raw(21) == 117,
        exp_raw(22) == 234,
        exp_raw(23) == 201,
        exp_raw(24) == 143,
        exp_raw(25) == 3,
        exp_raw(26) == 6,
        exp_raw(27) == 12,
        exp_raw(28) == 24,
        exp_raw(29) == 48,
        exp_raw(30) == 96,
        exp_raw(31) == 192,
        exp_raw(32) == 157,
{
    assert((256u32 ^ 285u32) == 29u32 &&
        (464u32 ^ 285u32) == 205u32 &&
        (410u32 ^ 285u32) == 135u32 &&
        (270u32 ^ 285u32) == 19u32 &&
        (304u32 ^ 285u32) == 45u32 &&
        (360u32 ^ 285u32) == 117u32 &&
        (468u32 ^ 285u32) == 201u32 &&
        (402u32 ^ 285u32) == 143u32 &&
        (286u32 ^ 285u32) == 3u32 &&
        (384u32 ^ 285u32) == 157u32) by (bit_vector);
    assert(exp_raw(0) == 1);
    assert(exp_raw(1) == 2);
    assert(exp_raw(2) == 4);
    assert(exp_raw(3) == 8);
    assert(exp_raw(4) == 16);
    assert(exp_raw(5) == 32);
    assert(exp_raw(6) == 64);
    assert(exp_raw(7) == 128);
    assert(exp_raw(8) == 29);
    assert(exp_raw(9) == 58);
    assert(exp_raw(10) == 116);
    assert(exp_raw(11) == 232);
    assert(exp_raw(12) == 205);
    assert(exp_raw(13) == 135);
    assert(exp_raw(14) == 19);
    assert(exp_raw(15) == 38);
    assert(exp_raw(16) == 76);
    assert(exp_raw(17) == 152);
    assert(exp_raw(18) == 45);
    assert(exp_raw(19) == 90);
    assert(exp_raw(20) == 180);
    assert(exp_raw(21) == 117);
    assert(exp_raw(22) == 234);
    assert(exp_raw(23) == 201);
    assert(exp_raw(24) == 143);
    assert(exp_raw(25) == 3);
    assert(exp_raw(26) == 6);
    assert(exp_raw(27) == 12);
    assert(exp_raw(28) == 24);
    assert(exp_raw(29) == 48);
    assert(exp_raw(30) == 96);
    assert(exp_raw(31) == 192);
    assert(exp_raw(32) == 157);
}

proof fn lemma_powers_32()
    requires
        exp_raw(32) == 157,
    ensures
        exp_raw(32) == 157,
        exp_raw(33) == 39,
        exp_raw(34) == 78,
        exp_raw(35) == 156,
        exp_raw(36) == 37,
        exp_raw(37) == 74,
        exp_raw(38) == 148,
        exp_raw(39) == 53,
        exp_raw(40) == 106,
        exp_raw(41) == 212,
        exp_raw(42) == 181,
        exp_raw(43) == 119,
        exp_raw(44) == 238,
        exp_raw(45) == 193,
        exp_raw(46) == 159,
        exp_raw(47) == 35,
        exp_raw(48) == 70,
        exp_raw(49) == 140,
        exp_raw(50) == 5,
        exp_raw(51) == 10,
        exp_raw(52) == 20,
        exp_raw(53) == 40,
        exp_raw(54) == 80,
        exp_raw(55) == 160,
        exp_raw(56) == 93,
        exp_raw(57) == 186,
        exp_raw(58) == 105,
        exp_raw(59) == 210,
        exp_raw(60) == 185,
        exp_raw(61) == 111,
        exp_raw(62) == 222,
        exp_raw(63) == 161,
        exp_raw(64) == 95,
{
    assert((314u32 ^ 285u32) == 39u32 &&
        (312u32 ^ 285u32) == 37u32 &&
        (296u32 ^ 285u32) == 53u32 &&
        (424u32 ^ 285u32) == 181u32 &&
        (362u32 ^ 285u32) == 119u32 &&
        (476u32 ^ 285u32) == 193u32 &&
        (386u32 ^ 285u32) == 159u32 &&
        (318u32 ^ 285u32) == 35u32 &&
        (280u32 ^ 285u32) == 5u32 &&
        (320u32 ^ 285u32) == 93u32 &&
        (372u32 ^ 285u32) == 105u32 &&
        (420u32 ^ 285u32) == 185u32 &&
        (370u32 ^ 285u32) == 111u32 &&
        (444u32 ^ 285u32) == 161u32 &&
        (322u32 ^ 285u32) == 95u32) by (bit_vector);
    assert(exp_raw(33) == 39);
    assert(exp_raw(34) == 78);
    assert(exp_raw(35) == 156);
    assert(exp_raw(36) == 37);
    assert(exp_raw(37) == 74);
    assert(exp_raw(38) == 148);
    assert(exp_raw(39) == 53);
    assert(exp_raw(40) == 106);
    assert(exp_raw(41) == 212);
    assert(exp_raw(42) == 181);
    assert(exp_raw(43) == 119);
    assert(exp_raw(44) == 238);
    assert(exp_raw(45) == 193);
    assert(exp_raw(46) == 159);
    assert(exp_raw(47) == 35);
    assert(exp_raw(48) == 70);
    assert(exp_raw(49) == 140);
    assert(exp_raw(50) == 5);
    assert(exp_raw(51) == 10);
    assert(exp_raw(52) == 20);
    assert(exp_raw(53) == 40);
    assert(exp_raw(54) == 80);
    assert(exp_raw(55) == 160);
    assert(exp_raw(56) == 93);
    assert(exp_raw(57) == 186);
    assert(exp_raw(58) == 105);
    assert(exp_raw(59) == 210);
    assert(exp_raw(60) == 185);
    assert(exp_raw(61) == 111);
    assert(exp_raw(62) == 222);
    assert(exp_raw(63) == 161);
    assert(exp_raw(64) == 95);
}

proof fn lemma_powers_64()
    requires
        exp_raw(64) == 95,
    ensures
        exp_raw(64) == 95,
        exp_raw(65) == 190,
        exp_raw(66) == 97,
        exp_raw(67) == 194,
        exp_raw(68) == 153,
        exp_raw(69) == 47,
        exp_raw(70) == 94,
        exp_raw(71) == 188,
        exp_raw(72) == 101,
        exp_raw(73) == 202,
        exp_raw(74) == 137,
        exp_raw(75) == 15,
        exp_raw(76) == 30,
        exp_raw(77) == 60,
        exp_raw(78) == 120,
        exp_raw(79) == 240,
        exp_raw(80) == 253,
        exp_raw(81) == 231,
        exp_raw(82) == 211,
        exp_raw(83) == 187,
        exp_raw(84) == 107,
        exp_raw(85) == 214,
        exp_raw(86) == 177,
        exp_raw(87) == 127,
        exp_raw(88) == 254,
        exp_raw(89) == 225,
        exp_raw(90) == 223,
        exp_raw(91) == 163,
        exp_raw(92) == 91,
        exp_raw(93) == 182,
        exp_raw(94) == 113,
        exp_raw(95) == 226,
        exp_raw(96) == 217,
{
    assert((380u32 ^ 285u32) == 97u32 &&
        (388u32 ^ 285u32) == 153u32 &&
        (306u32 ^ 285u32) == 47u32 &&
        (376u32 ^ 285u32) == 101u32 &&
        (404u32 ^ 285u32) == 137u32 &&
        (274u32 ^ 285u32) == 15u32 &&
        (480u32 ^ 285u32) == 253u32 &&
        (506u32 ^ 285u32) == 231u32 &&
        (462u32 ^ 285u32) == 211u32 &&
        (422u32 ^ 285u32) == 187u32 &&
        (374u32 ^ 285u32) == 107u32 &&
        (428u32 ^ 285u32) == 177u32 &&
        (354u32 ^ 285u32) == 127u32 &&
        (508u32 ^ 285u32) == 225u32 &&
        (450u32 ^ 285u32) == 223u32 &&
        (446u32 ^ 285u32) == 163u32 &&
        (326u32 ^ 285u32) == 91u32 &&
        (364u32 ^ 285u32) == 113u32 &&
        (452u32 ^ 285u32) == 217u32) by (bit_vector);
    assert(exp_raw(65) == 190);
    assert(exp_raw(66) == 97);
    assert(exp_raw(67) == 194);
    assert(exp_raw(68) == 153);
    assert(exp_raw(69) == 47);
    assert(exp_raw(70) == 94);
    assert(exp_raw(71) == 188);
    assert(exp_raw(72) == 101);
    assert(exp_raw(73) == 202);
    assert(exp_raw(74) == 137);
    assert(exp_raw(75) == 15);
    assert(exp_raw(76) == 30);
    assert(exp_raw(77) == 60);
    assert(exp_raw(78) == 120);
    assert(exp_raw(79) == 240);
    assert(exp_raw(80) == 253);
    assert(exp_raw(81) == 231);
    assert(exp_raw(82) == 211);
    assert(exp_raw(83) == 187);
    assert(exp_raw(84) == 107);
    assert(exp_raw(85) == 214);
    assert(exp_raw(86) == 177);
    assert(exp_raw(87) == 127);
    assert(exp_raw(88) == 254);
    assert(exp_raw(89) == 225);
    assert(exp_raw(90) == 223);
    assert(exp_raw(91) == 163);
    assert(exp_raw(92) == 91);
    assert(exp_raw(93) == 182);
    assert(exp_raw(94) == 113);
    assert(exp_raw(95) == 226);
    assert(exp_raw(96) == 217);
}

proof fn lemma_powers_96()
    requires
        exp_raw(96) == 217,
    ensures
        exp_raw(96) == 217,
        exp_raw(97) == 175,
        exp_raw(98) == 67,
        exp_raw(99) == 134,
        exp_raw(100) == 17,
        exp_raw(101) == 34,
        exp_raw(102) == 68,
        exp_raw(103) == 136,
        exp_raw(104) == 13,
        exp_raw(105) == 26,
        exp_raw(106) == 52,
        exp_raw(107) == 104,
        exp_raw(108) == 208,
        exp_raw(109) == 189,
        exp_raw(110) == 103,
        exp_raw(111) == 206,
        exp_raw(112) == 129,
        exp_raw(113) == 31,
        exp_raw(114) == 62,
        exp_raw(115) == 124,
        exp_raw(116) == 248,
        exp_raw(117) == 237,
        exp_raw(118) == 199,
        exp_raw(119) == 147,
        exp_raw(120) == 59,
        exp_raw(121) == 118,
        exp_raw(122) == 236,
        exp_raw(123) == 197,
        exp_raw(124) == 151,
        exp_raw(125) == 51,
        exp_raw(126) == 102,
        exp_raw(127) == 204,
        exp_raw(128) == 133,
{
    assert((434u32 ^ 285u32) == 175u32 &&
        (350u32 ^ 285u32) == 67u32 &&
        (268u32 ^ 285u32) == 17u32 &&
        (272u32 ^ 285u32) == 13u32 &&
        (416u32 ^ 285u32) == 189u32 &&
        (378u32 ^ 285u32) == 103u32 &&
        (412u32 ^ 285u32) == 129u32 &&
        (258u32 ^ 285u32) == 31u32 &&
        (496u32 ^ 285u32) == 237u32 &&
        (474u32 ^ 285u32) == 199u32 &&
        (398u32 ^ 285u32) == 147u32 &&
        (294u32 ^ 285u32) == 59u32 &&
        (472u32 ^ 285u32) == 197u32 &&
        (394u32 ^ 285u32) == 151u32 &&
        (302u32 ^ 285u32) == 51u32 &&
        (408u32 ^ 285u32) == 133u32) by (bit_vector);
    assert(exp_raw(97) == 175);
    assert(exp_raw(98) == 67);
    assert(exp_raw(99) == 134);
    assert(exp_raw(100) == 17);
    assert(exp_raw(101) == 34);
    assert(exp_raw(102) == 68);
    assert(exp_raw(103) == 136);
    assert(exp_raw(104) == 13);
    assert(exp_raw(105) == 26);
    assert(exp_raw(106) == 52);
    assert(exp_raw(107) == 104);
    assert(exp_raw(108) == 208);
    assert(exp_raw(109) == 189);
    assert(exp_raw(110) == 103);
    assert(exp_raw(111) == 206);
    assert(exp_raw(112) == 129);
    assert(exp_raw(113) == 31);
    assert(exp_raw(114) == 62);
    assert(exp_raw(115) == 124);
    assert(exp_raw(116) == 248);
    assert(exp_raw(117) == 237);
    assert(exp_raw(118) == 199);
    assert(exp_raw(119) == 147);
    assert(exp_raw(120) == 59);
    assert(exp_raw(121) == 118);
    assert(exp_raw(122) == 236);
    assert(exp_raw(123) == 197);
    assert(exp_raw(124) == 151);
    assert(exp_raw(125) == 51);
    assert(exp_raw(126) == 102);
    assert(exp_raw(127) == 204);
    assert(exp_raw(128) == 133);
}

proof fn lemma_powers_128()
    requires
        exp_raw(128) == 133,
    ensures
        exp_raw(128) == 133,
        exp_raw(129) == 23,
        exp_raw(130) == 46,
        exp_raw(131) == 92,
        exp_raw(132) == 184,
        exp_raw(133) == 109,
        exp_raw(134) == 218,
        exp_raw(135) == 169,
        exp_raw(136) == 79,
        exp_raw(137) == 158,
        exp_raw(138) == 33,
        exp_raw(139) == 66,
        exp_raw(140) == 132,
        exp_raw(141) == 21,
        exp_raw(142) == 42,
        exp_raw(143) == 84,
        exp_raw(144) == 168,
        exp_raw(145) == 77,
        exp_raw(146) == 154,
        exp_raw(147) == 41,
        exp_raw(148) == 82,
        exp_raw(149) == 164,
        exp_raw(150) == 85,
        exp_raw(151) == 170,
        exp_raw(152) == 73,
        exp_raw(153) == 146,
        exp_raw(154) == 57,
        exp_raw(155) == 114,
        exp_raw(156) == 228,
        exp_raw(157) == 213,
        exp_raw(158) == 183,
        exp_raw(159) == 115,
        exp_raw(160) == 230,
{
    assert((266u32 ^ 285u32) == 23u32 &&
        (368u32 ^ 285u32) == 109u32 &&
        (436u32 ^ 285u32) == 169u32 &&
        (338u32 ^ 285u32) == 79u32 &&
        (316u32 ^ 285u32) == 33u32 &&
        (264u32 ^ 285u32) == 21u32 &&
        (336u32 ^ 285u32) == 77u32 &&
        (308u32 ^ 285u32) == 41u32 &&
        (328u32 ^ 285u32) == 85u32 &&
        (340u32 ^ 285u32) == 73u32 &&
        (292u32 ^ 285u32) == 57u32 &&
        (456u32 ^ 285u32) == 213u32 &&
        (426u32 ^ 285u32) == 183u32 &&
        (366u32 ^ 285u32) == 115u32) by (bit_vector);
    assert(exp_raw(129) == 23);
    assert(exp_raw(130) == 46);
    assert(exp_raw(131) == 92);
    assert(exp_raw(132) == 184);
    assert(exp_raw(133) == 109);
    assert(exp_raw(134) == 218);
    assert(exp_raw(135) == 169);
    assert(exp_raw(136) == 79);
    assert(exp_raw(137) == 158);
    assert(exp_raw(138) == 33);
    assert(exp_raw(139) == 66);
    assert(exp_raw(140) == 132);
    assert(exp_raw(141) == 21);
    assert(exp_raw(142) == 42);
    assert(exp_raw(143) == 84);
    assert(exp_raw(144) == 168);
    assert(exp_raw(145) == 77);
    assert(exp_raw(146) == 154);
    assert(exp_raw(147) == 41);
    assert(exp_raw(148) == 82);
    assert(exp_raw(149) == 164);
    assert(exp_raw(150) == 85);
    assert(exp_raw(151) == 170);
    assert(exp_raw(152) == 73);
    assert(exp_raw(153) == 146);
    assert(exp_raw(154) == 57);
    assert(exp_raw(155) == 114);
    assert(exp_raw(156) == 228);
    assert(exp_raw(157) == 213);
    assert(exp_raw(158) == 183);
    assert(exp_raw(159) == 115);
    assert(exp_raw(160) == 230);
}

proof fn lemma_powers_160()
    requires
        exp_raw(160) == 230,
    ensures
        exp_raw(160) == 230,
        exp_raw(161) == 209,
        exp_raw(162) == 191,
        exp_raw(163) == 99,
        exp_raw(164) == 198,
        exp_raw(165) == 145,
        exp_raw(166) == 63,
        exp_raw(167) == 126,
        exp_raw(168) == 252,
        exp_raw(169) == 229,
        exp_raw(170) == 215,
        exp_raw(171) == 179,
        exp_raw(172) == 123,
        exp_raw(173) == 246,
        exp_raw(174) == 241,
        exp_raw(175) == 255,
        exp_raw(176) == 227,
        exp_raw(177) == 219,
        exp_raw(178) == 171,
        exp_raw(179) == 75,
        exp_raw(180) == 150,
        exp_raw(181) == 49,
        exp_raw(182) == 98,
        exp_raw(183) == 196,
        exp_raw(184) == 149,
        exp_raw(185) == 55,
        exp_raw(186) == 110,
        exp_raw(187) == 220,
        exp_raw(188) == 165,
        exp_raw(189) == 87,
        exp_raw(190) == 174,
        exp_raw(191) == 65,
        exp_raw(192) == 130,
{
    assert((460u32 ^ 285u32) == 209u32 &&
        (418u32 ^ 285u32) == 191u32 &&
        (382u32 ^ 285u32) == 99u32 &&
        (396u32 ^ 285u32) == 145u32 &&
        (290u32 ^ 285u32) == 63u32 &&
        (504u32 ^ 285u32) == 229u32 &&
        (458u32 ^ 285u32) == 215u32 &&
        (430u32 ^ 285u32) == 179u32 &&
        (358u32 ^ 285u32) == 123u32 &&
        (492u32 ^ 285u32) == 241u32 &&
        (482u32 ^ 285u32) == 255u32 &&
        (510u32 ^ 285u32) == 227u32 &&
        (454u32 ^ 285u32) == 219u32 &&
        (438u32 ^ 285u32) == 171u32 &&
        (342u32 ^ 285u32) == 75u32 &&
        (300u32 ^ 285u32) == 49u32 &&
        (392u32 ^ 285u32) == 149u32 &&
        (298u32 ^ 285u32) == 55u32 &&
        (440u32 ^ 285u32) == 165u32 &&
        (330u32 ^ 285u32) == 87u32 &&
        (348u32 ^ 285u32) == 65u32) by (bit_vector);
    assert(exp_raw(161) == 209);
    assert(exp_raw(162) == 191);
    assert(exp_raw(163) == 99);
    assert(exp_raw(164) == 198);
    assert(exp_raw(165) == 145);
    assert(exp_raw(166) == 63);
    assert(exp_raw(167) == 126);
    assert(exp_raw(168) == 252);
    assert(exp_raw(169) == 229);
    assert(exp_raw(170) == 215);
    assert(exp_raw(171) == 179);
    assert(exp_raw(172) == 123);
    assert(exp_raw(173) == 246);
    assert(exp_raw(174) == 241);
    assert(exp_raw(175) == 255);
    assert(exp_raw(176) == 227);
    assert(exp_raw(177) == 219);
    assert(exp_raw(178) == 171);
    assert(exp_raw(179) == 75);
    assert(exp_raw(180) == 150);
    assert(exp_raw(181) == 49);
    assert(exp_raw(182) == 98);
    assert(exp_raw(183) == 196);
    assert(exp_raw(184) == 149);
    assert(exp_raw(185) == 55);
    assert(exp_raw(186) == 110);
    assert(exp_raw(187) == 220);
    assert(exp_raw(188) == 165);
    assert(exp_raw(189) == 87);
    assert(exp_raw(190) == 174);
    assert(exp_raw(191) == 65);
    assert(exp_raw(192) == 130);
}

proof fn lemma_powers_192()
    requires
        exp_raw(192) == 130,
    ensures
        exp_raw(192) == 130,
        exp_raw(193) == 25,
        exp_raw(194) == 50,
        exp_raw(195) == 100,
        exp_raw(196) == 200,
        exp_raw(197) == 141,
        exp_raw(198) == 7,
        exp_raw(199) == 14,
        exp_raw(200) == 28,
        exp_raw(201) == 56,
        exp_raw(202) == 112,
        exp_raw(203) == 224,
        exp_raw(204) == 221,
        exp_raw(205) == 167,
        exp_raw(206) == 83,
        exp_raw(207) == 166,
        exp_raw(208) == 81,
        exp_raw(209) == 162,
        exp_raw(210) == 89,
        exp_raw(211) == 178,
        exp_raw(212) == 121,
        exp_raw(213) == 242,
        exp_raw(214) == 249,
        exp_raw(215) == 239,
        exp_raw(216) == 195,
        exp_raw(217) == 155,
        exp_raw(218) == 43,
        exp_raw(219) == 86,
        exp_raw(220) == 172,
        exp_raw(221) == 69,
        exp_raw(222) == 138,
        exp_raw(223) == 9,
        exp_raw(224) == 18,
{
    assert((260u32 ^ 285u32) == 25u32 &&
        (400u32 ^ 285u32) == 141u32 &&
        (282u32 ^ 285u32) == 7u32 &&
        (448u32 ^ 285u32) == 221u32 &&
        (442u32 ^ 285u32) == 167u32 &&
        (334u32 ^ 285u32) == 83u32 &&
        (332u32 ^ 285u32) == 81u32 &&
        (324u32 ^ 285u32) == 89u32 &&
        (356u32 ^ 285u32) == 121u32 &&
        (484u32 ^ 285u32) == 249u32 &&
        (498u32 ^ 285u32) == 239u32 &&
        (478u32 ^ 285u32) == 195u32 &&
        (390u32 ^ 285u32) == 155u32 &&
        (310u32 ^ 285u32) == 43u32 &&
        (344u32 ^ 285u32) == 69u32 &&
        (276u32 ^ 285u32) == 9u32) by (bit_vector);
    assert(exp_raw(193) == 25);
    assert(exp_raw(194) == 50);
    assert(exp_raw(195) == 100);
    assert(exp_raw(196) == 200);
    assert(exp_raw(197) == 141);
    assert(exp_raw(198) == 7);
    assert(exp_raw(199) == 14);
    assert(exp_raw(200) == 28);
    assert(exp_raw(201) == 56);
    assert(exp_raw(202) == 112);
    assert(exp_raw(203) == 224);
    assert(exp_raw(204) == 221);
    assert(exp_raw(205) == 167);
    assert(exp_raw(206) == 83);
    assert(exp_raw(207) == 166);
    assert(exp_raw(208) == 81);
    assert(exp_raw(209) == 162);
    assert(exp_raw(210) == 89);
    assert(exp_raw(211) == 178);
    assert(exp_raw(212) == 121);
    assert(exp_raw(213) == 242);
    assert(exp_raw(214) == 249);
    assert(exp_raw(215) == 239);
    assert(exp_raw(216) == 195);
    assert(exp_raw(217) == 155);
    assert(exp_raw(218) == 43);
    assert(exp_raw(219) == 86);
    assert(exp_raw(220) == 172);
    assert(exp_raw(221) == 69);
    assert(exp_raw(222) == 138);
    assert(exp_raw(223) == 9);
    assert(exp_raw(224) == 18);
}

proof fn lemma_powers_224()
    requires
        exp_raw(224) == 18,
    ensures
        exp_raw(224) == 18,
        exp_raw(225) == 36,
        exp_raw(226) == 72,
        exp_raw(227) == 144,
        exp_raw(228) == 61,
        exp_raw(229) == 122,
        exp_raw(230) == 244,
        exp_raw(231) == 245,
        exp_raw(232) == 247,
        exp_raw(233) == 243,
        exp_raw(234) == 251,
        exp_raw(235) == 235,
        exp_raw(236) == 203,
        exp_raw(237) == 139,
        exp_raw(238) == 11,
        exp_raw(239) == 22,
        exp_raw(240) == 44,
        exp_raw(241) == 88,
        exp_raw(242) == 176,
        exp_raw(243) == 125,
        exp_raw(244) == 250,
        exp_raw(245) == 233,
        exp_raw(246) == 207,
        exp_raw(247) == 131,
        exp_raw(248) == 27,
        exp_raw(249) == 54,
        exp_raw(250) == 108,
        exp_raw(251) == 216,
        exp_raw(252) == 173,
        exp_raw(253) == 71,
        exp_raw(254) == 142,
        exp_raw(255) == 1,
{
    assert((288u32 ^ 285u32) == 61u32 &&
        (488u32 ^ 285u32) == 245u32 &&
        (490u32 ^ 285u32) == 247u32 &&
        (494u32 ^ 285u32) == 243u32 &&
        (486u32 ^ 285u32) == 251u32 &&
        (502u32 ^ 285u32) == 235u32 &&
        (470u32 ^ 285u32) == 203u32 &&
        (406u32 ^ 285u32) == 139u32 &&
        (278u32 ^ 285u32) == 11u32 &&
        (352u32 ^ 285u32) == 125u32 &&
        (500u32 ^ 285u32) == 233u32 &&
        (466u32 ^ 285u32) == 207u32 &&
        (414u32 ^ 285u32) == 131u32 &&
        (262u32 ^ 285u32) == 27u32 &&
        (432u32 ^ 285u32) == 173u32 &&
        (346u32 ^ 285u32) == 71u32 &&
        (284u32 ^ 285u32) == 1u32) by (bit_vector);
    assert(exp_raw(225) == 36);
    assert(exp_raw(226) == 72);
    assert(exp_raw(227) == 144);
    assert(exp_raw(228) == 61);
    assert(exp_raw(229) == 122);
    assert(exp_raw(230) == 244);
    assert(exp_raw(231) == 245);
    assert(exp_raw(232) == 247);
    assert(exp_raw(233) == 243);
    assert(exp_raw(234) == 251);
    assert(exp_raw(235) == 235);
    assert(exp_raw(236) == 203);
    assert(exp_raw(237) == 139);
    assert(exp_raw(238) == 11);
    assert(exp_raw(239) == 22);
    assert(exp_raw(240) == 44);
    assert(exp_raw(241) == 88);
    assert(exp_raw(242) == 176);
    assert(exp_raw(243) == 125);
    assert(exp_raw(244) == 250);
    assert(exp_raw(245) == 233);
    assert(exp_raw(246) == 207);
    assert(exp_raw(247) == 131);
    assert(exp_raw(248) == 27);
    assert(exp_raw(249) == 54);
    assert(exp_raw(250) == 108);
    assert(exp_raw(251) == 216);
    assert(exp_raw(252) == 173);
    assert(exp_raw(253) == 71);
    assert(exp_raw(254) == 142);
    assert(exp_raw(255) == 1);
}

/// The 255 powers of the generator, walked one multiplication at a time.
#[verifier::rlimit(100)]
proof fn lemma_power_table()
    ensures
        exp_raw(255) == 1,
        forall|e: nat| e < 255 ==> log_table(#[trigger] exp_raw(e) as int) == e,
{
    lemma_powers_0();
    lemma_powers_32();
    lemma_powers_64();
    lemma_powers_96();
    lemma_powers_128();
    lemma_powers_160();
    lemma_powers_192();
    lemma_powers_224();
    assert forall|e: nat| e < 255 implies log_table(#[trigger] exp_raw(e) as int) == e by {
        assert(e == 0 || e == 1 || e == 2 || e == 3 || e == 4 || e == 5 || e == 6 || e == 7 || e == 8 || e == 9 || e == 10 || e == 11 || e == 12 || e == 13 || e == 14 || e == 15 || e == 16 || e == 17 || e == 18 || e == 19 || e == 20 || e == 21 || e == 22 || e == 23 || e == 24 || e == 25 || e == 26 || e == 27 || e == 28 || e == 29 || e == 30 || e == 31 || e == 32 || e == 33 || e == 34 || e == 35 || e == 36 || e == 37 || e == 38 || e == 39 || e == 40 || e == 41 || e == 42 || e == 43 || e == 44 || e == 45 || e == 46 || e == 47 || e == 48 || e == 49 || e == 50 || e == 51 || e == 52 || e == 53 || e == 54 || e == 55 || e == 56 || e == 57 || e == 58 || e == 59 || e == 60 || e == 61 || e == 62 || e == 63 || e == 64 || e == 65 || e == 66 || e == 67 || e == 68 || e == 69 || e == 70 || e == 71 || e == 72 || e == 73 || e == 74 || e == 75 || e == 76 || e == 77 || e == 78 || e == 79 || e == 80 || e == 81 || e == 82 || e == 83 || e == 84 || e == 85 || e == 86 || e == 87 || e == 88 || e == 89 || e == 90 || e == 91 || e == 92 || e == 93 || e == 94 || e == 95 || e == 96 || e == 97 || e == 98 || e == 99 || e == 100 || e == 101 || e == 102 || e == 103 || e == 104 || e == 105 || e == 106 || e == 107 || e == 108 || e == 109 || e == 110 || e == 111 || e == 112 || e == 113 || e == 114 || e == 115 || e == 116 || e == 117 || e == 118 || e == 119 || e == 120 || e == 121 || e == 122 || e == 123 || e == 124 || e == 125 || e == 126 || e == 127 || e == 128 || e == 129 || e == 130 || e == 131 || e == 132 || e == 133 || e == 134 || e == 135 || e == 136 || e == 137 || e == 138 || e == 139 || e == 140 || e == 141 || e == 142 || e == 143 || e == 144 || e == 145 || e == 146 || e == 147 || e == 148 || e == 149 || e == 150 || e == 151 || e == 152 || e == 153 || e == 154 || e == 155 || e == 156 || e == 157 || e == 158 || e == 159 || e == 160 || e == 161 || e == 162 || e == 163 || e == 164 || e == 165 || e == 166 || e == 167 || e == 168 || e == 169 || e == 170 || e == 171 || e == 172 || e == 173 || e == 174 || e == 175 || e == 176 || e == 177 || e == 178 || e == 179 || e == 180 || e == 181 || e == 182 || e == 183 || e == 184 || e == 185 || e == 186 || e == 187 || e == 188 || e == 189 || e == 190 || e == 191 || e == 192 || e == 193 || e == 194 || e == 195 || e == 196 || e == 197 || e == 198 || e == 199 || e == 200 || e == 201 || e == 202 || e == 203 || e == 204 || e == 205 || e == 206 || e == 207 || e == 208 || e == 209 || e == 210 || e == 211 || e == 212 || e == 213 || e == 214 || e == 215 || e == 216 || e == 217 || e == 218 || e == 219 || e == 220 || e == 221 || e == 222 || e == 223 || e == 224 || e == 225 || e == 226 || e == 227 || e == 228 || e == 229 || e == 230 || e == 231 || e == 232 || e == 233 || e == 234 || e == 235 || e == 236 || e == 237 || e == 238 || e == 239 || e == 240 || e == 241 || e == 242 || e == 243 || e == 244 || e == 245 || e == 246 || e == 247 || e == 248 || e == 249 || e == 250 || e == 251 || e == 252 || e == 253 || e == 254);
    }
}

/// Distinct exponents in [0, 255) give distinct powers.
pub proof fn lemma_exp_injective(i: nat, j: nat)
    requires
        i < 255,
        j < 255,
        exp_raw(i) == exp_raw(j),
    ensures
        i == j,
{
    lemma_power_table();
    assert(log_table(exp_raw(i) as int) == i);
    assert(log_table(exp_raw(j) as int) == j);
}

proof fn lemma_log_search_finds(e: nat, i: int)
    requires
        e < 255,
        0 <= i <= e,
    ensures
        log_search(exp_raw(e) as int, i) == e,
    decreases e - i,
{
    if i < e {
        if exp_raw(i as nat) == exp_raw(e) {
            lemma_exp_injective(i as nat, e);
        }
        lemma_log_search_finds(e, i + 1);
    }
}

/// The discrete logarithm undoes exponentiation on [0, 255).
pub proof fn lemma_log_of_exp(e: int)
    requires
        0 <= e < 255,
    ensures
        gf_log(gf_exp(e) as int) == e % 255,
{
    lemma_exp_raw_byte(e as nat);
    lemma_log_search_finds(e as nat, 0);
}

/// The powers of the generator repeat with period 255.
pub proof fn lemma_exp_periodic(e: int)
    requires
        0 <= e,
    ensures
        gf_exp(e) == gf_exp(e + 255),
{
    if e > 255 {
        assert((e + 255) % 255 == e % 255);
    } else if e == 255 {
        assert(exp_raw(255) == times_alpha(exp_raw(254)));
        assert((e + 255) % 255 == 0);
        lemma_power_table();
    } else if e == 0 {
        assert(reduce_spec(255) == 255);
        lemma_power_table();
    } else {
        assert((e + 255) % 255 == e);
    }
}

} // verus!
