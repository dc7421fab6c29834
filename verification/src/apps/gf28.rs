//! The field of the erasure code, GF(2^8) modulo `x^8 + x^4 + x^3 + x^2 + 1`
//! (0x11D): the table-driven multiplication is the field multiplication, and rows
//! of a matrix times its columns.

use vstd::prelude::*;
use crate::gf256::{xtm, gmulp, lemma_gmulp_xt, lemma_gmulp_comm, lemma_gmulp_assoc, lemma_gmulp_distrib,
    lemma_gmulp_distrib_left, lemma_gmulp_zero_one, lemma_xor};
use crate::apps::erasure::{gf_step, alpha, exp_entry, log_after, log_entry, gf28_mul, gf28_inv, lemma_alpha_byte};

verus! {

/// Multiplication by `x` in this field.
pub open spec fn xt28(a: u8) -> u8 {
    xtm(0x1Du8, a)
}

/// Multiplication in this field.
pub open spec fn gmul28(a: u8, b: u8) -> u8 {
    gmulp(0x1Du8, a, b)
}

/// A table step is a multiplication by `x`.
proof fn lemma_step_bv(x: u16)
    by (bit_vector)
    requires
        x < 256,
    ensures
        gf_step(x) < 256,
        gf_step(x) as u8 == xt28(x as u8),
{
}

/// Each power of the generator is a byte, `x` times the previous one.
proof fn lemma_alpha_step(k: nat)
    ensures
        alpha(k) < 256,
        k > 0 ==> alpha(k) as u8 == xt28(alpha((k - 1) as nat) as u8),
{
    lemma_alpha_byte(k);
    if k > 0 {
        lemma_alpha_byte((k - 1) as nat);
        lemma_step_bv(alpha((k - 1) as nat));
    }
}

/// The powers of the generator run through every nonzero byte before returning to one.
#[verifier::rlimit(100)]
proof fn lemma_powers_cover_bv(
    v: u8,
    x0: u8, x1: u8, x2: u8, x3: u8, x4: u8, x5: u8, x6: u8, x7: u8, x8: u8, x9: u8, x10: u8, x11: u8,
    x12: u8, x13: u8, x14: u8, x15: u8, x16: u8, x17: u8, x18: u8, x19: u8, x20: u8, x21: u8, x22: u8, x23: u8,
    x24: u8, x25: u8, x26: u8, x27: u8, x28: u8, x29: u8, x30: u8, x31: u8, x32: u8, x33: u8, x34: u8, x35: u8,
    x36: u8, x37: u8, x38: u8, x39: u8, x40: u8, x41: u8, x42: u8, x43: u8, x44: u8, x45: u8, x46: u8, x47: u8,
    x48: u8, x49: u8, x50: u8, x51: u8, x52: u8, x53: u8, x54: u8, x55: u8, x56: u8, x57: u8, x58: u8, x59: u8,
    x60: u8, x61: u8, x62: u8, x63: u8, x64: u8, x65: u8, x66: u8, x67: u8, x68: u8, x69: u8, x70: u8, x71: u8,
    x72: u8, x73: u8, x74: u8, x75: u8, x76: u8, x77: u8, x78: u8, x79: u8, x80: u8, x81: u8, x82: u8, x83: u8,
    x84: u8, x85: u8, x86: u8, x87: u8, x88: u8, x89: u8, x90: u8, x91: u8, x92: u8, x93: u8, x94: u8, x95: u8,
    x96: u8, x97: u8, x98: u8, x99: u8, x100: u8, x101: u8, x102: u8, x103: u8, x104: u8, x105: u8, x106: u8, x107: u8,
    x108: u8, x109: u8, x110: u8, x111: u8, x112: u8, x113: u8, x114: u8, x115: u8, x116: u8, x117: u8, x118: u8, x119: u8,
    x120: u8, x121: u8, x122: u8, x123: u8, x124: u8, x125: u8, x126: u8, x127: u8, x128: u8, x129: u8, x130: u8, x131: u8,
    x132: u8, x133: u8, x134: u8, x135: u8, x136: u8, x137: u8, x138: u8, x139: u8, x140: u8, x141: u8, x142: u8, x143: u8,
    x144: u8, x145: u8, x146: u8, x147: u8, x148: u8, x149: u8, x150: u8, x151: u8, x152: u8, x153: u8, x154: u8, x155: u8,
    x156: u8, x157: u8, x158: u8, x159: u8, x160: u8, x161: u8, x162: u8, x163: u8, x164: u8, x165: u8, x166: u8, x167: u8,
    x168: u8, x169: u8, x170: u8, x171: u8, x172: u8, x173: u8, x174: u8, x175: u8, x176: u8, x177: u8, x178: u8, x179: u8,
    x180: u8, x181: u8, x182: u8, x183: u8, x184: u8, x185: u8, x186: u8, x187: u8, x188: u8, x189: u8, x190: u8, x191: u8,
    x192: u8, x193: u8, x194: u8, x195: u8, x196: u8, x197: u8, x198: u8, x199: u8, x200: u8, x201: u8, x202: u8, x203: u8,
    x204: u8, x205: u8, x206: u8, x207: u8, x208: u8, x209: u8, x210: u8, x211: u8, x212: u8, x213: u8, x214: u8, x215: u8,
    x216: u8, x217: u8, x218: u8, x219: u8, x220: u8, x221: u8, x222: u8, x223: u8, x224: u8, x225: u8, x226: u8, x227: u8,
    x228: u8, x229: u8, x230: u8, x231: u8, x232: u8, x233: u8, x234: u8, x235: u8, x236: u8, x237: u8, x238: u8, x239: u8,
    x240: u8, x241: u8, x242: u8, x243: u8, x244: u8, x245: u8, x246: u8, x247: u8, x248: u8, x249: u8, x250: u8, x251: u8,
    x252: u8, x253: u8, x254: u8, x255: u8,
)
    by (bit_vector)
    requires
        v != 0,
        x0 == 1,
        x1 == xt28(x0), x2 == xt28(x1), x3 == xt28(x2), x4 == xt28(x3), x5 == xt28(x4), x6 == xt28(x5),
        x7 == xt28(x6), x8 == xt28(x7), x9 == xt28(x8), x10 == xt28(x9), x11 == xt28(x10), x12 == xt28(x11),
        x13 == xt28(x12), x14 == xt28(x13), x15 == xt28(x14), x16 == xt28(x15), x17 == xt28(x16), x18 == xt28(x17),
        x19 == xt28(x18), x20 == xt28(x19), x21 == xt28(x20), x22 == xt28(x21), x23 == xt28(x22), x24 == xt28(x23),
        x25 == xt28(x24), x26 == xt28(x25), x27 == xt28(x26), x28 == xt28(x27), x29 == xt28(x28), x30 == xt28(x29),
        x31 == xt28(x30), x32 == xt28(x31), x33 == xt28(x32), x34 == xt28(x33), x35 == xt28(x34), x36 == xt28(x35),
        x37 == xt28(x36), x38 == xt28(x37), x39 == xt28(x38), x40 == xt28(x39), x41 == xt28(x40), x42 == xt28(x41),
        x43 == xt28(x42), x44 == xt28(x43), x45 == xt28(x44), x46 == xt28(x45), x47 == xt28(x46), x48 == xt28(x47),
        x49 == xt28(x48), x50 == xt28(x49), x51 == xt28(x50), x52 == xt28(x51), x53 == xt28(x52), x54 == xt28(x53),
        x55 == xt28(x54), x56 == xt28(x55), x57 == xt28(x56), x58 == xt28(x57), x59 == xt28(x58), x60 == xt28(x59),
        x61 == xt28(x60), x62 == xt28(x61), x63 == xt28(x62), x64 == xt28(x63), x65 == xt28(x64), x66 == xt28(x65),
        x67 == xt28(x66), x68 == xt28(x67), x69 == xt28(x68), x70 == xt28(x69), x71 == xt28(x70), x72 == xt28(x71),
        x73 == xt28(x72), x74 == xt28(x73), x75 == xt28(x74), x76 == xt28(x75), x77 == xt28(x76), x78 == xt28(x77),
        x79 == xt28(x78), x80 == xt28(x79), x81 == xt28(x80), x82 == xt28(x81), x83 == xt28(x82), x84 == xt28(x83),
        x85 == xt28(x84), x86 == xt28(x85), x87 == xt28(x86), x88 == xt28(x87), x89 == xt28(x88), x90 == xt28(x89),
        x91 == xt28(x90), x92 == xt28(x91), x93 == xt28(x92), x94 == xt28(x93), x95 == xt28(x94), x96 == xt28(x95),
        x97 == xt28(x96), x98 == xt28(x97), x99 == xt28(x98), x100 == xt28(x99), x101 == xt28(x100), x102 == xt28(x101),
        x103 == xt28(x102), x104 == xt28(x103), x105 == xt28(x104), x106 == xt28(x105), x107 == xt28(x106), x108 == xt28(x107),
        x109 == xt28(x108), x110 == xt28(x109), x111 == xt28(x110), x112 == xt28(x111), x113 == xt28(x112), x114 == xt28(x113),
        x115 == xt28(x114), x116 == xt28(x115), x117 == xt28(x116), x118 == xt28(x117), x119 == xt28(x118), x120 == xt28(x119),
        x121 == xt28(x120), x122 == xt28(x121), x123 == xt28(x122), x124 == xt28(x123), x125 == xt28(x124), x126 == xt28(x125),
        x127 == xt28(x126), x128 == xt28(x127), x129 == xt28(x128), x130 == xt28(x129), x131 == xt28(x130), x132 == xt28(x131),
        x133 == xt28(x132), x134 == xt28(x133), x135 == xt28(x134), x136 == xt28(x135), x137 == xt28(x136), x138 == xt28(x137),
        x139 == xt28(x138), x140 == xt28(x139), x141 == xt28(x140), x142 == xt28(x141), x143 == xt28(x142), x144 == xt28(x143),
        x145 == xt28(x144), x146 == xt28(x145), x147 == xt28(x146), x148 == xt28(x147), x149 == xt28(x148), x150 == xt28(x149),
        x151 == xt28(x150), x152 == xt28(x151), x153 == xt28(x152), x154 == xt28(x153), x155 == xt28(x154), x156 == xt28(x155),
        x157 == xt28(x156), x158 == xt28(x157), x159 == xt28(x158), x160 == xt28(x159), x161 == xt28(x160), x162 == xt28(x161),
        x163 == xt28(x162), x164 == xt28(x163), x165 == xt28(x164), x166 == xt28(x165), x167 == xt28(x166), x168 == xt28(x167),
        x169 == xt28(x168), x170 == xt28(x169), x171 == xt28(x170), x172 == xt28(x171), x173 == xt28(x172), x174 == xt28(x173),
        x175 == xt28(x174), x176 == xt28(x175), x177 == xt28(x176), x178 == xt28(x177), x179 == xt28(x178), x180 == xt28(x179),
        x181 == xt28(x180), x182 == xt28(x181), x183 == xt28(x182), x184 == xt28(x183), x185 == xt28(x184), x186 == xt28(x185),
        x187 == xt28(x186), x188 == xt28(x187), x189 == xt28(x188), x190 == xt28(x189), x191 == xt28(x190), x192 == xt28(x191),
        x193 == xt28(x192), x194 == xt28(x193), x195 == xt28(x194), x196 == xt28(x195), x197 == xt28(x196), x198 == xt28(x197),
        x199 == xt28(x198), x200 == xt28(x199), x201 == xt28(x200), x202 == xt28(x201), x203 == xt28(x202), x204 == xt28(x203),
        x205 == xt28(x204), x206 == xt28(x205), x207 == xt28(x206), x208 == xt28(x207), x209 == xt28(x208), x210 == xt28(x209),
        x211 == xt28(x210), x212 == xt28(x211), x213 == xt28(x212), x214 == xt28(x213), x215 == xt28(x214), x216 == xt28(x215),
        x217 == xt28(x216), x218 == xt28(x217), x219 == xt28(x218), x220 == xt28(x219), x221 == xt28(x220), x222 == xt28(x221),
        x223 == xt28(x222), x224 == xt28(x223), x225 == xt28(x224), x226 == xt28(x225), x227 == xt28(x226), x228 == xt28(x227),
        x229 == xt28(x228), x230 == xt28(x229), x231 == xt28(x230), x232 == xt28(x231), x233 == xt28(x232), x234 == xt28(x233),
        x235 == xt28(x234), x236 == xt28(x235), x237 == xt28(x236), x238 == xt28(x237), x239 == xt28(x238), x240 == xt28(x239),
        x241 == xt28(x240), x242 == xt28(x241), x243 == xt28(x242), x244 == xt28(x243), x245 == xt28(x244), x246 == xt28(x245),
        x247 == xt28(x246), x248 == xt28(x247), x249 == xt28(x248), x250 == xt28(x249), x251 == xt28(x250), x252 == xt28(x251),
        x253 == xt28(x252), x254 == xt28(x253), x255 == xt28(x254),
    ensures
        x255 == 1,
        v == x0 || v == x1 || v == x2 || v == x3 || v == x4 || v == x5 || v == x6 || v == x7 || v == x8 || v == x9
            || v == x10 || v == x11 || v == x12 || v == x13 || v == x14 || v == x15 || v == x16 || v == x17 || v == x18 || v == x19
            || v == x20 || v == x21 || v == x22 || v == x23 || v == x24 || v == x25 || v == x26 || v == x27 || v == x28 || v == x29
            || v == x30 || v == x31 || v == x32 || v == x33 || v == x34 || v == x35 || v == x36 || v == x37 || v == x38 || v == x39
            || v == x40 || v == x41 || v == x42 || v == x43 || v == x44 || v == x45 || v == x46 || v == x47 || v == x48 || v == x49
            || v == x50 || v == x51 || v == x52 || v == x53 || v == x54 || v == x55 || v == x56 || v == x57 || v == x58 || v == x59
            || v == x60 || v == x61 || v == x62 || v == x63 || v == x64 || v == x65 || v == x66 || v == x67 || v == x68 || v == x69
            || v == x70 || v == x71 || v == x72 || v == x73 || v == x74 || v == x75 || v == x76 || v == x77 || v == x78 || v == x79
            || v == x80 || v == x81 || v == x82 || v == x83 || v == x84 || v == x85 || v == x86 || v == x87 || v == x88 || v == x89
            || v == x90 || v == x91 || v == x92 || v == x93 || v == x94 || v == x95 || v == x96 || v == x97 || v == x98 || v == x99
            || v == x100 || v == x101 || v == x102 || v == x103 || v == x104 || v == x105 || v == x106 || v == x107 || v == x108 || v == x109
            || v == x110 || v == x111 || v == x112 || v == x113 || v == x114 || v == x115 || v == x116 || v == x117 || v == x118 || v == x119
            || v == x120 || v == x121 || v == x122 || v == x123 || v == x124 || v == x125 || v == x126 || v == x127 || v == x128 || v == x129
            || v == x130 || v == x131 || v == x132 || v == x133 || v == x134 || v == x135 || v == x136 || v == x137 || v == x138 || v == x139
            || v == x140 || v == x141 || v == x142 || v == x143 || v == x144 || v == x145 || v == x146 || v == x147 || v == x148 || v == x149
            || v == x150 || v == x151 || v == x152 || v == x153 || v == x154 || v == x155 || v == x156 || v == x157 || v == x158 || v == x159
            || v == x160 || v == x161 || v == x162 || v == x163 || v == x164 || v == x165 || v == x166 || v == x167 || v == x168 || v == x169
            || v == x170 || v == x171 || v == x172 || v == x173 || v == x174 || v == x175 || v == x176 || v == x177 || v == x178 || v == x179
            || v == x180 || v == x181 || v == x182 || v == x183 || v == x184 || v == x185 || v == x186 || v == x187 || v == x188 || v == x189
            || v == x190 || v == x191 || v == x192 || v == x193 || v == x194 || v == x195 || v == x196 || v == x197 || v == x198 || v == x199
            || v == x200 || v == x201 || v == x202 || v == x203 || v == x204 || v == x205 || v == x206 || v == x207 || v == x208 || v == x209
            || v == x210 || v == x211 || v == x212 || v == x213 || v == x214 || v == x215 || v == x216 || v == x217 || v == x218 || v == x219
            || v == x220 || v == x221 || v == x222 || v == x223 || v == x224 || v == x225 || v == x226 || v == x227 || v == x228 || v == x229
            || v == x230 || v == x231 || v == x232 || v == x233 || v == x234 || v == x235 || v == x236 || v == x237 || v == x238 || v == x239
            || v == x240 || v == x241 || v == x242 || v == x243 || v == x244 || v == x245 || v == x246 || v == x247 || v == x248 || v == x249
            || v == x250 || v == x251 || v == x252 || v == x253 || v == x254,
{
}

/// Every nonzero byte is one of the first 255 powers of the generator, and the
/// 255th power is one.
proof fn lemma_alpha_covers(v: u8)
    requires
        v != 0,
    ensures
        exists|k: int| 0 <= k < 255 && #[trigger] alpha(k as nat) == v as u16,
        alpha(255) == 1,
{
    assert forall|k: nat| #[trigger] alpha(k) < 256 && (k > 0 ==> alpha(k) as u8 == xt28(alpha((k - 1) as nat) as u8)) by {
        lemma_alpha_step(k);
    }
    reveal_with_fuel(alpha, 2);
    lemma_powers_cover_bv(
        v,
        alpha(0) as u8, alpha(1) as u8, alpha(2) as u8, alpha(3) as u8, alpha(4) as u8, alpha(5) as u8, alpha(6) as u8, alpha(7) as u8,
        alpha(8) as u8, alpha(9) as u8, alpha(10) as u8, alpha(11) as u8, alpha(12) as u8, alpha(13) as u8, alpha(14) as u8, alpha(15) as u8,
        alpha(16) as u8, alpha(17) as u8, alpha(18) as u8, alpha(19) as u8, alpha(20) as u8, alpha(21) as u8, alpha(22) as u8, alpha(23) as u8,
        alpha(24) as u8, alpha(25) as u8, alpha(26) as u8, alpha(27) as u8, alpha(28) as u8, alpha(29) as u8, alpha(30) as u8, alpha(31) as u8,
        alpha(32) as u8, alpha(33) as u8, alpha(34) as u8, alpha(35) as u8, alpha(36) as u8, alpha(37) as u8, alpha(38) as u8, alpha(39) as u8,
        alpha(40) as u8, alpha(41) as u8, alpha(42) as u8, alpha(43) as u8, alpha(44) as u8, alpha(45) as u8, alpha(46) as u8, alpha(47) as u8,
        alpha(48) as u8, alpha(49) as u8, alpha(50) as u8, alpha(51) as u8, alpha(52) as u8, alpha(53) as u8, alpha(54) as u8, alpha(55) as u8,
        alpha(56) as u8, alpha(57) as u8, alpha(58) as u8, alpha(59) as u8, alpha(60) as u8, alpha(61) as u8, alpha(62) as u8, alpha(63) as u8,
        alpha(64) as u8, alpha(65) as u8, alpha(66) as u8, alpha(67) as u8, alpha(68) as u8, alpha(69) as u8, alpha(70) as u8, alpha(71) as u8,
        alpha(72) as u8, alpha(73) as u8, alpha(74) as u8, alpha(75) as u8, alpha(76) as u8, alpha(77) as u8, alpha(78) as u8, alpha(79) as u8,
        alpha(80) as u8, alpha(81) as u8, alpha(82) as u8, alpha(83) as u8, alpha(84) as u8, alpha(85) as u8, alpha(86) as u8, alpha(87) as u8,
        alpha(88) as u8, alpha(89) as u8, alpha(90) as u8, alpha(91) as u8, alpha(92) as u8, alpha(93) as u8, alpha(94) as u8, alpha(95) as u8,
        alpha(96) as u8, alpha(97) as u8, alpha(98) as u8, alpha(99) as u8, alpha(100) as u8, alpha(101) as u8, alpha(102) as u8, alpha(103) as u8,
        alpha(104) as u8, alpha(105) as u8, alpha(106) as u8, alpha(107) as u8, alpha(108) as u8, alpha(109) as u8, alpha(110) as u8, alpha(111) as u8,
        alpha(112) as u8, alpha(113) as u8, alpha(114) as u8, alpha(115) as u8, alpha(116) as u8, alpha(117) as u8, alpha(118) as u8, alpha(119) as u8,
        alpha(120) as u8, alpha(121) as u8, alpha(122) as u8, alpha(123) as u8, alpha(124) as u8, alpha(125) as u8, alpha(126) as u8, alpha(127) as u8,
        alpha(128) as u8, alpha(129) as u8, alpha(130) as u8, alpha(131) as u8, alpha(132) as u8, alpha(133) as u8, alpha(134) as u8, alpha(135) as u8,
        alpha(136) as u8, alpha(137) as u8, alpha(138) as u8, alpha(139) as u8, alpha(140) as u8, alpha(141) as u8, alpha(142) as u8, alpha(143) as u8,
        alpha(144) as u8, alpha(145) as u8, alpha(146) as u8, alpha(147) as u8, alpha(148) as u8, alpha(149) as u8, alpha(150) as u8, alpha(151) as u8,
        alpha(152) as u8, alpha(153) as u8, alpha(154) as u8, alpha(155) as u8, alpha(156) as u8, alpha(157) as u8, alpha(158) as u8, alpha(159) as u8,
        alpha(160) as u8, alpha(161) as u8, alpha(162) as u8, alpha(163) as u8, alpha(164) as u8, alpha(165) as u8, alpha(166) as u8, alpha(167) as u8,
        alpha(168) as u8, alpha(169) as u8, alpha(170) as u8, alpha(171) as u8, alpha(172) as u8, alpha(173) as u8, alpha(174) as u8, alpha(175) as u8,
        alpha(176) as u8, alpha(177) as u8, alpha(178) as u8, alpha(179) as u8, alpha(180) as u8, alpha(181) as u8, alpha(182) as u8, alpha(183) as u8,
        alpha(184) as u8, alpha(185) as u8, alpha(186) as u8, alpha(187) as u8, alpha(188) as u8, alpha(189) as u8, alpha(190) as u8, alpha(191) as u8,
        alpha(192) as u8, alpha(193) as u8, alpha(194) as u8, alpha(195) as u8, alpha(196) as u8, alpha(197) as u8, alpha(198) as u8, alpha(199) as u8,
        alpha(200) as u8, alpha(201) as u8, alpha(202) as u8, alpha(203) as u8, alpha(204) as u8, alpha(205) as u8, alpha(206) as u8, alpha(207) as u8,
        alpha(208) as u8, alpha(209) as u8, alpha(210) as u8, alpha(211) as u8, alpha(212) as u8, alpha(213) as u8, alpha(214) as u8, alpha(215) as u8,
        alpha(216) as u8, alpha(217) as u8, alpha(218) as u8, alpha(219) as u8, alpha(220) as u8, alpha(221) as u8, alpha(222) as u8, alpha(223) as u8,
        alpha(224) as u8, alpha(225) as u8, alpha(226) as u8, alpha(227) as u8, alpha(228) as u8, alpha(229) as u8, alpha(230) as u8, alpha(231) as u8,
        alpha(232) as u8, alpha(233) as u8, alpha(234) as u8, alpha(235) as u8, alpha(236) as u8, alpha(237) as u8, alpha(238) as u8, alpha(239) as u8,
        alpha(240) as u8, alpha(241) as u8, alpha(242) as u8, alpha(243) as u8, alpha(244) as u8, alpha(245) as u8, alpha(246) as u8, alpha(247) as u8,
        alpha(248) as u8, alpha(249) as u8, alpha(250) as u8, alpha(251) as u8, alpha(252) as u8, alpha(253) as u8, alpha(254) as u8, alpha(255) as u8,
    );

}

/// The powers of the generator multiply by adding exponents.
proof fn lemma_alpha_add(i: nat, j: nat)
    ensures
        alpha(i + j) as u8 == gmul28(alpha(i) as u8, alpha(j) as u8),
    decreases j,
{
    lemma_alpha_step(i + j);
    if j == 0 {
        lemma_gmulp_zero_one(0x1Du8, alpha(i) as u8);
    } else {
        lemma_alpha_add(i, (j - 1) as nat);
        lemma_alpha_step(j);
        let x = alpha(i) as u8;
        let y = alpha((j - 1) as nat) as u8;
        assert(i + j - 1 == i + (j - 1) as nat);
        lemma_gmulp_xt(0x1Du8, y, x);
        lemma_gmulp_comm(0x1Du8, x, y);
        lemma_gmulp_comm(0x1Du8, x, xt28(y));
    }
}

/// The logarithm table finds a power equal to each value that has one.
proof fn lemma_log_after(k: nat, v: int)
    requires
        k <= 255,
        exists|w: int| 0 <= w < k && #[trigger] alpha(w as nat) == v,
    ensures
        log_after(k, v) < k,
        alpha(log_after(k, v) as nat) == v,
    decreases k,
{
    if alpha((k - 1) as nat) != v {
        let w = choose|w: int| 0 <= w < k && #[trigger] alpha(w as nat) == v;
        assert(w < k - 1);
        lemma_log_after((k - 1) as nat, v);
    }
}

/// The exponent table holds the generator's powers, cycling after 255.
proof fn lemma_exp_entry(j: int)
    requires
        0 <= j <= 508,
    ensures
        exp_entry(j) == alpha(j as nat) as u8,
{
    if j >= 255 {
        lemma_alpha_covers(1);
        lemma_alpha_add((j - 255) as nat, 255);
        lemma_alpha_step((j - 255) as nat);
        lemma_gmulp_zero_one(0x1Du8, alpha((j - 255) as nat) as u8);
        assert((j - 255) as nat + 255 == j as nat);
    }
}

/// The table-driven multiplication is the field multiplication.
pub proof fn lemma_gf28_mul_is_gmul28(a: u8, b: u8)
    ensures
        gf28_mul(a, b) == gmul28(a, b),
{
    lemma_gmulp_zero_one(0x1Du8, a);
    lemma_gmulp_zero_one(0x1Du8, b);
    if a != 0 && b != 0 {
        lemma_alpha_covers(a);
        lemma_alpha_covers(b);
        lemma_log_after(255, a as int);
        lemma_log_after(255, b as int);
        let la = log_entry(a as int);
        let lb = log_entry(b as int);
        lemma_alpha_step(la as nat);
        lemma_alpha_step(lb as nat);
        lemma_exp_entry(la + lb);
        lemma_alpha_add(la as nat, lb as nat);
    }
}

/// The table-driven inverse of a nonzero element is its inverse.
pub proof fn lemma_gf28_inverse(a: u8)
    requires
        a != 0,
    ensures
        gmul28(a, gf28_inv(a)) == 1,
{
    lemma_alpha_covers(a);
    lemma_log_after(255, a as int);
    let la = log_entry(a as int);
    lemma_alpha_step(la as nat);
    lemma_exp_entry(255 - la);
    lemma_alpha_add(la as nat, (255 - la) as nat);
    assert(la as nat + (255 - la) as nat == 255);
    lemma_alpha_step(255);
}


/// The laws of the table-driven multiplication, through `gmul28`.
pub proof fn lemma_gf28_laws(a: u8, b: u8, c: u8)
    ensures
        gf28_mul(a, b) == gf28_mul(b, a),
        gf28_mul(gf28_mul(a, b), c) == gf28_mul(a, gf28_mul(b, c)),
        gf28_mul(a, b ^ c) == gf28_mul(a, b) ^ gf28_mul(a, c),
        gf28_mul(a ^ b, c) == gf28_mul(a, c) ^ gf28_mul(b, c),
        gf28_mul(a, 0) == 0,
        gf28_mul(0, a) == 0,
        gf28_mul(a, 1) == a,
        gf28_mul(1, a) == a,
{
    lemma_gf28_mul_is_gmul28(a, b);
    lemma_gf28_mul_is_gmul28(b, a);
    lemma_gf28_mul_is_gmul28(b, c);
    lemma_gf28_mul_is_gmul28(a, c);
    lemma_gf28_mul_is_gmul28(a ^ b, c);
    lemma_gf28_mul_is_gmul28(a, b ^ c);
    lemma_gf28_mul_is_gmul28(gmul28(a, b), c);
    lemma_gf28_mul_is_gmul28(a, gmul28(b, c));
    lemma_gf28_mul_is_gmul28(a, 0);
    lemma_gf28_mul_is_gmul28(0, a);
    lemma_gf28_mul_is_gmul28(a, 1);
    lemma_gf28_mul_is_gmul28(1, a);
    lemma_gmulp_comm(0x1Du8, a, b);
    lemma_gmulp_assoc(0x1Du8, a, b, c);
    lemma_gmulp_distrib(0x1Du8, a, b, c);
    lemma_gmulp_distrib_left(0x1Du8, a, b, c);
    lemma_gmulp_zero_one(0x1Du8, a);
}

/// A nonzero element times its table-driven inverse is one.
pub proof fn lemma_gf28_mul_inv(a: u8)
    requires
        a != 0,
    ensures
        gf28_mul(a, gf28_inv(a)) == 1,
{
    lemma_gf28_inverse(a);
    lemma_gf28_mul_is_gmul28(a, gf28_inv(a));
}

/// `sum_{q < k} row[q] * a[q][c]`: row times column `c` of `a`, over the first `k` terms.
pub open spec fn dotc(row: Seq<u8>, a: Seq<Seq<u8>>, c: int, k: int) -> u8
    decreases k,
{
    if k <= 0 { 0 } else { dotc(row, a, c, k - 1) ^ gf28_mul(row[k - 1], a[k - 1][c]) }
}

/// Whether `inv * a` is the `n x n` identity.
pub open spec fn is_left_inverse(inv: Seq<Seq<u8>>, a: Seq<Seq<u8>>, n: int) -> bool {
    forall|r: int, c: int| 0 <= r < n && 0 <= c < n ==> #[trigger] dotc(inv[r], a, c, n) == if r == c { 1u8 } else { 0u8 }
}

/// Row `r` of the `n x n` identity.
pub open spec fn unit_row(r: int, n: int) -> Seq<u8> {
    Seq::new(n as nat, |q: int| if q == r { 1u8 } else { 0u8 })
}

/// A row times a constant.
pub open spec fn scale_row(row: Seq<u8>, s: u8) -> Seq<u8> {
    row.map_values(|v: u8| gf28_mul(v, s))
}

/// `r1 + f * r2`.
pub open spec fn axpy(r1: Seq<u8>, f: u8, r2: Seq<u8>) -> Seq<u8> {
    Seq::new(r1.len(), |q: int| r1[q] ^ gf28_mul(f, r2[q]))
}

/// A row of the identity picks out a row.
pub proof fn lemma_dotc_unit(r: int, n: int, a: Seq<Seq<u8>>, c: int, k: int)
    requires
        0 <= k <= n,
    ensures
        dotc(unit_row(r, n), a, c, k) == if 0 <= r < k { a[r][c] } else { 0u8 },
    decreases k,
{
    if k > 0 {
        lemma_dotc_unit(r, n, a, c, k - 1);
        let x = a[k - 1][c];
        lemma_gf28_laws(x, 0, 0);
        lemma_xor(x, 0, 0, 0);
        lemma_xor(a[r][c], 0, 0, 0);
    }
}

/// Scaling a row scales its products.
pub proof fn lemma_dotc_scale(row: Seq<u8>, s: u8, a: Seq<Seq<u8>>, c: int, k: int)
    requires
        0 <= k <= row.len(),
    ensures
        dotc(scale_row(row, s), a, c, k) == gf28_mul(dotc(row, a, c, k), s),
    decreases k,
{
    lemma_gf28_laws(s, 0, 0);
    if k > 0 {
        lemma_dotc_scale(row, s, a, c, k - 1);
        let d = dotc(row, a, c, k - 1);
        let x = row[k - 1];
        let y = a[k - 1][c];
        lemma_gf28_laws(d, gf28_mul(x, y), s);
        lemma_gf28_laws(x, s, y);
        lemma_gf28_laws(x, y, s);
        lemma_gf28_laws(s, y, 0);
    }
}

/// Adding a multiple of a row adds the multiple of its products.
pub proof fn lemma_dotc_axpy(r1: Seq<u8>, f: u8, r2: Seq<u8>, a: Seq<Seq<u8>>, c: int, k: int)
    requires
        0 <= k <= r1.len(),
        r1.len() == r2.len(),
    ensures
        dotc(axpy(r1, f, r2), a, c, k) == dotc(r1, a, c, k) ^ gf28_mul(f, dotc(r2, a, c, k)),
    decreases k,
{
    lemma_gf28_laws(f, 0, 0);
    if k > 0 {
        lemma_dotc_axpy(r1, f, r2, a, c, k - 1);
        let d1 = dotc(r1, a, c, k - 1);
        let d2 = dotc(r2, a, c, k - 1);
        let x1 = r1[k - 1];
        let x2 = r2[k - 1];
        let y = a[k - 1][c];
        lemma_gf28_laws(x1, gf28_mul(f, x2), y);
        lemma_gf28_laws(f, x2, y);
        lemma_gf28_laws(f, d2, gf28_mul(x2, y));
        lemma_xor(d1, gf28_mul(f, d2), gf28_mul(x1, y), gf28_mul(f, gf28_mul(x2, y)));
        lemma_xor(0, 0, 0, 0);
    } else {
        lemma_xor(0, 0, 0, 0);
    }
}


/// `t(0) + ... + t(k - 1)`.
pub open spec fn dsum(t: spec_fn(int) -> u8, k: int) -> u8
    decreases k,
{
    if k <= 0 { 0 } else { dsum(t, k - 1) ^ t(k - 1) }
}

/// A row-column product is the sum of its terms.
pub proof fn lemma_dotc_dsum(row: Seq<u8>, a: Seq<Seq<u8>>, c: int, k: int)
    ensures
        dotc(row, a, c, k) == dsum(|q: int| gf28_mul(row[q], a[q][c]), k),
    decreases k,
{
    if k > 0 {
        lemma_dotc_dsum(row, a, c, k - 1);
    }
}

/// Two sums whose terms agree except at positions `i` and `p` differ by the
/// differences there.
proof fn lemma_dsum_diff(t1: spec_fn(int) -> u8, t2: spec_fn(int) -> u8, k: int, i: int, p: int)
    requires
        i != p,
        forall|q: int| 0 <= q < k && q != i && q != p ==> #[trigger] t1(q) == t2(q),
    ensures
        dsum(t1, k) ^ dsum(t2, k) == (if 0 <= i < k { t1(i) ^ t2(i) } else { 0u8 })
            ^ (if 0 <= p < k { t1(p) ^ t2(p) } else { 0u8 }),
    decreases k,
{
    lemma_xor(0, 0, 0, 0);
    if k > 0 {
        lemma_dsum_diff(t1, t2, k - 1, i, p);
        let q = k - 1;
        let d1 = dsum(t1, q);
        let d2 = dsum(t2, q);
        let a = if 0 <= i < q { t1(i) ^ t2(i) } else { 0u8 };
        let b = if 0 <= p < q { t1(p) ^ t2(p) } else { 0u8 };
        lemma_xor(d1, t1(q), d2, t2(q));
        lemma_xor(a, b, t1(q) ^ t2(q), 0);
        lemma_xor(t1(q), 0, 0, 0);
        lemma_xor(a ^ b, 0, 0, 0);
        lemma_xor(a, t1(q) ^ t2(q), b, 0);
        lemma_xor(a, b, 0, 0);
        lemma_xor(b, t1(q) ^ t2(q), 0, 0);
    }
}

/// Sums whose terms agree except at two positions, where the two pairs of terms
/// have equal sums, are equal.
pub proof fn lemma_dsum_swap_terms(t1: spec_fn(int) -> u8, t2: spec_fn(int) -> u8, k: int, i: int, p: int)
    requires
        0 <= i < k,
        0 <= p < k,
        i != p,
        forall|q: int| 0 <= q < k && q != i && q != p ==> #[trigger] t1(q) == t2(q),
        t1(i) ^ t1(p) == t2(i) ^ t2(p),
    ensures
        dsum(t1, k) == dsum(t2, k),
{
    lemma_dsum_diff(t1, t2, k, i, p);
    lemma_xor(t1(i), t2(i), t1(p), t2(p));
    lemma_xor(t1(i) ^ t1(p), t2(i) ^ t2(p), 0, 0);
    lemma_xor(dsum(t1, k), dsum(t2, k), 0, 0);
}

/// Sums whose terms agree except at one position, where they are equal too, are equal.
pub proof fn lemma_dsum_congr(t1: spec_fn(int) -> u8, t2: spec_fn(int) -> u8, k: int)
    requires
        forall|q: int| 0 <= q < k ==> #[trigger] t1(q) == t2(q),
    ensures
        dsum(t1, k) == dsum(t2, k),
    decreases k,
{
    if k > 0 {
        lemma_dsum_congr(t1, t2, k - 1);
    }
}

} // verus!
