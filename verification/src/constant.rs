//! Bit patterns of the numbers in the formulas, named by their digits: `N0_35`
//! is 0.35 and `N1E_4` is a ten thousandth.

use vstd::prelude::*;

verus! {

/// The full circle, in radians.
pub const TAU: u32 = 0x40C9_0FDB;

/// The half circle, in radians.
pub const PI: u32 = 0x4049_0FDB;

/// The quarter circle, in radians.
pub const QUARTER: u32 = 0x3FC9_0FDB;

/// The natural logarithm of two.
pub const LN_2: u32 = 0x3F31_7218;

pub const N1E_12: u32 = 0x2B8C_BCCC;
pub const N1E_9: u32 = 0x3089_705F;
pub const N1E_7: u32 = 0x33D6_BF95;
pub const N1E_6: u32 = 0x3586_37BD;
pub const N1E_4: u32 = 0x38D1_B717;
pub const N2_8E_4: u32 = 0x3992_CCF7;
pub const N0_002: u32 = 0x3B03_126F;
pub const N0_004: u32 = 0x3B83_126F;
pub const N0_005: u32 = 0x3BA3_D70A;
pub const N0_008: u32 = 0x3C03_126F;
pub const N0_01: u32 = 0x3C23_D70A;
pub const N0_015: u32 = 0x3C75_C28F;
pub const N0_02: u32 = 0x3CA3_D70A;
pub const N0_031: u32 = 0x3CFD_F3B6;
pub const N0_035: u32 = 0x3D0F_5C29;
pub const N0_045: u32 = 0x3D38_51EC;
pub const N0_05: u32 = 0x3D4C_CCCD;
pub const N0_06: u32 = 0x3D75_C28F;
pub const N0_08: u32 = 0x3DA3_D70A;
pub const N0_09: u32 = 0x3DB8_51EC;
pub const N0_1: u32 = 0x3DCC_CCCD;
pub const N0_12: u32 = 0x3DF5_C28F;
pub const N0_15: u32 = 0x3E19_999A;
pub const N0_17: u32 = 0x3E2E_147B;
pub const N0_2: u32 = 0x3E4C_CCCD;
pub const N0_22: u32 = 0x3E61_47AE;
pub const N0_25: u32 = 0x3E80_0000;
pub const N0_28: u32 = 0x3E8F_5C29;
pub const N0_3: u32 = 0x3E99_999A;
pub const N0_34: u32 = 0x3EAE_147B;
pub const N0_35: u32 = 0x3EB3_3333;
pub const N0_4: u32 = 0x3ECC_CCCD;
pub const N0_42: u32 = 0x3ED7_0A3D;
pub const N0_45: u32 = 0x3EE6_6666;
pub const N0_5: u32 = 0x3F00_0000;
pub const N0_55: u32 = 0x3F0C_CCCD;
pub const N0_6: u32 = 0x3F19_999A;
pub const N0_65: u32 = 0x3F26_6666;
pub const N0_7: u32 = 0x3F33_3333;
pub const N0_75: u32 = 0x3F40_0000;
pub const N0_77: u32 = 0x3F45_1EB8;
pub const N0_8: u32 = 0x3F4C_CCCD;
pub const N0_82: u32 = 0x3F51_EB85;
pub const N0_891: u32 = 0x3F64_1893;
pub const N0_9: u32 = 0x3F66_6666;
pub const N0_95: u32 = 0x3F73_3333;
pub const N0_999999: u32 = 0x3F7F_FFEF;
pub const N1_2: u32 = 0x3F99_999A;
pub const N1_3: u32 = 0x3FA6_6666;
pub const N1_4: u32 = 0x3FB3_3333;
pub const N1_5: u32 = 0x3FC0_0000;
pub const N1_6: u32 = 0x3FCC_CCCD;
pub const N1_82: u32 = 0x3FE8_F5C3;
pub const N2: u32 = 0x4000_0000;
pub const N2_5: u32 = 0x4020_0000;
pub const N2_8: u32 = 0x4033_3333;
pub const N3: u32 = 0x4040_0000;
pub const N4: u32 = 0x4080_0000;
pub const N6: u32 = 0x40C0_0000;
pub const N7_9: u32 = 0x40FC_CCCD;
pub const N8: u32 = 0x4100_0000;
pub const N10: u32 = 0x4120_0000;
pub const N11_3: u32 = 0x4134_CCCD;
pub const N12: u32 = 0x4140_0000;
pub const N14: u32 = 0x4160_0000;
pub const N14_7: u32 = 0x416B_3333;
pub const N15: u32 = 0x4170_0000;
pub const N16_5: u32 = 0x4184_0000;
pub const N17_2: u32 = 0x4189_999A;
pub const N18_9: u32 = 0x4197_3333;
pub const N20: u32 = 0x41A0_0000;
pub const N21: u32 = 0x41A8_0000;
pub const N23_1: u32 = 0x41B8_CCCD;
pub const N24: u32 = 0x41C0_0000;
pub const N29_7: u32 = 0x41ED_999A;
pub const N29_9: u32 = 0x41EF_3333;
pub const N30: u32 = 0x41F0_0000;
pub const N35: u32 = 0x420C_0000;
pub const N37_1: u32 = 0x4214_6666;
pub const N38_7: u32 = 0x421A_CCCD;
pub const N40: u32 = 0x4220_0000;
pub const N41_1: u32 = 0x4224_6666;
pub const N43_7: u32 = 0x422E_CCCD;
pub const N47_3: u32 = 0x423D_3333;
pub const N53: u32 = 0x4254_0000;
pub const N60: u32 = 0x4270_0000;
pub const N61_3: u32 = 0x4275_3333;
pub const N69: u32 = 0x428A_0000;
pub const N71_9: u32 = 0x428F_CCCD;
pub const N83_3: u32 = 0x42A6_999A;
pub const N87: u32 = 0x42AE_0000;
pub const N108: u32 = 0x42D8_0000;
pub const N127: u32 = 0x42FE_0000;
pub const N160: u32 = 0x4320_0000;
pub const N300: u32 = 0x4396_0000;
pub const N420: u32 = 0x43D2_0000;
pub const N440: u32 = 0x43DC_0000;
pub const N600: u32 = 0x4416_0000;
pub const N1000: u32 = 0x447A_0000;
pub const N1200: u32 = 0x4496_0000;
pub const N2500: u32 = 0x451C_4000;
pub const N2800: u32 = 0x452F_0000;
pub const N4000: u32 = 0x457A_0000;
pub const N4800: u32 = 0x4596_0000;
pub const N5000: u32 = 0x459C_4000;
pub const N32767: u32 = 0x46FF_FE00;

} // verus!
