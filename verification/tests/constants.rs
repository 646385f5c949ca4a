use piano::constant;

#[test]
fn named_numbers() {
    assert_eq!(constant::TAU, std::f32::consts::TAU.to_bits());
    assert_eq!(constant::PI, std::f32::consts::PI.to_bits());
    assert_eq!(constant::QUARTER, std::f32::consts::FRAC_PI_2.to_bits());
    assert_eq!(constant::LN_2, std::f32::consts::LN_2.to_bits());
    assert_eq!(constant::N1E_12, 1e-12f32.to_bits());
    assert_eq!(constant::N1E_9, 1e-9f32.to_bits());
    assert_eq!(constant::N1E_7, 1e-7f32.to_bits());
    assert_eq!(constant::N1E_6, 1e-6f32.to_bits());
    assert_eq!(constant::N1E_4, 1e-4f32.to_bits());
    assert_eq!(constant::N2_8E_4, 2.8e-4f32.to_bits());
    assert_eq!(constant::N0_002, 0.002f32.to_bits());
    assert_eq!(constant::N0_004, 0.004f32.to_bits());
    assert_eq!(constant::N0_005, 0.005f32.to_bits());
    assert_eq!(constant::N0_008, 0.008f32.to_bits());
    assert_eq!(constant::N0_01, 0.01f32.to_bits());
    assert_eq!(constant::N0_015, 0.015f32.to_bits());
    assert_eq!(constant::N0_02, 0.02f32.to_bits());
    assert_eq!(constant::N0_031, 0.031f32.to_bits());
    assert_eq!(constant::N0_035, 0.035f32.to_bits());
    assert_eq!(constant::N0_045, 0.045f32.to_bits());
    assert_eq!(constant::N0_05, 0.05f32.to_bits());
    assert_eq!(constant::N0_06, 0.06f32.to_bits());
    assert_eq!(constant::N0_08, 0.08f32.to_bits());
    assert_eq!(constant::N0_09, 0.09f32.to_bits());
    assert_eq!(constant::N0_1, 0.1f32.to_bits());
    assert_eq!(constant::N0_12, 0.12f32.to_bits());
    assert_eq!(constant::N0_15, 0.15f32.to_bits());
    assert_eq!(constant::N0_17, 0.17f32.to_bits());
    assert_eq!(constant::N0_2, 0.2f32.to_bits());
    assert_eq!(constant::N0_22, 0.22f32.to_bits());
    assert_eq!(constant::N0_25, 0.25f32.to_bits());
    assert_eq!(constant::N0_28, 0.28f32.to_bits());
    assert_eq!(constant::N0_3, 0.3f32.to_bits());
    assert_eq!(constant::N0_34, 0.34f32.to_bits());
    assert_eq!(constant::N0_35, 0.35f32.to_bits());
    assert_eq!(constant::N0_4, 0.4f32.to_bits());
    assert_eq!(constant::N0_42, 0.42f32.to_bits());
    assert_eq!(constant::N0_45, 0.45f32.to_bits());
    assert_eq!(constant::N0_5, 0.5f32.to_bits());
    assert_eq!(constant::N0_55, 0.55f32.to_bits());
    assert_eq!(constant::N0_6, 0.6f32.to_bits());
    assert_eq!(constant::N0_65, 0.65f32.to_bits());
    assert_eq!(constant::N0_7, 0.7f32.to_bits());
    assert_eq!(constant::N0_75, 0.75f32.to_bits());
    assert_eq!(constant::N0_77, 0.77f32.to_bits());
    assert_eq!(constant::N0_8, 0.8f32.to_bits());
    assert_eq!(constant::N0_82, 0.82f32.to_bits());
    assert_eq!(constant::N0_891, 0.891f32.to_bits());
    assert_eq!(constant::N0_9, 0.9f32.to_bits());
    assert_eq!(constant::N0_95, 0.95f32.to_bits());
    assert_eq!(constant::N0_999999, 0.999999f32.to_bits());
    assert_eq!(constant::N1_2, 1.2f32.to_bits());
    assert_eq!(constant::N1_3, 1.3f32.to_bits());
    assert_eq!(constant::N1_4, 1.4f32.to_bits());
    assert_eq!(constant::N1_5, 1.5f32.to_bits());
    assert_eq!(constant::N1_6, 1.6f32.to_bits());
    assert_eq!(constant::N1_82, 1.82f32.to_bits());
    assert_eq!(constant::N2, 2.0f32.to_bits());
    assert_eq!(constant::N2_5, 2.5f32.to_bits());
    assert_eq!(constant::N2_8, 2.8f32.to_bits());
    assert_eq!(constant::N3, 3.0f32.to_bits());
    assert_eq!(constant::N4, 4.0f32.to_bits());
    assert_eq!(constant::N6, 6.0f32.to_bits());
    assert_eq!(constant::N7_9, 7.9f32.to_bits());
    assert_eq!(constant::N8, 8.0f32.to_bits());
    assert_eq!(constant::N10, 10.0f32.to_bits());
    assert_eq!(constant::N11_3, 11.3f32.to_bits());
    assert_eq!(constant::N12, 12.0f32.to_bits());
    assert_eq!(constant::N14, 14.0f32.to_bits());
    assert_eq!(constant::N14_7, 14.7f32.to_bits());
    assert_eq!(constant::N15, 15.0f32.to_bits());
    assert_eq!(constant::N16_5, 16.5f32.to_bits());
    assert_eq!(constant::N17_2, 17.2f32.to_bits());
    assert_eq!(constant::N18_9, 18.9f32.to_bits());
    assert_eq!(constant::N20, 20.0f32.to_bits());
    assert_eq!(constant::N21, 21.0f32.to_bits());
    assert_eq!(constant::N24, 24.0f32.to_bits());
    assert_eq!(constant::N23_1, 23.1f32.to_bits());
    assert_eq!(constant::N29_7, 29.7f32.to_bits());
    assert_eq!(constant::N29_9, 29.9f32.to_bits());
    assert_eq!(constant::N30, 30.0f32.to_bits());
    assert_eq!(constant::N35, 35.0f32.to_bits());
    assert_eq!(constant::N37_1, 37.1f32.to_bits());
    assert_eq!(constant::N38_7, 38.7f32.to_bits());
    assert_eq!(constant::N40, 40.0f32.to_bits());
    assert_eq!(constant::N41_1, 41.1f32.to_bits());
    assert_eq!(constant::N43_7, 43.7f32.to_bits());
    assert_eq!(constant::N47_3, 47.3f32.to_bits());
    assert_eq!(constant::N53, 53.0f32.to_bits());
    assert_eq!(constant::N60, 60.0f32.to_bits());
    assert_eq!(constant::N61_3, 61.3f32.to_bits());
    assert_eq!(constant::N69, 69.0f32.to_bits());
    assert_eq!(constant::N71_9, 71.9f32.to_bits());
    assert_eq!(constant::N83_3, 83.3f32.to_bits());
    assert_eq!(constant::N87, 87.0f32.to_bits());
    assert_eq!(constant::N108, 108.0f32.to_bits());
    assert_eq!(constant::N127, 127.0f32.to_bits());
    assert_eq!(constant::N160, 160.0f32.to_bits());
    assert_eq!(constant::N300, 300.0f32.to_bits());
    assert_eq!(constant::N420, 420.0f32.to_bits());
    assert_eq!(constant::N440, 440.0f32.to_bits());
    assert_eq!(constant::N600, 600.0f32.to_bits());
    assert_eq!(constant::N1000, 1000.0f32.to_bits());
    assert_eq!(constant::N1200, 1200.0f32.to_bits());
    assert_eq!(constant::N2500, 2500.0f32.to_bits());
    assert_eq!(constant::N2800, 2800.0f32.to_bits());
    assert_eq!(constant::N4000, 4000.0f32.to_bits());
    assert_eq!(constant::N4800, 4800.0f32.to_bits());
    assert_eq!(constant::N5000, 5000.0f32.to_bits());
    assert_eq!(constant::N32767, 32767.0f32.to_bits());
}
