use max_points::tax::{
    calculate_payment_breakdown, compute_allowance_reduction, compute_tax_with_bands,
    effective_balance, Breakdown,
};

#[test]
fn gross_salary_20_000() {
    let gross = 20_000;
    let sacrifice = 0;

    let expected: Breakdown = Breakdown {
        gross,
        sacrifice,
        allowance: 12_570,
        taxable: 7_430,
        tax: 1_486,
    };

    assert_eq!(expected, calculate_payment_breakdown(gross, sacrifice));
}

#[test]
fn gross_salary_50_000() {
    let gross = 50_000;
    let sacrifice = 0;

    let expected: Breakdown = Breakdown {
        gross,
        sacrifice,
        allowance: 12_570,
        taxable: 37_430,
        tax: 7_486,
    };

    assert_eq!(expected, calculate_payment_breakdown(gross, sacrifice));
}

#[test]
fn gross_salary_80_000() {
    let gross = 80_000;
    let sacrifice = 0;

    let expected: Breakdown = Breakdown {
        gross,
        sacrifice,
        allowance: 12_570,
        taxable: 67_430,
        tax: 19_432,
    };

    assert_eq!(expected, calculate_payment_breakdown(gross, sacrifice));
}

#[test]
fn gross_salary_100_000() {
    let gross = 100_000;
    let sacrifice = 0;

    let expected: Breakdown = Breakdown {
        gross,
        sacrifice,
        allowance: 12_570,
        taxable: 87_430,
        tax: 27_432,
    };

    assert_eq!(expected, calculate_payment_breakdown(gross, sacrifice));
}

#[test]
fn gross_salary_110_000() {
    let gross = 110_000;
    let sacrifice = 0;

    let expected: Breakdown = Breakdown {
        gross,
        sacrifice,
        allowance: 7_570,
        taxable: 102_430,
        tax: 33_432,
    };

    assert_eq!(expected, calculate_payment_breakdown(gross, sacrifice));
}

#[test]
fn gross_salary_125_140() {
    let gross = 125_140;
    let sacrifice = 0;

    let expected: Breakdown = Breakdown {
        gross,
        sacrifice,
        allowance: 0,
        taxable: 125_140,
        tax: 42_516,
    };

    assert_eq!(expected, calculate_payment_breakdown(gross, sacrifice));
}

#[test]
fn gross_salary_150_000() {
    let gross = 150_000;
    let sacrifice = 0;

    let expected: Breakdown = Breakdown {
        gross,
        sacrifice,
        allowance: 0,
        taxable: 150_000,
        tax: 53_703,
    };

    assert_eq!(expected, calculate_payment_breakdown(gross, sacrifice));
}

#[test]
fn gross_salary_125_000_sacrifice_10_000() {
    let gross = 125_000;
    let sacrifice = 10_000;

    let expected: Breakdown = Breakdown {
        gross,
        sacrifice,
        allowance: 5070,
        taxable: 109_930,
        tax: 36_432,
    };

    assert_eq!(expected, calculate_payment_breakdown(gross, sacrifice));
}

#[test]
fn gross_salary_125_000_sacrifice_25_000() {
    let gross = 125_000;
    let sacrifice = 25_000;

    let expected: Breakdown = Breakdown {
        gross,
        sacrifice,
        allowance: 12_570,
        taxable: 87_430,
        tax: 27_432,
    };

    assert_eq!(expected, calculate_payment_breakdown(gross, sacrifice));
}

#[test]
fn gross_salary_125_000_sacrifice_50_000() {
    let gross = 125_000;
    let sacrifice = 50_000;

    let expected: Breakdown = Breakdown {
        gross,
        sacrifice,
        allowance: 12_570,
        taxable: 62_430,
        tax: 17_432,
    };

    assert_eq!(expected, calculate_payment_breakdown(gross, sacrifice));
}

#[test]
fn gross_salary_75_000_sacrifice_50_000() {
    let gross = 75_000;
    let sacrifice = 50_000;

    let expected: Breakdown = Breakdown {
        gross,
        sacrifice,
        allowance: 12_570,
        taxable: 12_430,
        tax: 2_486,
    };

    assert_eq!(expected, calculate_payment_breakdown(gross, sacrifice));
}
#[test]
fn band_slices() {
    assert_eq!(effective_balance(-5, 100), 0);
    assert_eq!(effective_balance(50, 100), 50);
    assert_eq!(effective_balance(150, 100), 100);
}

#[test]
fn allowance_taper() {
    assert_eq!(compute_allowance_reduction(100_000), 0);
    assert_eq!(compute_allowance_reduction(100_003), 1);
    assert_eq!(compute_allowance_reduction(110_000), 5_000);
    assert_eq!(compute_allowance_reduction(200_000), 12_570);
}

#[test]
fn tax_by_band() {
    assert_eq!(compute_tax_with_bands(-1_000), 0);
    assert_eq!(compute_tax_with_bands(0), 0);
    assert_eq!(compute_tax_with_bands(37_700), 7_540);
    assert_eq!(compute_tax_with_bands(37_705), 7_542);
    assert_eq!(compute_tax_with_bands(125_140), 42_516);
    assert_eq!(compute_tax_with_bands(i32::MAX), 966_353_844);
}

#[test]
fn income_below_allowance() {
    let expected = Breakdown { gross: 10_000, sacrifice: 0, allowance: 12_570, taxable: -2_570, tax: 0 };
    assert_eq!(calculate_payment_breakdown(10_000, 0), expected);
}
