//! Income tax on a salary, by bands, with a personal allowance that tapers
//! away on high incomes and salary sacrifice taken before tax.
use vstd::prelude::*;

verus! {

/// The tax-free personal allowance before any taper.
pub const MAX_PERSONAL_ALLOWANCE: i32 = 12_570;

/// Width of the basic-rate band (taxed at 20%).
pub const MAX_BAND1: i32 = 50_270 - 12_570;

/// Width of the higher-rate band (taxed at 40%); above it 45%.
pub const MAX_BAND2: i32 = 125_140 - MAX_BAND1;

/// Above this income the allowance falls by 1 for every 2 of income.
pub const TAPER_THRESHOLD: i32 = 100_000;

/// How a gross salary breaks down into allowance, taxable income and tax.
#[derive(Debug, PartialEq, Eq, Structural)]
pub struct Breakdown {
    pub gross: i32,
    pub sacrifice: i32,
    pub allowance: i32,
    pub taxable: i32,
    pub tax: i32,
}

pub open spec fn clamp(v: int, lo: int, hi: int) -> int {
    if v < lo {
        lo
    } else if v > hi {
        hi
    } else {
        v
    }
}

/// The part of `balance` that falls in a band of width `allowed`.
pub open spec fn band_part(balance: int, allowed: int) -> int {
    if balance < allowed {
        if balance < 0 {
            0
        } else {
            balance
        }
    } else if allowed < 0 {
        0
    } else {
        allowed
    }
}

/// How much the allowance shrinks at income `taxable`.
pub open spec fn allowance_reduction(taxable: int) -> int {
    if taxable <= TAPER_THRESHOLD {
        0
    } else if (taxable - TAPER_THRESHOLD) / 2 < MAX_PERSONAL_ALLOWANCE {
        (taxable - TAPER_THRESHOLD) / 2
    } else {
        MAX_PERSONAL_ALLOWANCE as int
    }
}

/// Income in the basic, higher and additional bands.
pub open spec fn basic_part(taxable: int) -> int {
    clamp(taxable, 0, MAX_BAND1 as int)
}

pub open spec fn higher_part(taxable: int) -> int {
    clamp(taxable - MAX_BAND1, 0, MAX_BAND2 as int)
}

pub open spec fn additional_part(taxable: int) -> int {
    if taxable - MAX_BAND1 - MAX_BAND2 > 0 {
        taxable - MAX_BAND1 - MAX_BAND2
    } else {
        0
    }
}

/// The tax due on `taxable`: each band's share rounded down on its own.
pub open spec fn tax_due(taxable: int) -> int {
    basic_part(taxable) * 20 / 100 + higher_part(taxable) * 40 / 100 + additional_part(taxable) * 45
        / 100
}

/// `balance` limited to the range from 0 to `allowed_in_band`.
pub fn effective_balance(balance: i32, allowed_in_band: i32) -> (r: i32)
    ensures
        r == band_part(balance as int, allowed_in_band as int),
{
    let capped = if balance < allowed_in_band { balance } else { allowed_in_band };
    if capped < 0 { 0 } else { capped }
}

/// How much the personal allowance shrinks at income `taxable`: half of
/// what exceeds the taper threshold, at most the whole allowance.
pub fn compute_allowance_reduction(taxable: i32) -> (r: i32)
    ensures
        r == allowance_reduction(taxable as int),
{
    if taxable <= TAPER_THRESHOLD {
        return 0;
    }
    let half = (taxable - TAPER_THRESHOLD) / 2;
    if half < MAX_PERSONAL_ALLOWANCE { half } else { MAX_PERSONAL_ALLOWANCE }
}


/// The tax due on `taxable` income: 20% in the basic band, 40% in the
/// higher band and 45% above; nothing on income of 0 or less.
pub fn compute_tax_with_bands(taxable: i32) -> (r: i32)
    ensures
        r == tax_due(taxable as int),
{
    let band_rates: [i64; 3] = [20, 40, 45];
    let max_bands: [i32; 2] = [MAX_BAND1, MAX_BAND2];
    let mut salary_bands: [i32; 3] = [0, 0, 0];
    let mut remaining_balance: i32 = taxable;
    let mut band: usize = 0;
    while band < 2
        invariant
            band <= 2,
            max_bands@ == seq![MAX_BAND1, MAX_BAND2],
            band == 0 ==> remaining_balance == taxable,
            band >= 1 ==> salary_bands@[0] == basic_part(taxable as int),
            band == 1 ==> remaining_balance == if taxable > 0 { taxable - basic_part(taxable as int) } else { 0 },
            band >= 2 ==> salary_bands@[1] == higher_part(taxable as int),
            band == 2 ==> remaining_balance == additional_part(taxable as int),
            salary_bands@.len() == 3,
        decreases 2 - band,
    {
        let band_slice = effective_balance(remaining_balance, max_bands[band]);
        salary_bands[band] = band_slice;
        let rest = remaining_balance - band_slice;
        remaining_balance = if rest > 0 { rest } else { 0 };
        band += 1;
    }
    salary_bands[2] = remaining_balance;
    let mut tax_accumulator: i64 = 0;
    let mut i: usize = 0;
    while i < 3
        invariant
            i <= 3,
            band_rates@ == seq![20i64, 40, 45],
            salary_bands@ == seq![
                basic_part(taxable as int) as i32,
                higher_part(taxable as int) as i32,
                additional_part(taxable as int) as i32,
            ],
            tax_accumulator == (if i >= 1 { basic_part(taxable as int) * 20 / 100 } else { 0 }) + (
            if i >= 2 { higher_part(taxable as int) * 40 / 100 } else { 0 }) + (if i >= 3 {
                additional_part(taxable as int) * 45 / 100
            } else {
                0
            }),
        decreases 3 - i,
    {
        let amount = salary_bands[i] as i64;
        let rate = band_rates[i];
        assert(0 <= amount * rate <= 45 * 0x8000_0000) by (nonlinear_arith)
            requires
                0 <= amount <= 0x8000_0000,
                0 <= rate <= 45,
        ;
        tax_accumulator = tax_accumulator + (amount * rate / 100);
        i += 1;
    }
    assert(tax_accumulator <= i32::MAX) by (nonlinear_arith)
        requires
            tax_accumulator == basic_part(taxable as int) * 20 / 100 + higher_part(taxable as int)
                * 40 / 100 + additional_part(taxable as int) * 45 / 100,
            0 <= basic_part(taxable as int) <= 37_700,
            0 <= higher_part(taxable as int) <= 87_440,
            0 <= additional_part(taxable as int) <= i32::MAX - 125_140,
    ;
    tax_accumulator as i32
}

/// The breakdown of a gross salary with `sacrifice` taken off before tax.
pub fn calculate_payment_breakdown(gross: i32, sacrifice: i32) -> (r: Breakdown)
    requires
        i32::MIN + MAX_PERSONAL_ALLOWANCE <= gross - sacrifice <= i32::MAX,
    ensures
        r.gross == gross,
        r.sacrifice == sacrifice,
        r.allowance == MAX_PERSONAL_ALLOWANCE - allowance_reduction(gross - sacrifice),
        r.taxable == gross - sacrifice - r.allowance,
        r.tax == tax_due(r.taxable as int),
{
    let effective_salary = gross - sacrifice;
    let allowance_reduction = compute_allowance_reduction(effective_salary);
    let updated_allowance = MAX_PERSONAL_ALLOWANCE - allowance_reduction;
    let taxable = effective_salary - updated_allowance;
    let tax = compute_tax_with_bands(taxable);
    Breakdown { gross, sacrifice, allowance: updated_allowance, taxable, tax }
}

} // verus!
