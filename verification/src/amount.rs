//! Monetary amounts in stroops, with exact precision.
//!
//! One XLM is ten million stroops.  An [`Amount`] is strictly positive and at
//! most [`MAX_STROOPS`]; every constructor and every operation either keeps to
//! that range or reports an [`AmountError`].

use vstd::prelude::*;

use crate::decimal::{decimal_string, fixed_decimal_string, parse_u64};
use crate::text::characters;

verus! {

/// Largest amount, in stroops: the largest signed 64-bit integer.
pub const MAX_STROOPS: u64 = 9_223_372_036_854_775_807;

/// Number of decimal places of one XLM.
pub const STROOP_DECIMALS: u32 = 7;

/// Number of stroops in one XLM.
pub const STROOPS_PER_XLM: u64 = 10_000_000;

/// Errors arising from amount construction or arithmetic.
#[derive(Debug, Clone, Copy, PartialEq, Eq, Hash, Structural)]
pub enum AmountError {
    /// The value is zero; amounts are strictly positive.
    Zero,
    /// The value exceeds [`MAX_STROOPS`].
    Overflow,
    /// An intermediate result does not fit its integer type.
    ArithmeticOverflow,
    /// Attempted to subtract a larger value from a smaller one.
    NegativeResult,
    /// Division by zero.
    DivisionByZero,
    /// The decimal text has more fractional digits than a stroop can hold.
    LossOfPrecision,
    /// The value cannot be represented.
    NotRepresentable,
}

impl AmountError {
    /// The message of this error.
    pub open spec fn message(self) -> Seq<char> {
        match self {
            AmountError::Zero => "amount must be strictly positive"@,
            AmountError::Overflow => "amount exceeds maximum stellar value"@,
            AmountError::ArithmeticOverflow => "arithmetic overflow"@,
            AmountError::NegativeResult => "subtraction would produce a negative result"@,
            AmountError::DivisionByZero => "division by zero"@,
            AmountError::LossOfPrecision => "conversion would lose fractional precision"@,
            AmountError::NotRepresentable => "value cannot be represented"@,
        }
    }

    /// The message of this error, for people to read.
    pub fn to_string(&self) -> (text: String)
        ensures
            text@ == self.message(),
    {
        let text = match self {
            AmountError::Zero => "amount must be strictly positive",
            AmountError::Overflow => "amount exceeds maximum stellar value",
            AmountError::ArithmeticOverflow => "arithmetic overflow",
            AmountError::NegativeResult => "subtraction would produce a negative result",
            AmountError::DivisionByZero => "division by zero",
            AmountError::LossOfPrecision => "conversion would lose fractional precision",
            AmountError::NotRepresentable => "value cannot be represented",
        };
        text.to_owned()
    }
}

/// A strictly positive amount of stroops, at most [`MAX_STROOPS`].
#[derive(Debug, Clone, Copy, PartialEq, Eq, PartialOrd, Ord, Hash, Structural)]
pub struct Amount {
    stroops: u64,
}

impl View for Amount {
    type V = int;

    closed spec fn view(&self) -> int {
        self.stroops as int
    }
}

/// Why there is no amount of `stroops` stroops, if there is none.
pub open spec fn amount_error(stroops: int) -> Option<AmountError>
    recommends
        stroops >= 0,
{
    if stroops == 0 {
        Some(AmountError::Zero)
    } else if stroops > MAX_STROOPS {
        Some(AmountError::Overflow)
    } else {
        None
    }
}

/// What making an amount of `stroops` stroops gives: the amount, or the error
/// for a value outside the range.
pub open spec fn amount_of(stroops: int, res: Result<Amount, AmountError>) -> bool {
    match amount_error(stroops) {
        Some(e) => res == Err::<Amount, AmountError>(e),
        None => res matches Ok(amount) && amount@ == stroops && amount.valid(),
    }
}

/// What making an amount of a signed number of stroops gives.
pub open spec fn signed_amount_of(value: int, res: Result<Amount, AmountError>) -> bool {
    if value < 0 {
        res == Err::<Amount, AmountError>(AmountError::NotRepresentable)
    } else {
        amount_of(value, res)
    }
}

/// Why `subtrahend` stroops cannot be taken from `minuend` stroops, if they cannot.
pub open spec fn difference_error(minuend: int, subtrahend: int) -> Option<AmountError> {
    if minuend < subtrahend {
        Some(AmountError::NegativeResult)
    } else {
        amount_error(minuend - subtrahend)
    }
}

/// What taking `subtrahend` stroops from `minuend` stroops gives.
pub open spec fn difference_of(
    minuend: int,
    subtrahend: int,
    res: Result<Amount, AmountError>,
) -> bool {
    match difference_error(minuend, subtrahend) {
        Some(e) => res == Err::<Amount, AmountError>(e),
        None => amount_of(minuend - subtrahend, res),
    }
}

/// `frac` filled up with zeros on the right to [`STROOP_DECIMALS`] characters.
pub open spec fn padded_fraction(frac: Seq<char>) -> Seq<char>
    recommends
        frac.len() <= STROOP_DECIMALS,
{
    frac + Seq::new((STROOP_DECIMALS - frac.len()) as nat, |i: int| '0')
}

/// What reading text without a decimal point gives.
pub open spec fn whole_text(s: Seq<char>, res: Result<Amount, AmountError>) -> bool {
    match crate::decimal::parsed(s) {
        Some(whole) => amount_of(whole * STROOPS_PER_XLM, res),
        None => res == Err::<Amount, AmountError>(AmountError::NotRepresentable),
    }
}

/// What reading `whole`, a decimal point and `frac` gives.  A missing whole part
/// stands for zero; the fraction is at most [`STROOP_DECIMALS`] bytes long.
pub open spec fn pointed_text(
    whole: Seq<char>,
    frac: Seq<char>,
    res: Result<Amount, AmountError>,
) -> bool {
    let units = crate::decimal::parsed(
        if whole.len() == 0 {
            seq!['0']
        } else {
            whole
        },
    );
    let parts = crate::decimal::parsed(padded_fraction(frac));
    if vstd::utf8::encode_utf8(frac).len() > STROOP_DECIMALS {
        res == Err::<Amount, AmountError>(AmountError::LossOfPrecision)
    } else if units is None || parts is None {
        res == Err::<Amount, AmountError>(AmountError::NotRepresentable)
    } else {
        amount_of(units->0 * STROOPS_PER_XLM + parts->0, res)
    }
}

/// Whether `s` has a decimal point at `i` and nowhere else.
pub open spec fn only_point_at(s: Seq<char>, i: int) -> bool {
    &&& 0 <= i < s.len()
    &&& s[i] == '.'
    &&& !s.take(i).contains('.')
    &&& !s.skip(i + 1).contains('.')
}

/// What reading an amount of XLM written in decimal gives.
pub open spec fn decimal_text(s: Seq<char>, res: Result<Amount, AmountError>) -> bool {
    if !s.contains('.') {
        whole_text(s, res)
    } else if exists|i: int| only_point_at(s, i) {
        let i = choose|i: int| only_point_at(s, i);
        pointed_text(s.take(i), s.skip(i + 1), res)
    } else {
        res == Err::<Amount, AmountError>(AmountError::NotRepresentable)
    }
}

/// `stroops` written in XLM, with all [`STROOP_DECIMALS`] decimal places.
pub open spec fn xlm_text(stroops: int) -> Seq<char>
    recommends
        stroops >= 0,
{
    crate::decimal::digits((stroops / STROOPS_PER_XLM as int) as nat).push('.')
        + crate::decimal::fixed_digits(
        (stroops % STROOPS_PER_XLM as int) as nat,
        STROOP_DECIMALS as nat,
    )
}

/// Why there is no fee of `rate` parts in `scale` of `stroops`, if there is none.
pub open spec fn fee_error(stroops: int, rate: u64, scale: int) -> Option<AmountError> {
    if rate == 0 {
        Some(AmountError::Zero)
    } else if rate > scale {
        Some(AmountError::Overflow)
    } else {
        amount_error(stroops * rate / scale)
    }
}

/// What a fee of `rate` parts in `scale` of `stroops` comes to, rounded down.
pub open spec fn fee_of(
    stroops: int,
    rate: u64,
    scale: int,
    res: Result<Amount, AmountError>,
) -> bool {
    match fee_error(stroops, rate, scale) {
        Some(e) => res == Err::<Amount, AmountError>(e),
        None => amount_of(stroops * rate / scale, res),
    }
}

/// The product of two 64-bit integers fits in 128 bits.
proof fn lemma_product_fits(a: u64, b: u64)
    ensures
        a * b <= u128::MAX,
{
    assert(a * b <= u64::MAX * u64::MAX) by (nonlinear_arith)
        requires
            a <= u64::MAX,
            b <= u64::MAX,
    ;
}

/// A part of an amount is at most the whole.
pub(crate) proof fn lemma_part_at_most_whole(stroops: int, rate: int, scale: int)
    requires
        0 <= stroops,
        0 <= rate <= scale,
        scale > 0,
    ensures
        0 <= stroops * rate / scale <= stroops,
{
    assert(0 <= stroops * rate / scale <= stroops) by (nonlinear_arith)
        requires
            0 <= stroops,
            0 <= rate <= scale,
            scale > 0,
    ;
}

/// A string takes at least one byte for each character.
proof fn lemma_utf8_len(s: Seq<char>)
    ensures
        s.len() <= vstd::utf8::encode_utf8(s).len(),
    decreases s.len(),
{
    if s.len() > 0 {
        lemma_utf8_len(s.drop_first());
    }
}

/// A string has at most one place that is its only decimal point.
proof fn lemma_only_point_unique(s: Seq<char>, i: int, j: int)
    requires
        only_point_at(s, i),
        only_point_at(s, j),
    ensures
        i == j,
{
    if i < j {
        assert(s.take(j)[i] == '.');
    } else if j < i {
        assert(s.take(i)[j] == '.');
    }
}

impl Amount {
    /// The range of an amount.
    #[verifier::type_invariant]
    pub open spec fn valid(self) -> bool {
        1 <= self@ <= MAX_STROOPS
    }

    /// An amount of `stroops` stroops.
    pub fn new(stroops: u64) -> (res: Result<Self, AmountError>)
        ensures
            amount_of(stroops as int, res),
    {
        if stroops == 0 {
            return Err(AmountError::Zero);
        }
        if stroops > MAX_STROOPS {
            return Err(AmountError::Overflow);
        }
        Ok(Amount { stroops })
    }

    /// An amount of `xlm` whole XLM.
    pub fn from_xlm(xlm: u64) -> (res: Result<Self, AmountError>)
        ensures
            amount_of(xlm * STROOPS_PER_XLM, res),
    {
        match xlm.checked_mul(STROOPS_PER_XLM) {
            Some(stroops) => Self::new(stroops),
            None => Err(AmountError::Overflow),
        }
    }

    /// Reads an amount of XLM written in decimal, such as `1.2345678`.
    pub fn from_xlm_decimal(s: &str) -> (res: Result<Self, AmountError>)
        ensures
            decimal_text(s@, res),
    {
        let chars = characters(s);
        let mut i: usize = 0;
        while i < chars.len() && chars[i] != '.'
            invariant
                chars@ == s@,
                i <= chars@.len(),
                !s@.take(i as int).contains('.'),
            decreases chars@.len() - i,
        {
            proof {
                assert(s@.take(i + 1) == s@.take(i as int).push(s@[i as int]));
            }
            i = i + 1;
        }
        if i == chars.len() {
            proof {
                assert(s@.take(i as int) == s@);
            }
            return match parse_u64(s) {
                Some(whole) => Self::from_xlm(whole),
                None => Err(AmountError::NotRepresentable),
            };
        }
        let mut j: usize = i + 1;
        while j < chars.len() && chars[j] != '.'
            invariant
                chars@ == s@,
                i < j <= chars@.len(),
                !s@.subrange(i + 1, j as int).contains('.'),
            decreases chars@.len() - j,
        {
            proof {
                assert(s@.subrange(i + 1, j + 1) == s@.subrange(i + 1, j as int).push(
                    s@[j as int],
                ));
            }
            j = j + 1;
        }
        proof {
            assert(s@[i as int] == '.');
        }
        if j < chars.len() {
            proof {
                assert forall|k: int| !only_point_at(s@, k) by {
                    if only_point_at(s@, k) {
                        if k <= i {
                            assert(s@.skip(k + 1)[j - k - 1] == '.');
                        } else {
                            assert(s@.take(k)[i as int] == '.');
                        }
                    }
                }
            }
            return Err(AmountError::NotRepresentable);
        }
        proof {
            assert(s@.subrange(i + 1, j as int) == s@.skip(i + 1));
            assert(only_point_at(s@, i as int));
            lemma_only_point_unique(
                s@,
                i as int,
                choose|k: int| only_point_at(s@, k),
            );
        }
        let whole_text = s.substring_char(0, i);
        let frac_text = s.substring_char(i + 1, j);
        proof {
            assert(whole_text@ == s@.take(i as int));
            assert(frac_text@ == s@.skip(i + 1));
            lemma_utf8_len(frac_text@);
        }
        if frac_text.as_bytes().len() > STROOP_DECIMALS as usize {
            return Err(AmountError::LossOfPrecision);
        }
        let whole = if i == 0 {
            proof {
                reveal_strlit("0");
                assert("0"@ == seq!['0']);
            }
            parse_u64("0")
        } else {
            parse_u64(whole_text)
        };
        let whole = match whole {
            Some(whole) => whole,
            None => return Err(AmountError::NotRepresentable),
        };
        let mut padded = frac_text.to_owned();
        let mut width: usize = j - i - 1;
        while width < STROOP_DECIMALS as usize
            invariant
                frac_text@.len() <= width <= STROOP_DECIMALS,
                padded@ == frac_text@ + Seq::new(
                    (width - frac_text@.len()) as nat,
                    |k: int| '0',
                ),
            decreases STROOP_DECIMALS - width,
        {
            padded.push('0');
            width = width + 1;
        }
        let frac = match parse_u64(padded.as_str()) {
            Some(frac) => frac,
            None => return Err(AmountError::NotRepresentable),
        };
        match whole.checked_mul(STROOPS_PER_XLM) {
            Some(stroops) => match stroops.checked_add(frac) {
                Some(stroops) => Self::new(stroops),
                None => Err(AmountError::Overflow),
            },
            None => Err(AmountError::Overflow),
        }
    }

    /// An amount from a signed count of stroops.
    pub fn from_i64(value: i64) -> (res: Result<Self, AmountError>)
        ensures
            signed_amount_of(value as int, res),
    {
        if value <= 0 {
            if value == 0 {
                return Err(AmountError::Zero);
            }
            return Err(AmountError::NotRepresentable);
        }
        Self::new(value as u64)
    }

    /// The amount in stroops.
    pub fn stroops(&self) -> (stroops: u64)
        ensures
            stroops == self@,
            self.valid(),
    {
        proof {
            use_type_invariant(self);
        }
        self.stroops
    }

    /// The amount in stroops, as a signed integer.
    pub fn as_i64(&self) -> (value: i64)
        ensures
            value == self@,
            value > 0,
    {
        proof {
            use_type_invariant(self);
        }
        self.stroops as i64
    }

    /// The whole XLM in this amount.
    pub fn whole_xlm(&self) -> (xlm: u64)
        ensures
            xlm == self@ / STROOPS_PER_XLM as int,
    {
        self.stroops / STROOPS_PER_XLM
    }

    /// The stroops beyond the whole XLM.
    pub fn fractional_stroops(&self) -> (stroops: u64)
        ensures
            stroops == self@ % STROOPS_PER_XLM as int,
            stroops < STROOPS_PER_XLM,
    {
        self.stroops % STROOPS_PER_XLM
    }

    /// The amount in XLM, written with all its decimal places.
    pub fn to_xlm_string(&self) -> (text: String)
        ensures
            text@ == xlm_text(self@),
    {
        let mut text = decimal_string(self.whole_xlm());
        text.push('.');
        text.append(
            fixed_decimal_string(self.fractional_stroops(), STROOP_DECIMALS as usize).as_str(),
        );
        text
    }

    /// The amount in XLM with its unit, for people to read.
    pub fn to_string(&self) -> (text: String)
        ensures
            text@ == xlm_text(self@) + " XLM"@,
    {
        let mut text = self.to_xlm_string();
        text.append(" XLM");
        text
    }

    /// The sum of two amounts.
    pub fn checked_add(self, other: Amount) -> (res: Result<Amount, AmountError>)
        ensures
            amount_of(self@ + other@, res),
    {
        proof {
            use_type_invariant(&self);
            use_type_invariant(&other);
        }
        match self.stroops.checked_add(other.stroops) {
            Some(stroops) => Amount::new(stroops),
            None => Err(AmountError::ArithmeticOverflow),
        }
    }

    /// The difference of two amounts.
    pub fn checked_sub(self, other: Amount) -> (res: Result<Amount, AmountError>)
        ensures
            difference_of(self@, other@, res),
    {
        match self.stroops.checked_sub(other.stroops) {
            Some(stroops) => Amount::new(stroops),
            None => Err(AmountError::NegativeResult),
        }
    }

    /// This amount `scalar` times.
    pub fn checked_mul_u64(self, scalar: u64) -> (res: Result<Amount, AmountError>)
        ensures
            self@ * scalar > u64::MAX ==> res == Err::<Amount, AmountError>(
                AmountError::ArithmeticOverflow,
            ),
            self@ * scalar <= u64::MAX ==> amount_of(self@ * scalar, res),
    {
        match self.stroops.checked_mul(scalar) {
            Some(stroops) => Amount::new(stroops),
            None => Err(AmountError::ArithmeticOverflow),
        }
    }

    /// The product of two amounts, in 128 bits, which always hold it.
    pub fn checked_mul_amount(self, other: Amount) -> (res: Result<u128, AmountError>)
        ensures
            res matches Ok(product) && product == self@ * other@,
    {
        proof {
            lemma_product_fits(self.stroops, other.stroops);
        }
        Ok((self.stroops as u128) * (other.stroops as u128))
    }

    /// This amount divided by `divisor`, rounded down.
    pub fn checked_div_u64(self, divisor: u64) -> (res: Result<u64, AmountError>)
        ensures
            divisor == 0 ==> res == Err::<u64, AmountError>(AmountError::DivisionByZero),
            divisor > 0 ==> (res matches Ok(quotient) && quotient == self@ / divisor as int),
    {
        if divisor == 0 {
            return Err(AmountError::DivisionByZero);
        }
        Ok(self.stroops / divisor)
    }

    /// A fee of `bps` basis points of this amount, rounded down to a stroop.
    pub fn basis_point_fee(self, bps: u64) -> (res: Result<Amount, AmountError>)
        ensures
            fee_of(self@, bps, 10_000, res),
    {
        if bps == 0 {
            return Err(AmountError::Zero);
        }
        if bps > 10_000 {
            return Err(AmountError::Overflow);
        }
        proof {
            use_type_invariant(&self);
            lemma_product_fits(self.stroops, bps);
            lemma_part_at_most_whole(self@, bps as int, 10_000);
        }
        let product = (self.stroops as u128) * (bps as u128);
        let fee = product / 10_000;
        if fee > MAX_STROOPS as u128 {
            return Err(AmountError::Overflow);
        }
        Amount::new(fee as u64)
    }

    /// A fee of `percent` per cent of this amount, rounded down to a stroop.
    pub fn percentage_fee(self, percent: u64) -> (res: Result<Amount, AmountError>)
        ensures
            fee_of(self@, percent, 100, res),
    {
        if percent == 0 {
            return Err(AmountError::Zero);
        }
        if percent > 100 {
            return Err(AmountError::Overflow);
        }
        proof {
            use_type_invariant(&self);
            lemma_product_fits(self.stroops, percent);
            lemma_part_at_most_whole(self@, percent as int, 100);
        }
        let product = (self.stroops as u128) * (percent as u128);
        let fee = product / 100;
        if fee > MAX_STROOPS as u128 {
            return Err(AmountError::Overflow);
        }
        Amount::new(fee as u64)
    }

    /// The balance after adding `delta` to `current`.
    pub fn accumulate_balance(current: Amount, delta: Amount) -> (res: Result<Amount, AmountError>)
        ensures
            amount_of(current@ + delta@, res),
    {
        current.checked_add(delta)
    }

    /// The balance after taking `delta` from `current`.
    pub fn deduct_balance(current: Amount, delta: Amount) -> (res: Result<Amount, AmountError>)
        ensures
            difference_of(current@, delta@, res),
    {
        current.checked_sub(delta)
    }
}

/// The result that [`amount_of`] describes, as a value.
pub open spec fn amount_result(stroops: int) -> Result<Amount, AmountError> {
    match amount_error(stroops) {
        Some(e) => Err(e),
        None => Ok(Amount::of(stroops)),
    }
}

impl Amount {
    /// The amount of `stroops` stroops.
    pub closed spec fn of(stroops: int) -> Amount {
        Amount { stroops: stroops as u64 }
    }
}

impl vstd::std_specs::ops::AddSpecImpl for Amount {
    open spec fn obeys_add_spec() -> bool {
        true
    }

    open spec fn add_req(self, rhs: Amount) -> bool {
        true
    }

    open spec fn add_spec(self, rhs: Amount) -> Result<Amount, AmountError> {
        amount_result(self@ + rhs@)
    }
}

impl std::ops::Add for Amount {
    type Output = Result<Amount, AmountError>;

    fn add(self, rhs: Amount) -> (res: Result<Amount, AmountError>)
        ensures
            amount_of(self@ + rhs@, res),
    {
        self.checked_add(rhs)
    }
}

impl vstd::std_specs::ops::SubSpecImpl for Amount {
    open spec fn obeys_sub_spec() -> bool {
        true
    }

    open spec fn sub_req(self, rhs: Amount) -> bool {
        true
    }

    open spec fn sub_spec(self, rhs: Amount) -> Result<Amount, AmountError> {
        if self@ < rhs@ {
            Err(AmountError::NegativeResult)
        } else {
            amount_result(self@ - rhs@)
        }
    }
}

impl std::ops::Sub for Amount {
    type Output = Result<Amount, AmountError>;

    fn sub(self, rhs: Amount) -> (res: Result<Amount, AmountError>)
        ensures
            difference_of(self@, rhs@, res),
    {
        self.checked_sub(rhs)
    }
}

/// Two amounts of the same number of stroops are the same amount.
pub proof fn law_amount_is_its_stroops(a: Amount, b: Amount)
    ensures
        a == b <==> a@ == b@,
{
}

/// The amount that `of` names has the stroops that it was asked for.
pub proof fn law_amount_of_stroops(stroops: int)
    requires
        1 <= stroops <= MAX_STROOPS,
    ensures
        Amount::of(stroops)@ == stroops,
        Amount::of(stroops).valid(),
        amount_of(stroops, Ok(Amount::of(stroops))),
{
}

/// Writing an amount in XLM and reading the text back gives the amount.
pub proof fn law_decimal_roundtrip(amount: Amount, res: Result<Amount, AmountError>)
    requires
        amount.valid(),
        decimal_text(xlm_text(amount@), res),
    ensures
        res == Ok::<Amount, AmountError>(amount),
{
    let units = (amount@ / STROOPS_PER_XLM as int) as nat;
    let parts = (amount@ % STROOPS_PER_XLM as int) as nat;
    let whole = crate::decimal::digits(units);
    let frac = crate::decimal::fixed_digits(parts, STROOP_DECIMALS as nat);
    let s = xlm_text(amount@);
    crate::decimal::law_digits_roundtrip(units);
    assert(crate::decimal::pow10(7) == 10_000_000) by {
        reveal_with_fuel(crate::decimal::pow10, 8);
    }
    crate::decimal::law_fixed_digits_roundtrip(parts, STROOP_DECIMALS as nat);
    let p = whole.len() as int;
    assert(s.take(p) == whole);
    assert(s.skip(p + 1) == frac);
    assert(s[p] == '.');
    assert(s.contains('.'));
    assert(!whole.contains('.')) by {
        if whole.contains('.') {
            let k = choose|k: int| 0 <= k < whole.len() && whole[k] == '.';
            assert(crate::decimal::is_digit(whole[k]));
        }
    }
    assert(!frac.contains('.')) by {
        if frac.contains('.') {
            let k = choose|k: int| 0 <= k < frac.len() && frac[k] == '.';
            assert(crate::decimal::is_digit(frac[k]));
        }
    }
    assert(only_point_at(s, p));
    lemma_only_point_unique(s, p, choose|i: int| only_point_at(s, i));
    assert(vstd::utf8::is_ascii_chars(frac)) by {
        assert forall|k: int| 0 <= k < frac.len() implies '\0' <= #[trigger] frac[k]
            <= '\u{7f}' by {
            assert(crate::decimal::is_digit(frac[k]));
        }
    }
    vstd::utf8::is_ascii_chars_encode_utf8(frac);
    assert(padded_fraction(frac) == frac);
    assert(crate::decimal::is_digit(whole[0]));
    assert(crate::decimal::is_digit(frac[0]));
    assert(crate::decimal::unsigned_part(whole) == whole);
    assert(crate::decimal::unsigned_part(frac) == frac);
}

/// Adding and then deducting the same delta leaves a balance as it was.
pub proof fn law_accumulate_then_deduct(
    current: Amount,
    delta: Amount,
    sum: Amount,
    back: Result<Amount, AmountError>,
)
    requires
        current.valid(),
        delta.valid(),
        amount_of(current@ + delta@, Ok(sum)),
        difference_of(sum@, delta@, back),
    ensures
        back == Ok::<Amount, AmountError>(current),
{
}

/// An amount survives the way through its signed integer.
pub proof fn law_signed_roundtrip(amount: Amount, res: Result<Amount, AmountError>)
    requires
        amount.valid(),
        signed_amount_of(amount@, res),
    ensures
        res == Ok::<Amount, AmountError>(amount),
{
}

/// Whole XLM and the stroops beyond them make up the amount.
pub proof fn law_whole_and_fraction(amount: Amount)
    requires
        amount.valid(),
    ensures
        (amount@ / STROOPS_PER_XLM as int) * STROOPS_PER_XLM + amount@ % STROOPS_PER_XLM as int
            == amount@,
{
}

/// A fee is never more than the amount that it is taken from.
pub proof fn law_fee_at_most_principal(principal: Amount, rate: u64, scale: int, fee: Amount)
    requires
        principal.valid(),
        scale > 0,
        fee_of(principal@, rate, scale, Ok(fee)),
    ensures
        fee@ <= principal@,
{
    lemma_part_at_most_whole(principal@, rate as int, scale);
}

/// The full rate takes the whole amount.
pub proof fn law_full_fee_is_principal(
    principal: Amount,
    rate: u64,
    res: Result<Amount, AmountError>,
)
    requires
        principal.valid(),
        rate > 0,
        fee_of(principal@, rate, rate as int, res),
    ensures
        res == Ok::<Amount, AmountError>(principal),
{
    assert(principal@ * rate / rate as int == principal@) by (nonlinear_arith)
        requires
            rate > 0,
    ;
}

/// There is an amount exactly for one stroop up to the largest signed 64-bit integer,
/// and it has that many stroops.
pub proof fn law_amount_range(stroops: int, res: Result<Amount, AmountError>)
    requires
        stroops >= 0,
        amount_of(stroops, res),
    ensures
        res is Ok <==> 0 < stroops <= 0x7fff_ffff_ffff_ffff,
        res matches Ok(amount) ==> amount@ == stroops,
        stroops == 0 ==> res == Err::<Amount, AmountError>(AmountError::Zero),
        stroops > 0x7fff_ffff_ffff_ffff ==> res == Err::<Amount, AmountError>(
            AmountError::Overflow,
        ),
{
}

/// A signed number of stroops gives the amount of that many, and none where it is not
/// positive.
pub proof fn law_signed_amount(value: i64, res: Result<Amount, AmountError>)
    requires
        signed_amount_of(value as int, res),
    ensures
        res is Ok <==> value > 0,
        res matches Ok(amount) ==> amount@ == value,
        value == 0 ==> res == Err::<Amount, AmountError>(AmountError::Zero),
        value < 0 ==> res == Err::<Amount, AmountError>(AmountError::NotRepresentable),
{
}

/// What is left after a subtraction, together with what was taken, is what was there;
/// nothing less than one stroop may be left.
pub proof fn law_difference(a: Amount, b: Amount, res: Result<Amount, AmountError>)
    requires
        a.valid(),
        b.valid(),
        difference_of(a@, b@, res),
    ensures
        res is Ok <==> a@ > b@,
        res matches Ok(left) ==> left@ + b@ == a@,
        a@ == b@ ==> res == Err::<Amount, AmountError>(AmountError::Zero),
        a@ < b@ ==> res == Err::<Amount, AmountError>(AmountError::NegativeResult),
{
}

/// A fee is the largest whole number of stroops that is no more than its share of the
/// amount; there is none where the rate is out of range or the share is below a stroop.
pub proof fn law_fee_is_the_share(
    principal: Amount,
    rate: u64,
    scale: int,
    res: Result<Amount, AmountError>,
)
    requires
        principal.valid(),
        scale > 0,
        fee_of(principal@, rate, scale, res),
    ensures
        res is Ok <==> 0 < rate <= scale && scale <= principal@ * rate,
        res matches Ok(fee) ==> fee@ * scale <= principal@ * rate < (fee@ + 1) * scale,
        rate == 0 ==> res == Err::<Amount, AmountError>(AmountError::Zero),
        rate > scale ==> res == Err::<Amount, AmountError>(AmountError::Overflow),
        0 < rate <= scale && principal@ * rate < scale ==> res == Err::<Amount, AmountError>(
            AmountError::Zero,
        ),
{
    let product = principal@ * rate;
    let share = product / scale;
    if rate <= scale {
        lemma_part_at_most_whole(principal@, rate as int, scale);
    }
    assert(share * scale <= product < (share + 1) * scale) by (nonlinear_arith)
        requires
            scale > 0,
            share == product / scale,
    ;
    assert(share >= 1 <==> product >= scale) by (nonlinear_arith)
        requires
            scale > 0,
            share * scale <= product < (share + 1) * scale,
    ;
}

/// Text made of digits, a decimal point and digits has one point.
proof fn lemma_pointed(whole: Seq<char>, frac: Seq<char>)
    requires
        crate::decimal::all_digits(whole),
        crate::decimal::all_digits(frac),
    ensures
        ({
            let s = whole.push('.') + frac;
            let i = choose|i: int| only_point_at(s, i);
            &&& s.contains('.')
            &&& exists|i: int| only_point_at(s, i)
            &&& s.take(i) == whole
            &&& s.skip(i + 1) == frac
            &&& vstd::utf8::encode_utf8(frac).len() == frac.len()
        }),
{
    let s = whole.push('.') + frac;
    let p = whole.len() as int;
    assert(s.take(p) == whole);
    assert(s.skip(p + 1) == frac);
    assert(s[p] == '.');
    assert(!whole.contains('.')) by {
        if whole.contains('.') {
            let k = choose|k: int| 0 <= k < whole.len() && whole[k] == '.';
            assert(crate::decimal::is_digit(whole[k]));
        }
    }
    assert(!frac.contains('.')) by {
        if frac.contains('.') {
            let k = choose|k: int| 0 <= k < frac.len() && frac[k] == '.';
            assert(crate::decimal::is_digit(frac[k]));
        }
    }
    assert(only_point_at(s, p));
    lemma_only_point_unique(s, p, choose|i: int| only_point_at(s, i));
    assert(vstd::utf8::is_ascii_chars(frac)) by {
        assert forall|k: int| 0 <= k < frac.len() implies '\0' <= #[trigger] frac[k]
            <= '\u{7f}' by {
            assert(crate::decimal::is_digit(frac[k]));
        }
    }
    vstd::utf8::is_ascii_chars_encode_utf8(frac);
}

/// Digits, a decimal point and up to seven digits are read as the whole number of XLM
/// and that many tenths, hundredths and so on of one XLM.
pub proof fn law_decimal_is_positional(
    whole: Seq<char>,
    frac: Seq<char>,
    res: Result<Amount, AmountError>,
)
    requires
        forall|i: int| 0 <= i < whole.len() ==> '0' <= #[trigger] whole[i] <= '9',
        forall|i: int| 0 <= i < frac.len() ==> '0' <= #[trigger] frac[i] <= '9',
        frac.len() <= 7,
        crate::decimal::value(whole) <= u64::MAX,
        decimal_text(whole.push('.') + frac, res),
    ensures
        ({
            let stroops = crate::decimal::value(whole) * 10_000_000 + crate::decimal::value(frac)
                * crate::decimal::pow10((7 - frac.len()) as nat);
            &&& res is Ok <==> 0 < stroops <= 0x7fff_ffff_ffff_ffff
            &&& res matches Ok(amount) ==> amount@ == stroops
            &&& stroops == 0 ==> res == Err::<Amount, AmountError>(AmountError::Zero)
            &&& stroops > 0x7fff_ffff_ffff_ffff ==> res == Err::<Amount, AmountError>(
                AmountError::Overflow,
            )
        }),
{
    assert forall|i: int| 0 <= i < whole.len() implies crate::decimal::is_digit(
        #[trigger] whole[i],
    ) by {}
    assert forall|i: int| 0 <= i < frac.len() implies crate::decimal::is_digit(
        #[trigger] frac[i],
    ) by {}
    lemma_pointed(whole, frac);
    let padded = padded_fraction(frac);
    let units_text = if whole.len() == 0 {
        seq!['0']
    } else {
        whole
    };
    crate::decimal::lemma_value_zeros(frac, (7 - frac.len()) as nat);
    assert forall|i: int| 0 <= i < padded.len() implies crate::decimal::is_digit(
        #[trigger] padded[i],
    ) by {
        if i < frac.len() {
            assert(padded[i] == frac[i]);
        }
    }
    crate::decimal::lemma_value_bound(padded);
    assert(crate::decimal::pow10(7) == 10_000_000) by {
        reveal_with_fuel(crate::decimal::pow10, 8);
    }
    crate::decimal::law_digits_are_read(padded);
    crate::decimal::law_digits_are_read(units_text);
    if whole.len() == 0 {
        crate::decimal::law_value_is_positional(Seq::empty(), '0');
        assert(Seq::<char>::empty().push('0') == units_text);
        assert(whole == Seq::<char>::empty());
    }
}

/// A zero behind a fraction that has room for it does not change the amount.
pub proof fn law_trailing_zero_is_idle(
    whole: Seq<char>,
    frac: Seq<char>,
    res: Result<Amount, AmountError>,
    longer: Result<Amount, AmountError>,
)
    requires
        forall|i: int| 0 <= i < whole.len() ==> '0' <= #[trigger] whole[i] <= '9',
        forall|i: int| 0 <= i < frac.len() ==> '0' <= #[trigger] frac[i] <= '9',
        frac.len() < 7,
        crate::decimal::value(whole) <= u64::MAX,
        decimal_text(whole.push('.') + frac, res),
        decimal_text(whole.push('.') + frac.push('0'), longer),
    ensures
        longer == res,
{
    law_decimal_is_positional(whole, frac, res);
    law_decimal_is_positional(whole, frac.push('0'), longer);
    crate::decimal::law_value_is_positional(frac, '0');
    let room = (6 - frac.len()) as nat;
    crate::decimal::law_pow10_is_repeated_product(room);
    let v = crate::decimal::value(frac);
    let p = crate::decimal::pow10(room);
    assert((10 * v) * p == v * (10 * p)) by (nonlinear_arith);
}

/// Digits without a decimal point are read as whole XLM.
pub proof fn law_whole_decimal(whole: Seq<char>, res: Result<Amount, AmountError>)
    requires
        whole.len() > 0,
        forall|i: int| 0 <= i < whole.len() ==> '0' <= #[trigger] whole[i] <= '9',
        crate::decimal::value(whole) <= u64::MAX,
        decimal_text(whole, res),
    ensures
        ({
            let stroops = crate::decimal::value(whole) * 10_000_000;
            &&& res is Ok <==> 0 < stroops <= 0x7fff_ffff_ffff_ffff
            &&& res matches Ok(amount) ==> amount@ == stroops
        }),
{
    assert(!whole.contains('.')) by {
        if whole.contains('.') {
            let k = choose|k: int| 0 <= k < whole.len() && whole[k] == '.';
            assert('0' <= whole[k]);
        }
    }
    crate::decimal::law_digits_are_read(whole);
}

/// More than seven decimal places, or a second decimal point, are refused.
pub proof fn law_decimal_refusals(
    whole: Seq<char>,
    frac: Seq<char>,
    s: Seq<char>,
    i: int,
    j: int,
    too_fine: Result<Amount, AmountError>,
    two_points: Result<Amount, AmountError>,
)
    requires
        forall|k: int| 0 <= k < whole.len() ==> '0' <= #[trigger] whole[k] <= '9',
        forall|k: int| 0 <= k < frac.len() ==> '0' <= #[trigger] frac[k] <= '9',
        frac.len() > 7,
        decimal_text(whole.push('.') + frac, too_fine),
        0 <= i < j < s.len(),
        s[i] == '.',
        s[j] == '.',
        decimal_text(s, two_points),
    ensures
        too_fine == Err::<Amount, AmountError>(AmountError::LossOfPrecision),
        two_points == Err::<Amount, AmountError>(AmountError::NotRepresentable),
{
    assert forall|k: int| 0 <= k < whole.len() implies crate::decimal::is_digit(
        #[trigger] whole[k],
    ) by {}
    assert forall|k: int| 0 <= k < frac.len() implies crate::decimal::is_digit(
        #[trigger] frac[k],
    ) by {}
    lemma_pointed(whole, frac);
    assert(s.contains('.'));
    assert forall|k: int| !only_point_at(s, k) by {
        if only_point_at(s, k) {
            if k <= i {
                assert(s.skip(k + 1)[j - k - 1] == '.');
            } else {
                assert(s.take(k)[i] == '.');
            }
        }
    }
}

/// An amount in XLM is written as digits, a decimal point and seven digits, which
/// together stand for the amount; no zero is put in front needlessly.
pub proof fn law_xlm_text(stroops: int)
    requires
        stroops >= 0,
    ensures
        ({
            let s = xlm_text(stroops);
            let p = s.len() - 8;
            &&& p >= 1
            &&& s[p] == '.'
            &&& forall|i: int| 0 <= i < s.len() && i != p ==> '0' <= #[trigger] s[i] <= '9'
            &&& crate::decimal::value(s.take(p)) * 10_000_000 + crate::decimal::value(
                s.skip(p + 1),
            ) == stroops
            &&& s[0] == '0' ==> p == 1
        }),
{
    let units = (stroops / 10_000_000) as nat;
    let parts = (stroops % 10_000_000) as nat;
    let whole = crate::decimal::digits(units);
    let frac = crate::decimal::fixed_digits(parts, 7);
    let s = xlm_text(stroops);
    crate::decimal::law_digits_roundtrip(units);
    crate::decimal::law_digits_have_no_leading_zero(units);
    assert(crate::decimal::pow10(7) == 10_000_000) by {
        reveal_with_fuel(crate::decimal::pow10, 8);
    }
    crate::decimal::law_fixed_digits_roundtrip(parts, 7);
    let p = whole.len() as int;
    assert(s.take(p) == whole);
    assert(s.skip(p + 1) == frac);
    assert forall|i: int| 0 <= i < s.len() && i != p implies '0' <= #[trigger] s[i] <= '9' by {
        if i < p {
            assert(s[i] == whole[i]);
        } else {
            assert(s[i] == frac[i - p - 1]);
            assert(crate::decimal::is_digit(frac[i - p - 1]));
        }
    }
}

/// A number of whole XLM that 64 bits cannot hold is refused.
pub proof fn law_decimal_too_large(
    whole: Seq<char>,
    frac: Seq<char>,
    res: Result<Amount, AmountError>,
    pointed: Result<Amount, AmountError>,
)
    requires
        forall|i: int| 0 <= i < whole.len() ==> '0' <= #[trigger] whole[i] <= '9',
        forall|i: int| 0 <= i < frac.len() ==> '0' <= #[trigger] frac[i] <= '9',
        frac.len() <= 7,
        crate::decimal::value(whole) > u64::MAX,
        decimal_text(whole, res),
        decimal_text(whole.push('.') + frac, pointed),
    ensures
        res == Err::<Amount, AmountError>(AmountError::NotRepresentable),
        pointed == Err::<Amount, AmountError>(AmountError::NotRepresentable),
{
    assert forall|i: int| 0 <= i < whole.len() implies crate::decimal::is_digit(
        #[trigger] whole[i],
    ) by {}
    assert forall|i: int| 0 <= i < frac.len() implies crate::decimal::is_digit(
        #[trigger] frac[i],
    ) by {}
    assert(!whole.contains('.')) by {
        if whole.contains('.') {
            let k = choose|k: int| 0 <= k < whole.len() && whole[k] == '.';
            assert('0' <= whole[k]);
        }
    }
    lemma_pointed(whole, frac);
    crate::decimal::law_digits_are_read(whole);
}

/// Text is refused that is empty, that has another character in it than digits, points
/// and plus signs, or that has a plus sign anywhere but in front of a number.
pub proof fn law_decimal_foreign_text(s: Seq<char>, i: int, res: Result<Amount, AmountError>)
    requires
        decimal_text(s, res),
        s.len() == 0 || (0 <= i < s.len() && !('0' <= s[i] <= '9') && s[i] != '.' && (s[i] != '+'
            || (i > 0 && s[i - 1] != '.'))),
    ensures
        res == Err::<Amount, AmountError>(AmountError::NotRepresentable) || res == Err::<
            Amount,
            AmountError,
        >(AmountError::LossOfPrecision),
        !s.contains('.') ==> res == Err::<Amount, AmountError>(AmountError::NotRepresentable),
{
    if s.len() == 0 {
        assert(s == Seq::<char>::empty());
        assert(!s.contains('.'));
        crate::decimal::law_other_text_is_not_read(s, 0);
    } else if !s.contains('.') {
        crate::decimal::law_other_text_is_not_read(s, i);
    } else if exists|p: int| only_point_at(s, p) {
        let p = choose|p: int| only_point_at(s, p);
        let whole = s.take(p);
        let frac = s.skip(p + 1);
        if i < p {
            assert(whole[i] == s[i]);
            crate::decimal::law_other_text_is_not_read(whole, i);
        } else {
            assert(i != p);
            assert(frac[i - p - 1] == s[i]);
            let padded = padded_fraction(frac);
            lemma_utf8_len(frac);
            if vstd::utf8::encode_utf8(frac).len() <= STROOP_DECIMALS {
                assert(padded[i - p - 1] == s[i]);
                crate::decimal::law_other_text_is_not_read(padded, i - p - 1);
            }
        }
    }
}

/// A plus sign in front of whole XLM does not change the amount.
pub proof fn law_plus_sign_is_idle(
    whole: Seq<char>,
    res: Result<Amount, AmountError>,
    signed: Result<Amount, AmountError>,
)
    requires
        whole.len() > 0,
        forall|i: int| 0 <= i < whole.len() ==> '0' <= #[trigger] whole[i] <= '9',
        decimal_text(whole, res),
        decimal_text(seq!['+'] + whole, signed),
    ensures
        signed == res,
{
    let plus = seq!['+'] + whole;
    assert(!whole.contains('.')) by {
        if whole.contains('.') {
            let k = choose|k: int| 0 <= k < whole.len() && whole[k] == '.';
            assert('0' <= whole[k]);
        }
    }
    assert(!plus.contains('.')) by {
        if plus.contains('.') {
            let k = choose|k: int| 0 <= k < plus.len() && plus[k] == '.';
            assert(k > 0 ==> plus[k] == whole[k - 1]);
            assert('0' <= whole[k - 1]);
        }
    }
    crate::decimal::law_digits_are_read(whole);
}

} // verus!
