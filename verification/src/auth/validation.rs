//! Checks on what authentication requests carry.  None of them changes anything.

use vstd::prelude::*;

use crate::amount::{Amount, AmountError};
use crate::auth::errors::AuthError;
use crate::decimal::decimal_string;
use crate::text::joined;

verus! {

/// Longest subject, in bytes.
pub const MAX_SUBJECT_LEN: usize = 256;

/// Shortest password, in bytes.
pub const MIN_PASSWORD_LEN: usize = 8;

/// Longest password, in bytes.
pub const MAX_PASSWORD_LEN: usize = 72;

/// What validating an amount of `stroops` stroops gives, where `error` says why
/// there is no such amount and `context` says what it was for.
pub open spec fn validated(
    error: Option<AmountError>,
    stroops: int,
    context: Seq<char>,
    res: Result<Amount, AuthError>,
) -> bool {
    match error {
        Some(e) => res matches Err(AuthError::AmountValidationFailed(msg)) && msg@ == context
            + e.message(),
        None => res matches Ok(amount) && amount@ == stroops && amount.valid(),
    }
}

/// Whether `res` reports that a field is malformed, in the words of `msg`.
pub open spec fn malformed<T>(res: Result<T, AuthError>, msg: Seq<char>) -> bool {
    res matches Err(AuthError::ValidationError(text)) && text@ == msg
}

/// Puts an amount error into the words of an authentication error.
fn amount_failure(context: &str, e: AmountError) -> (failure: AuthError)
    ensures
        failure matches AuthError::AmountValidationFailed(msg) && msg@ == context@ + e.message(),
{
    AuthError::AmountValidationFailed(joined(context, e.to_string().as_str()))
}

/// Validates an amount of stroops.
pub fn validate_auth_amount(stroops: u64) -> (res: Result<Amount, AuthError>)
    ensures
        validated(crate::amount::amount_error(stroops as int), stroops as int, Seq::empty(), res),
{
    match Amount::new(stroops) {
        Ok(amount) => Ok(amount),
        Err(e) => {
            let msg = e.to_string();
            assert(Seq::empty() + e.message() =~= e.message());
            Err(AuthError::AmountValidationFailed(msg))
        },
    }
}

/// Validates a balance change: the balance after a `credit` or a `debit`.
pub fn validate_balance_delta(current: Amount, delta: Amount, operation: &str) -> (res: Result<
    Amount,
    AuthError,
>)
    ensures
        operation@ == "credit"@ ==> validated(
            crate::amount::amount_error(current@ + delta@),
            current@ + delta@,
            "credit: "@,
            res,
        ),
        operation@ == "debit"@ ==> validated(
            crate::amount::difference_error(current@, delta@),
            current@ - delta@,
            "debit: "@,
            res,
        ),
        operation@ != "credit"@ && operation@ != "debit"@ ==> malformed(
            res,
            "unknown operation: "@ + operation@,
        ),
{
    proof {
        reveal_strlit("credit");
        reveal_strlit("debit");
        assert("credit"@.len() != "debit"@.len());
    }
    let requested = operation.to_owned();
    if requested == "credit".to_owned() {
        match Amount::accumulate_balance(current, delta) {
            Ok(balance) => Ok(balance),
            Err(e) => Err(amount_failure("credit: ", e)),
        }
    } else if requested == "debit".to_owned() {
        match Amount::deduct_balance(current, delta) {
            Ok(balance) => Ok(balance),
            Err(e) => Err(amount_failure("debit: ", e)),
        }
    } else {
        Err(AuthError::ValidationError(joined("unknown operation: ", operation)))
    }
}

/// The fee of `bps` basis points on `principal` stroops, rounded down.
pub open spec fn bps_fee(principal: int, bps: u64) -> int {
    principal * bps / 10_000
}

/// What validating a fee of `bps` basis points gives, where `max_fee_ratio` basis
/// points are the most that it may come to.
pub open spec fn fee_validated(
    principal: int,
    bps: u64,
    max_fee_ratio: u64,
    res: Result<Amount, AuthError>,
) -> bool {
    let fee_error = crate::amount::fee_error(principal, bps, 10_000);
    let max_error = crate::amount::fee_error(principal, max_fee_ratio, 10_000);
    let fee = bps_fee(principal, bps);
    if fee_error is Some {
        validated(fee_error, fee, "fee calc: "@, res)
    } else if max_error is Some {
        validated(max_error, fee, "fee calc: "@, res)
    } else if fee > bps_fee(principal, max_fee_ratio) {
        res matches Err(AuthError::AmountValidationFailed(msg)) && msg@ == "fee "@
            + crate::decimal::digits(fee as nat) + " exceeds max ratio "@ + crate::decimal::digits(
            max_fee_ratio as nat,
        ) + " bps"@
    } else {
        validated(None, fee, Seq::empty(), res)
    }
}

/// Validates that a fee of `bps` basis points is at most `max_fee_ratio` basis
/// points of the principal.
pub fn validate_fee_amount(principal: Amount, bps: u64, max_fee_ratio: u64) -> (res: Result<
    Amount,
    AuthError,
>)
    ensures
        fee_validated(principal@, bps, max_fee_ratio, res),
{
    let fee = match principal.basis_point_fee(bps) {
        Ok(fee) => fee,
        Err(e) => return Err(amount_failure("fee calc: ", e)),
    };
    let max_fee = match principal.basis_point_fee(max_fee_ratio) {
        Ok(max_fee) => max_fee,
        Err(e) => return Err(amount_failure("fee calc: ", e)),
    };
    if fee.stroops() > max_fee.stroops() {
        let mut msg = "fee ".to_owned();
        msg.append(decimal_string(fee.stroops()).as_str());
        msg.append(" exceeds max ratio ");
        msg.append(decimal_string(max_fee_ratio).as_str());
        msg.append(" bps");
        return Err(AuthError::AmountValidationFailed(msg));
    }
    Ok(fee)
}

/// Validates that a session id is positive.
pub fn validate_session_id(id: u64) -> (res: Result<u64, AuthError>)
    ensures
        id == 0 ==> malformed(res, "session id must be positive"@),
        id > 0 ==> res == Ok::<u64, AuthError>(id),
{
    if id == 0 {
        return Err(AuthError::ValidationError("session id must be positive".to_owned()));
    }
    Ok(id)
}

/// Validates that a subject is not empty and not too long.
pub fn validate_subject(subject: &str) -> (res: Result<(), AuthError>)
    ensures
        ({
            let len = vstd::utf8::encode_utf8(subject@).len();
            if subject@.len() == 0 {
                malformed(res, "subject must not be empty"@)
            } else if len > MAX_SUBJECT_LEN {
                malformed(res, "subject exceeds maximum length of 256"@)
            } else {
                res == Ok::<(), AuthError>(())
            }
        }),
{
    if subject.is_empty() {
        return Err(AuthError::ValidationError("subject must not be empty".to_owned()));
    }
    if subject.as_bytes().len() > MAX_SUBJECT_LEN {
        return Err(
            AuthError::ValidationError("subject exceeds maximum length of 256".to_owned()),
        );
    }
    Ok(())
}

/// Validates the length of a password, in bytes.
pub fn validate_password(password: &str) -> (res: Result<(), AuthError>)
    ensures
        ({
            let len = vstd::utf8::encode_utf8(password@).len();
            if len < MIN_PASSWORD_LEN {
                malformed(res, "password must be at least 8 characters"@)
            } else if len > MAX_PASSWORD_LEN {
                malformed(res, "password must not exceed 72 characters"@)
            } else {
                res == Ok::<(), AuthError>(())
            }
        }),
{
    let len = password.as_bytes().len();
    if len < MIN_PASSWORD_LEN {
        return Err(
            AuthError::ValidationError("password must be at least 8 characters".to_owned()),
        );
    }
    if len > MAX_PASSWORD_LEN {
        return Err(
            AuthError::ValidationError("password must not exceed 72 characters".to_owned()),
        );
    }
    Ok(())
}

/// Validates that a recovery token has not expired at `now`.
pub fn validate_recovery_token_expiry(expires_at: u64, now: u64) -> (res: Result<(), AuthError>)
    ensures
        expires_at <= now ==> res == Err::<(), AuthError>(AuthError::TokenExpired),
        expires_at > now ==> res == Ok::<(), AuthError>(()),
{
    if expires_at <= now {
        return Err(AuthError::TokenExpired);
    }
    Ok(())
}

/// What validating a claimed balance gives: where a delta is expected, the claim
/// is the previous balance and the delta together.
pub open spec fn balance_consistent(
    previous: int,
    claimed: int,
    expected_delta: Option<Amount>,
    res: Result<(), AuthError>,
) -> bool {
    match expected_delta {
        Some(delta) => match crate::amount::amount_error(previous + delta@) {
            Some(e) => res matches Err(AuthError::AmountValidationFailed(msg)) && msg@
                == "recovery balance: "@ + e.message(),
            None => if previous + delta@ == claimed {
                res == Ok::<(), AuthError>(())
            } else {
                res matches Err(AuthError::AmountValidationFailed(msg)) && msg@
                    == "recovery balance does not match expected value"@
            },
        },
        None => res == Ok::<(), AuthError>(()),
    }
}

/// Validates that a claimed balance agrees with the previous one and the delta
/// between them.  Without a delta any claim will do: an [`Amount`] is in range.
pub fn validate_recovery_balance_consistency(
    previous: Amount,
    claimed: Amount,
    expected_delta: Option<Amount>,
) -> (res: Result<(), AuthError>)
    ensures
        balance_consistent(previous@, claimed@, expected_delta, res),
{
    if let Some(delta) = expected_delta {
        let recomputed = match Amount::accumulate_balance(previous, delta) {
            Ok(recomputed) => recomputed,
            Err(e) => return Err(amount_failure("recovery balance: ", e)),
        };
        if recomputed.stroops() != claimed.stroops() {
            return Err(
                AuthError::AmountValidationFailed(
                    "recovery balance does not match expected value".to_owned(),
                ),
            );
        }
    }
    Ok(())
}

/// A fee that passes is at most the share that it may come to, and at most the
/// principal.
pub proof fn law_validated_fee_is_bounded(
    principal: Amount,
    bps: u64,
    max_fee_ratio: u64,
    fee: Amount,
)
    requires
        principal.valid(),
        fee_validated(principal@, bps, max_fee_ratio, Ok(fee)),
    ensures
        fee@ == bps_fee(principal@, bps),
        fee@ <= bps_fee(principal@, max_fee_ratio),
        fee@ <= principal@,
{
    crate::amount::law_fee_at_most_principal(principal, bps, 10_000, fee);
}

/// An amount passes exactly where it is in range, and is then the amount asked about;
/// what is wrong with another one follows the words that say what it was for.
pub proof fn law_validated_amount(
    stroops: int,
    context: Seq<char>,
    res: Result<Amount, AuthError>,
)
    requires
        stroops >= 0,
        validated(crate::amount::amount_error(stroops), stroops, context, res),
    ensures
        res is Ok <==> 0 < stroops <= 0x7fff_ffff_ffff_ffff,
        res matches Ok(amount) ==> amount@ == stroops,
        stroops == 0 ==> (res matches Err(AuthError::AmountValidationFailed(msg)) && msg@ == context
            + "amount must be strictly positive"@),
        stroops > 0x7fff_ffff_ffff_ffff ==> (res matches Err(
            AuthError::AmountValidationFailed(msg),
        ) && msg@ == context + "amount exceeds maximum stellar value"@),
{
}

/// A debit passes exactly where something is left, and is then what is left.
pub proof fn law_validated_debit(
    current: Amount,
    delta: Amount,
    context: Seq<char>,
    res: Result<Amount, AuthError>,
)
    requires
        current.valid(),
        delta.valid(),
        validated(
            crate::amount::difference_error(current@, delta@),
            current@ - delta@,
            context,
            res,
        ),
    ensures
        res is Ok <==> current@ > delta@,
        res matches Ok(left) ==> left@ + delta@ == current@,
        current@ < delta@ ==> (res matches Err(AuthError::AmountValidationFailed(msg)) && msg@
            == context + "subtraction would produce a negative result"@),
{
}

/// A fee passes exactly where both rates are between one and ten thousand basis points,
/// both shares of the principal come to a stroop or more, and the fee is no more than the
/// share allowed.  It is then the largest whole number of stroops within its share.
pub proof fn law_validated_fee(
    principal: Amount,
    bps: u64,
    max_fee_ratio: u64,
    res: Result<Amount, AuthError>,
)
    requires
        principal.valid(),
        fee_validated(principal@, bps, max_fee_ratio, res),
    ensures
        res is Ok <==> 0 < bps <= 10_000 && 0 < max_fee_ratio <= 10_000 && principal@ * bps
            >= 10_000 && principal@ * max_fee_ratio >= 10_000 && principal@ * bps / 10_000
            <= principal@ * max_fee_ratio / 10_000,
        res matches Ok(fee) ==> fee@ * 10_000 <= principal@ * bps < (fee@ + 1) * 10_000,
        res is Err ==> res->Err_0 is AmountValidationFailed,
{
    if bps <= 10_000 {
        crate::amount::lemma_part_at_most_whole(principal@, bps as int, 10_000);
    }
    if max_fee_ratio <= 10_000 {
        crate::amount::lemma_part_at_most_whole(principal@, max_fee_ratio as int, 10_000);
    }
}

/// A claimed balance passes where no change is expected, and else exactly where it is the
/// previous balance and the change together.
pub proof fn law_consistent_balance(
    previous: Amount,
    claimed: Amount,
    expected_delta: Option<Amount>,
    res: Result<(), AuthError>,
)
    requires
        previous.valid(),
        claimed.valid(),
        expected_delta matches Some(delta) ==> delta.valid(),
        balance_consistent(previous@, claimed@, expected_delta, res),
    ensures
        res is Ok <==> (expected_delta matches Some(delta) ==> previous@ + delta@ == claimed@),
        res is Err ==> res->Err_0 is AmountValidationFailed,
{
}

} // verus!
