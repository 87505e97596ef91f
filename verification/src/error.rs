//! Error types for the openshmem crate.

use vstd::prelude::*;
use vstd::std_specs::convert::FromSpecImpl;

#[allow(unused_imports)]
use crate::settings;

verus! {

/// A PMIx status, as far as this crate tells one from another.
#[derive(Debug, Clone, Copy, PartialEq, Eq)]
pub enum PmixError {
    /// `PMIX_SUCCESS`.
    Success,
    /// `PMIX_ERROR`, the generic failure.
    Error,
    /// Any other status that PMIx defines, by its raw code.
    Status(i32),
}

/// A UCX status (`ucs_status_t`), by its raw code.
#[derive(Debug, Clone, Copy, PartialEq, Eq)]
pub struct UcsStatus {
    pub code: i8,
}

/// The code of `UCS_OK`.
pub const UCS_OK: i8 = 0;

/// A status that the UCC binding knows: its raw code, and whether the binding counts it among
/// the failures (a collective that is still running has a status, but has not failed).
#[derive(Debug, Clone, Copy, PartialEq, Eq)]
pub struct UccError {
    pub code: i32,
    pub failure: bool,
}

/// A status returned by UCC.
#[derive(Debug, Clone, Copy, PartialEq, Eq)]
pub enum UccStatus {
    Known(UccError),
    Unknown(i32),
}

/// Unified error type across the PMIx / UCX / UCC layers.
#[derive(Debug, Clone, Copy, PartialEq, Eq)]
pub enum Error {
    /// An error surfaced from the PMIx bootstrap layer.
    Pmix(PmixError),
    /// An error surfaced from the UCX RMA/atomics layer.
    Ucx(UcsStatus),
    /// An error surfaced from the UCC collective layer.
    Ucc(UccStatus),
    /// A programming error local to this crate.
    Usage(&'static str),
    /// The library is not initialized.
    NotInitialized,
    /// The library has already been initialized.
    AlreadyInitialized,
    /// A status that cannot represent an operation failure was returned as an error.
    Internal(&'static str),
}

pub type Result<T> = std::result::Result<T, Error>;

impl UccStatus {
    /// The raw code of this status.
    pub open spec fn raw(self) -> i32 {
        match self {
            UccStatus::Known(error) => error.code,
            UccStatus::Unknown(code) => code,
        }
    }

    /// Return the raw code of this status.
    pub fn to_raw(&self) -> (code: i32)
        ensures
            code == self.raw(),
    {
        match self {
            UccStatus::Known(error) => error.code,
            UccStatus::Unknown(code) => *code,
        }
    }
}

/// The error for a failed PMIx call. Success is no failure.
pub open spec fn pmix_failure(error: PmixError) -> Error {
    if error == PmixError::Success {
        Error::Internal("PMIx success was returned where an error was expected")
    } else {
        Error::Pmix(error)
    }
}

impl FromSpecImpl<PmixError> for Error {
    open spec fn obeys_from_spec() -> bool {
        true
    }

    open spec fn from_spec(error: PmixError) -> Self {
        pmix_failure(error)
    }
}

impl From<PmixError> for Error {
    fn from(error: PmixError) -> (result: Self) {
        match error {
            PmixError::Success => Error::Internal(
                "PMIx success was returned where an error was expected",
            ),
            _ => Error::Pmix(error),
        }
    }
}

/// The error for a failed UCX call. Success is no failure.
pub open spec fn ucx_failure(status: UcsStatus) -> Error {
    if status.code == UCS_OK {
        Error::Internal("UCX success was returned where an error was expected")
    } else {
        Error::Ucx(status)
    }
}

impl FromSpecImpl<UcsStatus> for Error {
    open spec fn obeys_from_spec() -> bool {
        true
    }

    open spec fn from_spec(status: UcsStatus) -> Self {
        ucx_failure(status)
    }
}

impl From<UcsStatus> for Error {
    fn from(status: UcsStatus) -> (result: Self) {
        if status.code == UCS_OK {
            Error::Internal("UCX success was returned where an error was expected")
        } else {
            Error::Ucx(status)
        }
    }
}

/// The error for a failed UCC call. An informational status is no failure.
pub open spec fn ucc_failure(error: UccError) -> Error {
    if error.failure {
        Error::Ucc(UccStatus::Known(error))
    } else {
        Error::Internal("UCC informational status was returned where an error was expected")
    }
}

impl FromSpecImpl<UccError> for Error {
    open spec fn obeys_from_spec() -> bool {
        true
    }

    open spec fn from_spec(error: UccError) -> Self {
        ucc_failure(error)
    }
}

impl From<UccError> for Error {
    fn from(error: UccError) -> (result: Self) {
        if error.failure {
            Error::Ucc(UccStatus::Known(error))
        } else {
            Error::Internal("UCC informational status was returned where an error was expected")
        }
    }
}

/// The raw code of a status is the one that UCC returned, whether or not the binding knows it.
pub proof fn law_raw_code_is_kept(error: UccError, code: i32)
    ensures
        UccStatus::Known(error).raw() == error.code,
        UccStatus::Unknown(code).raw() == code,
{
}

/// The status of a failed call is kept in its error. A status that is no failure gives an internal
/// error instead, which says so.
pub proof fn law_error_keeps_its_status(pmix: PmixError, ucx: UcsStatus, ucc: UccError)
    ensures
        !(pmix is Success) ==> pmix_failure(pmix) == Error::Pmix(pmix),
        pmix is Success ==> pmix_failure(pmix) == Error::Internal(
            "PMIx success was returned where an error was expected",
        ),
        ucx.code != 0 ==> ucx_failure(ucx) == Error::Ucx(ucx),
        ucx.code == 0 ==> ucx_failure(ucx) == Error::Internal(
            "UCX success was returned where an error was expected",
        ),
        ucc.failure ==> ucc_failure(ucc) == Error::Ucc(UccStatus::Known(ucc)),
        !ucc.failure ==> ucc_failure(ucc) == Error::Internal(
            "UCC informational status was returned where an error was expected",
        ),
{
}

/// The character of a decimal digit.
pub open spec fn digit_char(digit: nat) -> char {
    (48 + digit) as char
}

/// A natural number in decimal, without leading zeros.
pub open spec fn decimal_digits(n: nat) -> Seq<char>
    decreases n,
{
    if n < 10 {
        seq![digit_char(n)]
    } else {
        decimal_digits(n / 10).push(digit_char(n % 10))
    }
}

/// An integer in decimal, with a minus sign where it is negative.
pub open spec fn decimal(n: int) -> Seq<char> {
    if n < 0 {
        seq!['-'] + decimal_digits((-n) as nat)
    } else {
        decimal_digits(n as nat)
    }
}

/// A number in decimal is one or more digits, without a leading zero unless it is zero, and stands
/// for the number.
pub proof fn law_decimal_digits_stand_for_the_number(n: nat)
    ensures
        decimal_digits(n).len() > 0,
        forall|i: int|
            0 <= i < decimal_digits(n).len() ==> '0' <= #[trigger] decimal_digits(n)[i] <= '9',
        n > 0 ==> decimal_digits(n)[0] != '0',
        n == 0 ==> decimal_digits(n) == seq!['0'],
        settings::digits_value(decimal_digits(n)) == n,
    decreases n,
{
    reveal_with_fuel(settings::digits_value, 2);
    let digits = decimal_digits(n);
    if n >= 10 {
        law_decimal_digits_stand_for_the_number(n / 10);
        assert(digits.drop_last() =~= decimal_digits(n / 10));
        assert(digits[0] == decimal_digits(n / 10)[0]);
        assert forall|i: int| 0 <= i < digits.len() implies '0' <= #[trigger] digits[i] <= '9' by {
            if i < digits.len() - 1 {
                assert(digits[i] == decimal_digits(n / 10)[i]);
            }
        }
    } else {
        assert(digits.drop_last() =~= seq![]);
        assert(digits.last() == digit_char(n));
    }
}

/// An integer in decimal has a minus sign exactly where it is negative, and then the digits of its
/// magnitude.
pub proof fn law_decimal_stands_for_the_integer(n: int)
    ensures
        n >= 0 ==> decimal(n)[0] != '-' && settings::digits_value(decimal(n)) == n,
        n < 0 ==> decimal(n)[0] == '-' && settings::digits_value(decimal(n).skip(1)) == -n,
{
    if n < 0 {
        law_decimal_digits_stand_for_the_number((-n) as nat);
        assert(decimal(n).skip(1) =~= decimal_digits((-n) as nat));
    } else {
        law_decimal_digits_stand_for_the_number(n as nat);
        assert('0' <= decimal_digits(n as nat)[0]);
    }
}

/// Different integers are written differently.
pub proof fn law_decimal_is_faithful(a: int, b: int)
    requires
        decimal(a) == decimal(b),
    ensures
        a == b,
{
    law_decimal_stands_for_the_integer(a);
    law_decimal_stands_for_the_integer(b);
}

fn digit_str(digit: u64) -> (text: &'static str)
    requires
        digit < 10,
    ensures
        text@ == seq![digit_char(digit as nat)],
{
    proof {
        reveal_strlit("0");
        reveal_strlit("1");
        reveal_strlit("2");
        reveal_strlit("3");
        reveal_strlit("4");
        reveal_strlit("5");
        reveal_strlit("6");
        reveal_strlit("7");
        reveal_strlit("8");
        reveal_strlit("9");
    }
    let text = match digit {
        0 => "0",
        1 => "1",
        2 => "2",
        3 => "3",
        4 => "4",
        5 => "5",
        6 => "6",
        7 => "7",
        8 => "8",
        _ => "9",
    };
    assert(text@ =~= seq![digit_char(digit as nat)]);
    text
}

fn append_digits(text: &mut String, n: u64)
    ensures
        final(text)@ == old(text)@ + decimal_digits(n as nat),
    decreases n,
{
    if n >= 10 {
        append_digits(text, n / 10);
    }
    text.append(digit_str(n % 10));
    assert(text@ =~= old(text)@ + decimal_digits(n as nat));
}

fn append_decimal(text: &mut String, n: i64)
    requires
        n > i64::MIN,
    ensures
        final(text)@ == old(text)@ + decimal(n as int),
{
    if n < 0 {
        proof {
            reveal_strlit("-");
        }
        text.append("-");
        append_digits(text, (-n) as u64);
        assert(text@ =~= old(text)@ + decimal(n as int));
    } else {
        append_digits(text, n as u64);
    }
}

impl Error {
    /// The text of an error names the layer that raised it, and then says what the binding printed
    /// or what the message is.
    pub proof fn law_text_names_its_layer(self, detail: Seq<char>)
        ensures
            self is Pmix ==> self.text(detail) == "pmix error: "@ + detail,
            self is Ucx ==> ("ucx error: "@ + detail).is_prefix_of(self.text(detail)),
            self is Ucc ==> ("ucc error: "@ + detail).is_prefix_of(self.text(detail)),
            self matches Error::Usage(message) ==> self.text(detail) == "usage error: "@ + message@,
            self is NotInitialized ==> self.text(detail) == "openshmem not initialized"@,
            self is AlreadyInitialized ==> self.text(detail) == "openshmem already initialized"@,
            self matches Error::Internal(message) ==> self.text(detail) == "internal error: "@
                + message@,
    {
    }

    /// The text of a UCX or UCC error ends with the raw code of its status, in parentheses.
    pub proof fn law_text_ends_with_the_code(self, detail: Seq<char>)
        ensures
            self matches Error::Ucx(status) ==> self.text(detail).skip(
                ("ucx error: "@ + detail).len() as int,
            ) == " (code "@ + decimal(status.code as int) + ")"@,
            self matches Error::Ucc(status) ==> self.text(detail).skip(
                ("ucc error: "@ + detail).len() as int,
            ) == " (code "@ + decimal(
                match status {
                    UccStatus::Known(error) => error.code as int,
                    UccStatus::Unknown(code) => code as int,
                },
            ) + ")"@,
    {
    }

    /// Statuses with different codes are told apart by their texts, even where the binding prints
    /// the same for both.
    pub proof fn law_text_tells_codes_apart(a: UcsStatus, b: UcsStatus, detail: Seq<char>)
        requires
            Error::Ucx(a).text(detail) == Error::Ucx(b).text(detail),
        ensures
            a.code == b.code,
    {
        let front = "ucx error: "@ + detail + " (code "@;
        let x = decimal(a.code as int);
        let y = decimal(b.code as int);
        let text = front + x + ")"@;
        assert(text == front + y + ")"@);
        assert(x =~= text.subrange(front.len() as int, text.len() - ")"@.len()));
        assert(y =~= text.subrange(front.len() as int, text.len() - ")"@.len()));
        law_decimal_is_faithful(a.code as int, b.code as int);
    }

    /// The text of an error. `detail` is how the binding that raised it prints its status.
    pub open spec fn text(self, detail: Seq<char>) -> Seq<char> {
        match self {
            Error::Pmix(_) => "pmix error: "@ + detail,
            Error::Ucx(status) => "ucx error: "@ + detail + " (code "@ + decimal(status.code as int)
                + ")"@,
            Error::Ucc(status) => "ucc error: "@ + detail + " (code "@ + decimal(
                status.raw() as int,
            ) + ")"@,
            Error::Usage(message) => "usage error: "@ + message@,
            Error::NotInitialized => "openshmem not initialized"@,
            Error::AlreadyInitialized => "openshmem already initialized"@,
            Error::Internal(message) => "internal error: "@ + message@,
        }
    }

    /// Describe the error in one line.
    ///
    /// The PMIx, UCX and UCC bindings print their own statuses; `detail` is what the binding
    /// printed for the status inside this error, and is not used for the crate's own errors.
    pub fn message(&self, detail: &str) -> (text: String)
        ensures
            text@ == self.text(detail@),
    {
        let mut text = String::new();
        match self {
            Error::Pmix(_) => {
                text.append("pmix error: ");
                text.append(detail);
            },
            Error::Ucx(status) => {
                text.append("ucx error: ");
                text.append(detail);
                text.append(" (code ");
                append_decimal(&mut text, status.code as i64);
                text.append(")");
            },
            Error::Ucc(status) => {
                text.append("ucc error: ");
                text.append(detail);
                text.append(" (code ");
                append_decimal(&mut text, status.to_raw() as i64);
                text.append(")");
            },
            Error::Usage(message) => {
                text.append("usage error: ");
                text.append(message);
            },
            Error::NotInitialized => {
                text.append("openshmem not initialized");
            },
            Error::AlreadyInitialized => {
                text.append("openshmem already initialized");
            },
            Error::Internal(message) => {
                text.append("internal error: ");
                text.append(message);
            },
        }
        assert(text@ =~= self.text(detail@));
        text
    }
}

} // verus!
