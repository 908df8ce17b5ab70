use vstd::prelude::*;
use vstd::string::StringExecFns;

verus! {

/// A statement currency the library recognises.
#[derive(Clone, Copy, PartialEq, Eq, Structural, Debug)]
pub enum Currency {
    CAD,
    USD,
}

/// A name for what std's `str::to_uppercase` returns: the uppercased text,
/// a function of the argument's characters alone.
pub uninterp spec fn upper_of(s: Seq<char>) -> Seq<char>;

/// Relies on std's `str::to_uppercase`: the result depends on the
/// characters of the argument alone.
#[verifier::external_body]
fn to_upper(s: &str) -> (r: String)
    ensures
        r@ == upper_of(s@),
{
    s.to_uppercase()
}

/// The failure of currency recognition, carrying the text that was offered.
#[derive(Clone, PartialEq, Eq, Debug)]
pub struct UnknownCurrency {
    pub code: String,
}

impl UnknownCurrency {
    /// The human-readable account of this failure.
    pub fn message(&self) -> (r: String)
        ensures
            r@ == "unknown currency "@ + self.code@,
    {
        let mut out = String::new();
        out.append("unknown currency ");
        out.append(self.code.as_str());
        proof {
            assert(out@ =~= "unknown currency "@ + self.code@);
        }
        out
    }
}

/// The currency named by an exact uppercase code; exactly "CAD" and "USD"
/// are known.
pub open spec fn spec_of_code(code: Seq<char>) -> Option<Currency> {
    if code == "CAD"@ {
        Some(Currency::CAD)
    } else if code == "USD"@ {
        Some(Currency::USD)
    } else {
        None
    }
}

fn str_eq(a: &str, b: &str) -> (r: bool)
    ensures
        r == (a@ == b@),
{
    let sa = a.to_owned();
    let sb = b.to_owned();
    sa == sb
}

impl Currency {
    /// The code that names this currency.
    pub open spec fn code_spec(self) -> Seq<char> {
        match self {
            Currency::CAD => "CAD"@,
            Currency::USD => "USD"@,
        }
    }

    /// The code that names this currency, as text.
    pub fn code(&self) -> (r: &'static str)
        ensures
            r@ == self.code_spec(),
    {
        match self {
            Currency::CAD => "CAD",
            Currency::USD => "USD",
        }
    }

    /// The currency of an already-uppercased code, exactly as
    /// `spec_of_code` states it.
    pub fn from_code(code: &str) -> (r: Option<Currency>)
        ensures
            r == spec_of_code(code@),
    {
        if str_eq(code, "CAD") {
            Some(Currency::CAD)
        } else if str_eq(code, "USD") {
            Some(Currency::USD)
        } else {
            None
        }
    }

    /// The currency named by `value`, compared without regard to case; any
    /// text whose uppercasing is neither known code is reported back
    /// verbatim in the error.
    pub fn try_from(value: &str) -> (r: Result<Currency, UnknownCurrency>)
        ensures
            match r {
                Ok(c) => spec_of_code(upper_of(value@)) == Some(c),
                Err(e) => spec_of_code(upper_of(value@)) is None && e.code@ == value@,
            },
    {
        let up = to_upper(value);
        match Self::from_code(up.as_str()) {
            Some(c) => Ok(c),
            None => Err(UnknownCurrency { code: value.to_owned() }),
        }
    }
}

} // verus!
