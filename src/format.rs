//! The input formats that a conversion can read.

use vstd::prelude::*;
use vstd::string::StringExecFns;

verus! {

/// A conversion's input format.
#[derive(Debug, Clone, Copy, PartialEq, Eq, PartialOrd, Ord, Hash, Structural)]
pub enum InputConvertFormat {
    CSV,
    ShExC,
    ShExJ,
    Turtle,
    Xlsx,
}

/// The result of `str::to_lowercase` on `s`.
pub uninterp spec fn lower_of(s: Seq<char>) -> Seq<char>;

/// Relies on `str::to_lowercase`: the result depends on the characters alone.
#[verifier::external_body]
fn lowercase(s: &str) -> (r: String)
    ensures
        r@ == lower_of(s@),
{
    s.to_lowercase()
}

/// The lower-case name of each format.
pub open spec fn format_name(f: InputConvertFormat) -> Seq<char> {
    match f {
        InputConvertFormat::CSV => "csv"@,
        InputConvertFormat::ShExC => "shexc"@,
        InputConvertFormat::ShExJ => "shexj"@,
        InputConvertFormat::Turtle => "turtle"@,
        InputConvertFormat::Xlsx => "xlsx"@,
    }
}

/// The format whose lower-case name is `s`.
pub open spec fn format_named(s: Seq<char>) -> Option<InputConvertFormat> {
    if s == "csv"@ {
        Some(InputConvertFormat::CSV)
    } else if s == "xlsx"@ {
        Some(InputConvertFormat::Xlsx)
    } else if s == "shexc"@ {
        Some(InputConvertFormat::ShExC)
    } else if s == "shexj"@ {
        Some(InputConvertFormat::ShExJ)
    } else if s == "turtle"@ {
        Some(InputConvertFormat::Turtle)
    } else {
        None
    }
}

fn is(s: &String, lit: &str) -> (r: bool)
    ensures
        r == (s@ == lit@),
{
    let l = lit.to_string();
    s.eq(&l)
}

impl InputConvertFormat {
    /// The format whose lower-case name is `s`, if any.
    pub fn from_lower_name(s: &String) -> (r: Option<InputConvertFormat>)
        ensures
            r == format_named(s@),
    {
        if is(s, "csv") {
            Some(InputConvertFormat::CSV)
        } else if is(s, "xlsx") {
            Some(InputConvertFormat::Xlsx)
        } else if is(s, "shexc") {
            Some(InputConvertFormat::ShExC)
        } else if is(s, "shexj") {
            Some(InputConvertFormat::ShExJ)
        } else if is(s, "turtle") {
            Some(InputConvertFormat::Turtle)
        } else {
            None
        }
    }

    /// Reads a format by name, whatever its case.
    pub fn parse(s: &str) -> (r: Result<InputConvertFormat, String>)
        ensures
            match format_named(lower_of(s@)) {
                Some(f) => r == Ok::<InputConvertFormat, String>(f),
                None => r matches Err(m) && m@ == "Unsupported input convert format "@ + s@,
            },
    {
        let lower = lowercase(s);
        match InputConvertFormat::from_lower_name(&lower) {
            Some(f) => Ok(f),
            None => {
                let mut m = "Unsupported input convert format ".to_string();
                m.append(s);
                Err(m)
            },
        }
    }

    /// The lower-case name of the format.
    pub fn name(&self) -> (r: &'static str)
        ensures
            r@ == format_name(*self),
    {
        match self {
            InputConvertFormat::CSV => "csv",
            InputConvertFormat::ShExC => "shexc",
            InputConvertFormat::ShExJ => "shexj",
            InputConvertFormat::Turtle => "turtle",
            InputConvertFormat::Xlsx => "xlsx",
        }
    }
}

impl std::str::FromStr for InputConvertFormat {
    type Err = String;

    fn from_str(s: &str) -> Result<InputConvertFormat, String> {
        InputConvertFormat::parse(s)
    }
}

} // verus!
