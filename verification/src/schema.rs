//! The SEC data model: the company list (`company_tickers.json`) and the
//! per-company facts files (`CIK##########.json`), plus the rule that turns
//! the JSON `cik` field, a number or a string, into a ten-character CIK.
//! The JSON value itself is read by the program, which hands its shape over
//! as a [`CikJson`].

use vstd::prelude::*;

use crate::cik::{cik_text, format_cik};
use crate::keyed_map::KeyedMap;

verus! {

/// One entry of the SEC company list.
pub struct SecCompanies {
    pub cik_str: i32,
    pub ticker: String,
    pub title: String,
}

/// One company's facts file.
pub struct SecCompany {
    /// The CIK, always as text (see [`cik_from_json`]).
    pub cik: String,
    /// The JSON field `entityName`.
    pub entity_name: String,
    pub facts: Facts,
}

/// The fact taxonomies of a company; either may be missing in the data.
pub struct Facts {
    /// The JSON field `us-gaap`: metric name to metric, by ascending name.
    pub us_gaap: Option<KeyedMap<Metric>>,
    pub dei: Option<KeyedMap<Metric>>,
}

/// One reported metric.
pub struct Metric {
    pub label: Option<String>,
    pub description: Option<String>,
    /// Unit of measurement to the reported values, by ascending unit name.
    pub units: KeyedMap<Vec<Values>>,
}

/// One reported value of a metric.
pub struct Values {
    /// The JSON field `start`.
    pub start_date: Option<String>,
    /// The JSON field `end`.
    pub end_date: Option<String>,
    /// The JSON field `val`, held as the bit pattern of the IEEE-754 double
    /// that the data carries (`f64::to_bits`).
    pub val_bits: Option<u64>,
    pub accn: Option<String>,
    pub fy: Option<i32>,
    pub fp: Option<String>,
    pub form: Option<String>,
    pub filed: Option<String>,
    pub frame: Option<String>,
}

/// The shape of the JSON `cik` field, as far as the CIK rule reads it.
pub enum CikJson {
    /// A JSON number, with its value as `i64` when it is an integer that fits.
    Number(Option<i64>),
    /// A JSON string.
    Text(String),
    /// Any other JSON value.
    Other,
}

/// Why a `cik` field is refused.
#[derive(PartialEq, Eq, Structural, Debug, Clone, Copy)]
pub enum CikError {
    /// A number that is not an integer in the `i64` range.
    NotAnInteger,
    /// Neither a number nor a string.
    InvalidType,
}

impl CikError {
    /// The message that the loader reports for this error.
    pub fn message(&self) -> (r: &'static str)
        ensures
            r@ == (match *self {
                CikError::NotAnInteger => "ERROR! Unable to parse i32 from JSON"@,
                CikError::InvalidType => "ERROR! Invalid type for CIK"@,
            }),
    {
        match self {
            CikError::NotAnInteger => "ERROR! Unable to parse i32 from JSON",
            CikError::InvalidType => "ERROR! Invalid type for CIK",
        }
    }
}

/// The CIK that a `cik` field denotes: an integer is zero padded to ten
/// characters, a string is taken as it is, anything else is refused.
pub open spec fn cik_json_spec(c: CikJson) -> Result<Seq<char>, CikError> {
    match c {
        CikJson::Number(Some(i)) => Ok(cik_text(i as int)),
        CikJson::Number(None) => Err(CikError::NotAnInteger),
        CikJson::Text(s) => Ok(s@),
        CikJson::Other => Err(CikError::InvalidType),
    }
}

/// A computed text result agrees with its specification.
pub open spec fn text_result_is(r: Result<String, CikError>, s: Result<Seq<char>, CikError>) -> bool {
    match (r, s) {
        (Ok(a), Ok(b)) => a@ == b,
        (Err(e), Err(f)) => e == f,
        _ => false,
    }
}

/// The CIK of a `cik` field of the given shape.
pub fn cik_from_json(c: CikJson) -> (r: Result<String, CikError>)
    ensures
        text_result_is(r, cik_json_spec(c)),
{
    match c {
        CikJson::Number(Some(i)) => Ok(format_cik(i)),
        CikJson::Number(None) => Err(CikError::NotAnInteger),
        CikJson::Text(s) => Ok(s),
        CikJson::Other => Err(CikError::InvalidType),
    }
}

/// A CIK of at most ten digits reads the same whether the data gives it as
/// a number or as its ten-digit string.
pub proof fn lemma_number_and_text_agree(n: i64, s: String)
    requires
        0 <= n < 10_000_000_000,
        s@ == cik_text(n as int),
    ensures
        cik_json_spec(CikJson::Number(Some(n))) == cik_json_spec(CikJson::Text(s)),
        cik_json_spec(CikJson::Text(s)) == Ok::<Seq<char>, CikError>(s@),
        s@.len() == 10,
{
    crate::cik::lemma_cik_text_round_trip(n as int);
}

} // verus!
