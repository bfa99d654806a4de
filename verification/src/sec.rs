//! The SEC source: where its data is fetched from, where it is stored, and
//! how the per-company facts files are named.

use vstd::prelude::*;

pub use crate::schema::{Facts, Metric, SecCompanies, SecCompany, Values};

use crate::cik::{cik_text, format_cik};
use crate::schema::{cik_json_spec, CikJson};

verus! {

/// The bulk archive of all companies' facts.
pub const COMPANY_FACTS_URL: &'static str =
    "https://www.sec.gov/Archives/edgar/daily-index/xbrl/companyfacts.zip";

/// The list of companies with their tickers.
pub const COMPANY_TICKERS_URL: &'static str = "https://www.sec.gov/files/company_tickers.json";

/// How many downloads run at once.
pub const DOWNLOAD_CONCURRENCY: usize = 3;

/// Where the facts archive is stored once downloaded.
pub const FACTS_ARCHIVE: &'static str = "./data/companyfacts.zip";

/// Where the facts archive is extracted.
pub const FACTS_DIR: &'static str = "./data/facts";

/// Where the company list is stored once downloaded.
pub const TICKERS_FILE: &'static str = "./data/company_tickers.json";

/// How many companies are loaded into the database at once.
pub const LOAD_CONCURRENCY: usize = 35;

/// Path of the facts file of the company with the given CIK number:
/// `./data/facts/CIK` + the CIK padded to ten digits + `.json`.
pub open spec fn facts_path_spec(cik_str: int) -> Seq<char> {
    "./data/facts/CIK"@ + cik_text(cik_str) + ".json"@
}

/// Path of the facts file of the company with the given CIK number.
pub fn facts_path(cik_str: i32) -> (r: String)
    ensures
        r@ == facts_path_spec(cik_str as int),
{
    let mut path = String::from_str("./data/facts/CIK");
    let cik = format_cik(cik_str as i64);
    path.append(cik.as_str());
    path.append(".json");
    path
}

/// The facts file of a listed company is named after the same ten-character
/// CIK that the `cik` field of that file yields when it is given as the
/// company's number.
pub proof fn lemma_facts_file_names_the_cik(cik_str: i32)
    ensures
        cik_json_spec(CikJson::Number(Some(cik_str as i64))) matches Ok(cik) && facts_path_spec(
            cik_str as int,
        ) == "./data/facts/CIK"@ + cik + ".json"@,
{
}

} // verus!
