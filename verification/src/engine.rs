//! The loader's decisions: the `.env` template and which variables to ask
//! for, where a downloaded file goes, the database schema and statements, and
//! the rows that a company's facts file contributes to `raw.sec_data`.

use vstd::prelude::*;

use crate::keyed_map::key_lt;
use crate::schema::{Metric, SecCompany};
use crate::text::clone_text;

verus! {

// ---------------------------------------------------------------------------
// Environment file
// ---------------------------------------------------------------------------

/// Path of the environment file.
pub const ENV_PATH: &'static str = ".env";

/// The variables that the environment file lists: `EMAIL` and
/// `FINNHUB_API_KEY`, in that order.
pub fn default_env_vars() -> (r: Vec<String>)
    ensures
        r@.len() == 2,
        r@[0]@ == "EMAIL"@,
        r@[1]@ == "FINNHUB_API_KEY"@,
{
    let mut v: Vec<String> = Vec::new();
    v.push(String::from_str("EMAIL"));
    v.push(String::from_str("FINNHUB_API_KEY"));
    v
}

/// The template of the environment file: one line `NAME=` per variable.
pub open spec fn env_template(vars: Seq<String>) -> Seq<char>
    decreases vars.len(),
{
    if vars.len() == 0 {
        Seq::empty()
    } else {
        env_template(vars.drop_last()) + vars.last()@ + "=\n"@
    }
}

/// Builds the environment file written when none exists.
pub fn env_file_template(vars: &Vec<String>) -> (r: String)
    ensures
        r@ == env_template(vars@),
{
    let mut s = String::new();
    let mut i: usize = 0;
    while i < vars.len()
        invariant
            i <= vars@.len(),
            s@ == env_template(vars@.take(i as int)),
        decreases vars@.len() - i,
    {
        s.append(vars[i].as_str());
        s.append("=\n");
        assert(vars@.take(i + 1).drop_last() =~= vars@.take(i as int));
        i += 1;
    }
    assert(vars@.take(vars@.len() as int) =~= vars@);
    s
}

/// The variables, in order, whose status says that they are not set.
pub open spec fn unset_vars(statuses: Seq<(String, bool)>) -> Seq<String>
    decreases statuses.len(),
{
    if statuses.len() == 0 {
        Seq::empty()
    } else {
        let rest = unset_vars(statuses.drop_last());
        if statuses.last().1 {
            rest
        } else {
            rest.push(statuses.last().0)
        }
    }
}

/// Given each variable with whether the process environment has it, the
/// variables that the user must be asked for, in order.
pub fn vars_to_prompt(statuses: &Vec<(String, bool)>) -> (r: Vec<String>)
    ensures
        r@ == unset_vars(statuses@),
        exists|idx: Seq<int>|
            #![trigger idx.len()]
            {
                &&& idx.len() == r@.len()
                &&& forall|k: int|
                    0 <= k < idx.len() ==> 0 <= #[trigger] idx[k] < statuses@.len() && !statuses@[idx[k]].1
                        && r@[k] == statuses@[idx[k]].0
                &&& forall|k1: int, k2: int|
                    0 <= k1 < k2 < idx.len() ==> #[trigger] idx[k1] < #[trigger] idx[k2]
                &&& forall|i: int|
                    0 <= i < statuses@.len() && !(#[trigger] statuses@[i]).1 ==> exists|k: int|
                        0 <= k < idx.len() && idx[k] == i
            },
{
    proof {
        lemma_prompted_are_the_unset(statuses@);
    }
    let mut out: Vec<String> = Vec::new();
    let mut i: usize = 0;
    while i < statuses.len()
        invariant
            i <= statuses@.len(),
            out@ == unset_vars(statuses@.take(i as int)),
        decreases statuses@.len() - i,
    {
        assert(statuses@.take(i + 1).drop_last() =~= statuses@.take(i as int));
        if !statuses[i].1 {
            out.push(statuses[i].0.clone());
        }
        i += 1;
    }
    assert(statuses@.take(statuses@.len() as int) =~= statuses@);
    out
}

/// The variables to prompt for are exactly the names of the statuses that
/// say "not set", each once, in the order of the statuses: there is a
/// strictly increasing choice of status positions, covering every unset
/// status, whose names are the result.
pub proof fn lemma_prompted_are_the_unset(statuses: Seq<(String, bool)>)
    ensures
        exists|idx: Seq<int>|
            #![trigger idx.len()]
            {
                &&& idx.len() == unset_vars(statuses).len()
                &&& forall|k: int|
                    0 <= k < idx.len() ==> 0 <= #[trigger] idx[k] < statuses.len() && !statuses[idx[k]].1
                        && unset_vars(statuses)[k] == statuses[idx[k]].0
                &&& forall|k1: int, k2: int|
                    0 <= k1 < k2 < idx.len() ==> #[trigger] idx[k1] < #[trigger] idx[k2]
                &&& forall|i: int|
                    0 <= i < statuses.len() && !(#[trigger] statuses[i]).1 ==> exists|k: int|
                        0 <= k < idx.len() && idx[k] == i
            },
    decreases statuses.len(),
{
    let u = unset_vars(statuses);
    if statuses.len() == 0 {
        let idx = Seq::<int>::empty();
        assert(idx.len() == u.len());
    } else {
        let d = statuses.drop_last();
        let n = statuses.len() - 1;
        lemma_prompted_are_the_unset(d);
        let u0 = unset_vars(d);
        let idx0 = choose|idx: Seq<int>|
            #![trigger idx.len()]
            {
                &&& idx.len() == u0.len()
                &&& forall|k: int|
                    0 <= k < idx.len() ==> 0 <= #[trigger] idx[k] < d.len() && !d[idx[k]].1
                        && u0[k] == d[idx[k]].0
                &&& forall|k1: int, k2: int|
                    0 <= k1 < k2 < idx.len() ==> #[trigger] idx[k1] < #[trigger] idx[k2]
                &&& forall|i: int|
                    0 <= i < d.len() && !(#[trigger] d[i]).1 ==> exists|k: int|
                        0 <= k < idx.len() && idx[k] == i
            };
        let idx = if statuses.last().1 {
            idx0
        } else {
            idx0.push(n)
        };
        assert forall|k: int| 0 <= k < idx.len() implies 0 <= #[trigger] idx[k] < statuses.len()
            && !statuses[idx[k]].1 && u[k] == statuses[idx[k]].0 by {
            if k < idx0.len() {
                assert(idx[k] == idx0[k]);
                assert(d[idx0[k]] == statuses[idx0[k]]);
            }
        }
        assert forall|k1: int, k2: int| 0 <= k1 < k2 < idx.len() implies #[trigger] idx[k1]
            < #[trigger] idx[k2] by {
            if k2 < idx0.len() {
                assert(idx[k1] == idx0[k1] && idx[k2] == idx0[k2]);
            } else {
                assert(idx[k1] == idx0[k1]);
                assert(0 <= idx0[k1] < d.len());
            }
        }
        assert forall|i: int| 0 <= i < statuses.len() && !(#[trigger] statuses[i]).1 implies exists|
            k: int,
        | 0 <= k < idx.len() && idx[k] == i by {
            if i < n {
                assert(d[i] == statuses[i]);
                let k = choose|k: int| 0 <= k < idx0.len() && idx0[k] == i;
                assert(idx[k] == idx0[k]);
            } else {
                assert(idx[idx0.len() as int] == n);
            }
        }
    }
}

// ---------------------------------------------------------------------------
// Downloads
// ---------------------------------------------------------------------------

/// Directory that downloads are written to.
pub const DATA_DIR: &'static str = "./data";

/// Index of the last `'/'` in `p`, or `-1`.
pub open spec fn last_slash(p: Seq<char>) -> int
    decreases p.len(),
{
    if p.len() == 0 {
        -1
    } else if p.last() == '/' {
        p.len() - 1
    } else {
        last_slash(p.drop_last())
    }
}

proof fn lemma_last_slash(p: Seq<char>)
    ensures
        -1 <= last_slash(p) < p.len(),
        last_slash(p) >= 0 ==> p[last_slash(p)] == '/',
        forall|j: int| last_slash(p) < j < p.len() ==> p[j] != '/',
    decreases p.len(),
{
    if p.len() > 0 && p.last() != '/' {
        lemma_last_slash(p.drop_last());
        assert forall|j: int| last_slash(p) < j < p.len() implies p[j] != '/' by {
            if j < p.len() - 1 {
                assert(p.drop_last()[j] == p[j]);
            }
        }
    }
}

/// The final component of a `/`-separated path, as `std::path::Path::file_name`
/// gives it on Unix: empty components and `.` components are skipped, and
/// there is none when the path is empty, is the root or `.`, or ends in `..`.
pub open spec fn file_name_spec(p: Seq<char>) -> Option<Seq<char>>
    decreases p.len(),
{
    if p.len() == 0 {
        None
    } else {
        let i = last_slash(p);
        let seg = p.subrange(i + 1, p.len() as int);
        if (seg.len() == 0 || seg == seq!['.']) && i >= 0 && i < p.len() {
            file_name_spec(p.subrange(0, i))
        } else if seg.len() == 0 || seg == seq!['.'] || seg == seq!['.', '.'] {
            None
        } else {
            Some(seg)
        }
    }
}

/// The final component of `path` (see [`file_name_spec`]).
pub fn file_name(path: &str) -> (r: Option<String>)
    ensures
        match file_name_spec(path@) {
            Some(n) => r is Some && r->0@ == n,
            None => r is None,
        },
{
    let n = path.unicode_len();
    let mut end: usize = n;
    assert(path@.subrange(0, n as int) =~= path@);
    loop
        invariant
            n == path@.len(),
            end <= n,
            file_name_spec(path@) == file_name_spec(path@.subrange(0, end as int)),
        decreases end,
    {
        let ghost q = path@.subrange(0, end as int);
        if end == 0 {
            return None;
        }
        let mut j: usize = end;
        loop
            invariant
                n == path@.len(),
                0 < end <= n,
                q == path@.subrange(0, end as int),
                j <= end,
                forall|k: int| j <= k < end ==> path@[k] != '/',
                last_slash(q) == last_slash(path@.subrange(0, j as int)),
            ensures
                j <= end,
                forall|k: int| j <= k < end ==> path@[k] != '/',
                last_slash(q) == j - 1,
            decreases j,
        {
            if j == 0 {
                break;
            }
            if path.get_char(j - 1) == '/' {
                assert(path@.subrange(0, j as int).last() == '/');
                break;
            }
            assert(path@.subrange(0, j as int).drop_last() =~= path@.subrange(0, j - 1));
            j -= 1;
        }
        proof {
            lemma_last_slash(q);
        }
        let seg_len = end - j;
        let ghost seg = q.subrange(j as int, end as int);
        assert(seg =~= path@.subrange(j as int, end as int));
        if seg_len == 0 {
            assert(q.subrange(0, j - 1) =~= path@.subrange(0, j - 1));
            end = j - 1;
            continue;
        }
        if seg_len == 1 && path.get_char(j) == '.' {
            assert(seg =~= seq!['.']);
            if j == 0 {
                return None;
            }
            assert(q.subrange(0, j - 1) =~= path@.subrange(0, j - 1));
            end = j - 1;
            continue;
        }
        if seg_len == 2 && path.get_char(j) == '.' && path.get_char(j + 1) == '.' {
            assert(seg =~= seq!['.', '.']);
            return None;
        }
        if seg_len == 1 {
            assert(seg != seq!['.']) by {
                if seg == seq!['.'] {
                    assert(seg[0] == path@[j as int]);
                }
            }
        }
        if seg_len == 2 {
            assert(seg != seq!['.', '.']) by {
                if seg == seq!['.', '.'] {
                    assert(seg[0] == path@[j as int]);
                    assert(seg[1] == path@[j + 1]);
                }
            }
        }
        let name = String::from_str(path.substring_char(j, end));
        return Some(name);
    }
}

/// Where the download of `url` is stored: the URL's final path component
/// inside `./data`; `None` when the URL has no final component.
pub fn download_target(url: &str) -> (r: Option<String>)
    ensures
        match file_name_spec(url@) {
            Some(n) => r is Some && r->0@ == "./data/"@ + n,
            None => r is None,
        },
{
    match file_name(url) {
        Some(name) => {
            let mut target = String::from_str("./data/");
            target.append(name.as_str());
            Some(target)
        },
        None => None,
    }
}

/// What to do once a download request has been attempted.
pub enum DownloadAction {
    /// Write the response body to this path.
    WriteFile(String),
    /// Report that the URL names no file.
    NoFileName,
    /// Report that the response body could not be read.
    NoBody,
    /// Report that no response arrived.
    NoResponse,
}

/// Decides the outcome of one download: a missing response is reported
/// first, then an unreadable body, then a URL without a file name; otherwise
/// the body is written to the URL's download target.
pub fn download_action(url: &str, response_received: bool, body_received: bool) -> (r:
    DownloadAction)
    ensures
        !response_received ==> r is NoResponse,
        response_received && !body_received ==> r is NoBody,
        response_received && body_received ==> match file_name_spec(url@) {
            Some(n) => r matches DownloadAction::WriteFile(p) && p@ == "./data/"@ + n,
            None => r is NoFileName,
        },
{
    if !response_received {
        DownloadAction::NoResponse
    } else if !body_received {
        DownloadAction::NoBody
    } else {
        match download_target(url) {
            Some(path) => DownloadAction::WriteFile(path),
            None => DownloadAction::NoFileName,
        }
    }
}

// ---------------------------------------------------------------------------
// Database
// ---------------------------------------------------------------------------

/// Connection string of the local database that the setup uses.
pub const LOCAL_CONNECTION: &'static str =
    "host=localhost port=5432 user=postgres dbname=postgres password=postgres";

/// First setup statement.
pub const CREATE_SCHEMA_SQL: &'static str = "CREATE SCHEMA IF NOT EXISTS raw";

/// Second setup statement.
pub const DROP_TABLE_SQL: &'static str = "DROP TABLE IF EXISTS raw.sec_data";

/// Third setup statement: the table that receives [`FactRow`]s.
pub const CREATE_TABLE_SQL: &'static str = "CREATE TABLE raw.sec_data (
            cik             VARCHAR,
            entity_name     VARCHAR,
            label           VARCHAR,
            description     VARCHAR,
            unit            VARCHAR,
            start_date      VARCHAR,
            end_date        VARCHAR,
            val             FLOAT,
            accn            VARCHAR,
            fy              INTEGER,
            fp              VARCHAR,
            form            VARCHAR,
            filed           VARCHAR,
            frame           VARCHAR
        )";

/// The insert of one [`FactRow`]; its parameters follow the row's fields.
pub const INSERT_FACT_SQL: &'static str = "
                            INSERT INTO raw.sec_data (
                                cik, entity_name, label, description, unit, 
                                start_date, end_date, val, accn, fy, 
                                fp, form, filed, frame
                            )
                            VALUES (
                                $1, $2, $3, $4, $5, 
                                $6, $7, $8, $9, $10,
                                $11, $12, $13, $14
                            )   
                        ";

/// One row of `raw.sec_data`, fields in column order.
pub struct FactRow {
    pub cik: String,
    pub entity_name: String,
    pub label: Option<String>,
    pub description: Option<String>,
    pub unit: String,
    pub start_date: Option<String>,
    pub end_date: Option<String>,
    /// Bits of the `val` double (`f64::from_bits` gives the value).
    pub val_bits: Option<u64>,
    pub accn: Option<String>,
    pub fy: Option<i32>,
    pub fp: Option<String>,
    pub form: Option<String>,
    pub filed: Option<String>,
    pub frame: Option<String>,
}

/// Why a metric yields no row (the loader stops there).
#[derive(PartialEq, Eq, Structural, Debug, Clone, Copy)]
pub enum RowError {
    /// The metric has no unit.
    NoUnit,
    /// The metric's first unit has no values.
    NoValue,
}

/// The row of a metric: company identity, the metric's label and
/// description, its first unit (least unit name) and the first value
/// reported in that unit.
pub open spec fn row_spec(company: SecCompany, metric: Metric) -> Result<FactRow, RowError> {
    if metric.units@.len() == 0 {
        Err(RowError::NoUnit)
    } else if metric.units@[0].1@.len() == 0 {
        Err(RowError::NoValue)
    } else {
        let v = metric.units@[0].1@[0];
        Ok(
            FactRow {
                cik: company.cik,
                entity_name: company.entity_name,
                label: metric.label,
                description: metric.description,
                unit: metric.units@[0].0,
                start_date: v.start_date,
                end_date: v.end_date,
                val_bits: v.val_bits,
                accn: v.accn,
                fy: v.fy,
                fp: v.fp,
                form: v.form,
                filed: v.filed,
                frame: v.frame,
            },
        )
    }
}

/// A metric yields a row exactly when it has a unit and its least unit has a
/// value; the row then carries the company's identity, the metric's label
/// and description, the least unit's name and, field by field, the first
/// value reported in that unit.
pub proof fn lemma_row_is_first_value_of_least_unit(company: SecCompany, metric: Metric)
    ensures
        (metric.units@.len() == 0) == (row_spec(company, metric) == Err::<FactRow, RowError>(RowError::NoUnit)),
        (metric.units@.len() > 0 && metric.units@[0].1@.len() == 0) == (row_spec(company, metric) == Err::<FactRow, RowError>(
            RowError::NoValue,
        )),
        row_spec(company, metric) matches Ok(row) ==> metric.units@.len() > 0 && metric.units@[0].1@.len() > 0 && row.cik == company.cik && row.entity_name == company.entity_name
            && row.label == metric.label && row.description == metric.description
            && row.unit == metric.units@[0].0
            && row.start_date == metric.units@[0].1@[0].start_date
            && row.end_date == metric.units@[0].1@[0].end_date
            && row.val_bits == metric.units@[0].1@[0].val_bits
            && row.accn == metric.units@[0].1@[0].accn
            && row.fy == metric.units@[0].1@[0].fy
            && row.fp == metric.units@[0].1@[0].fp
            && row.form == metric.units@[0].1@[0].form
            && row.filed == metric.units@[0].1@[0].filed
            && row.frame == metric.units@[0].1@[0].frame,
{
}

/// The row that `metric` of `company` contributes.
pub fn fact_row(company: &SecCompany, metric: &Metric) -> (r: Result<FactRow, RowError>)
    ensures
        r == row_spec(*company, *metric),
        (metric.units@.len() == 0) == (r == Err::<FactRow, RowError>(RowError::NoUnit)),
        (metric.units@.len() > 0 && metric.units@[0].1@.len() == 0) == (r == Err::<FactRow, RowError>(
            RowError::NoValue,
        )),
        r matches Ok(row) ==> metric.units@.len() > 0 && metric.units@[0].1@.len() > 0 && row.cik == company.cik && row.entity_name == company.entity_name
            && row.label == metric.label && row.description == metric.description
            && row.unit == metric.units@[0].0
            && row.start_date == metric.units@[0].1@[0].start_date
            && row.end_date == metric.units@[0].1@[0].end_date
            && row.val_bits == metric.units@[0].1@[0].val_bits
            && row.accn == metric.units@[0].1@[0].accn
            && row.fy == metric.units@[0].1@[0].fy
            && row.fp == metric.units@[0].1@[0].fp
            && row.form == metric.units@[0].1@[0].form
            && row.filed == metric.units@[0].1@[0].filed
            && row.frame == metric.units@[0].1@[0].frame,
        r matches Ok(row) ==> forall|j: int|
            1 <= j < metric.units@.len() ==> key_lt(row.unit@, #[trigger] metric.units@[j].0@),
{
    match metric.units.first() {
        None => Err(RowError::NoUnit),
        Some(entry) => {
            let values = &entry.1;
            if values.len() == 0 {
                Err(RowError::NoValue)
            } else {
                let v = &values[0];
                Ok(
                    FactRow {
                        cik: company.cik.clone(),
                        entity_name: company.entity_name.clone(),
                        label: clone_text(&metric.label),
                        description: clone_text(&metric.description),
                        unit: entry.0.clone(),
                        start_date: clone_text(&v.start_date),
                        end_date: clone_text(&v.end_date),
                        val_bits: v.val_bits,
                        accn: clone_text(&v.accn),
                        fy: v.fy,
                        fp: clone_text(&v.fp),
                        form: clone_text(&v.form),
                        filed: clone_text(&v.filed),
                        frame: clone_text(&v.frame),
                    },
                )
            }
        },
    }
}

/// The `us-gaap` metrics of a company in ascending name order (none when the
/// taxonomy is missing).
pub open spec fn us_gaap_metrics(company: SecCompany) -> Seq<(String, Metric)> {
    match company.facts.us_gaap {
        Some(m) => m@,
        None => Seq::empty(),
    }
}

/// Only the `us-gaap` taxonomy supplies metrics: none when it is missing
/// (whatever `dei` holds), and otherwise its entries in their order.
pub proof fn lemma_rows_come_from_us_gaap(company: SecCompany)
    ensures
        company.facts.us_gaap is None ==> us_gaap_metrics(company).len() == 0,
        company.facts.us_gaap matches Some(m) ==> us_gaap_metrics(company) == m@,
{
}

/// The rows of a company's facts, one per `us-gaap` metric in ascending
/// name order, up to the first metric that yields none; that metric's error
/// is returned beside the rows (the loader inserts the rows, then stops).
pub fn fact_rows(company: &SecCompany) -> (r: (Vec<FactRow>, Option<RowError>))
    ensures
        r.0@.len() <= us_gaap_metrics(*company).len(),
        forall|i: int|
            0 <= i < r.0@.len() ==> row_spec(*company, us_gaap_metrics(*company)[i].1) == Ok::<
                FactRow,
                RowError,
            >(#[trigger] r.0@[i]),
        forall|i: int, j: int|
            0 <= i < r.0@.len() && 1 <= j < us_gaap_metrics(*company)[i].1.units@.len() ==> key_lt(
                #[trigger] r.0@[i].unit@,
                #[trigger] us_gaap_metrics(*company)[i].1.units@[j].0@,
            ),
        r.1 is None ==> r.0@.len() == us_gaap_metrics(*company).len(),
        company.facts.us_gaap is None ==> r.0@.len() == 0 && r.1 is None,
        company.facts.us_gaap matches Some(m) ==> r.0@.len() <= m@.len() && (forall|i: int|
            0 <= i < r.0@.len() ==> row_spec(*company, m@[i].1) == Ok::<FactRow, RowError>(
                #[trigger] r.0@[i],
            )) && (r.1 is None ==> r.0@.len() == m@.len()),
        r.1 is Some ==> r.0@.len() < us_gaap_metrics(*company).len(),
        r.1 matches Some(e) ==> row_spec(*company, us_gaap_metrics(*company)[r.0@.len() as int].1)
            == Err::<FactRow, RowError>(e),
{
    let mut rows: Vec<FactRow> = Vec::new();
    match &company.facts.us_gaap {
        None => (rows, None),
        Some(metrics) => {
            let n = metrics.len();
            let mut i: usize = 0;
            while i < n
                invariant
                    n == metrics@.len(),
                    metrics@ == us_gaap_metrics(*company),
                    i <= n,
                    rows@.len() == i,
                    forall|k: int|
                        0 <= k < i ==> row_spec(*company, metrics@[k].1) == Ok::<FactRow, RowError>(
                            #[trigger] rows@[k],
                        ),
                    forall|k: int, j: int|
                        0 <= k < i && 1 <= j < metrics@[k].1.units@.len() ==> key_lt(
                            #[trigger] rows@[k].unit@,
                            #[trigger] metrics@[k].1.units@[j].0@,
                        ),
                decreases n - i,
            {
                let entry = metrics.entry(i);
                match fact_row(company, &entry.1) {
                    Ok(row) => {
                        rows.push(row);
                    },
                    Err(e) => {
                        return (rows, Some(e));
                    },
                }
                i += 1;
            }
            (rows, None)
        },
    }
}

} // verus!
