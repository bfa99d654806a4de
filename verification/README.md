# pudb

A pop-up PostgreSQL database of finance data. The SEC company-facts archive
and company list are downloaded, unpacked, and each company's `us-gaap`
facts are inserted into `raw.sec_data`.

- `src/` is the verified library (Verus): the data model, the CIK rule
  (numbers zero padded to ten digits), an ordered text-keyed map with the
  semantics of `BTreeMap<String, _>`, the rows derived from a company's
  facts, download target naming, the environment template and the
  connection string.
- `app/` is the program around it: reading files, HTTP downloads, zip
  extraction, the database connection and the terminal.
- `tests/` runs the library on concrete data.
